use episodic::OmConfigError;
use episodic::OmScope;
use episodic::config::{
    check_observation_buffer_tokens, resolve_async_buffering, shared_total_budget,
};

#[test]
fn async_buffering_stays_on_by_default_in_thread_scope() {
    assert_eq!(resolve_async_buffering(OmScope::Thread, false, false, false), Ok(false));
    assert_eq!(resolve_async_buffering(OmScope::Session, false, true, false), Ok(false));
}

#[test]
fn shared_budget_rejects_async_buffering() {
    assert_eq!(
        resolve_async_buffering(OmScope::Thread, false, false, true),
        Err(OmConfigError::ShareTokenBudgetRequiresAsyncDisabled)
    );
    assert_eq!(resolve_async_buffering(OmScope::Thread, true, false, true), Ok(true));
}

#[test]
fn resource_scope_turns_async_buffering_off_and_refuses_explicit_requests() {
    assert_eq!(resolve_async_buffering(OmScope::Resource, false, false, false), Ok(true));
    assert_eq!(resolve_async_buffering(OmScope::Resource, true, false, true), Ok(true));
    assert_eq!(
        resolve_async_buffering(OmScope::Resource, false, true, false),
        Err(OmConfigError::ResourceScopeAsyncBufferingUnsupported)
    );
}

#[test]
fn buffer_tokens_must_stay_below_the_message_threshold() {
    assert_eq!(check_observation_buffer_tokens(6_000, 30_000), Ok(6_000));
    assert_eq!(
        check_observation_buffer_tokens(10_000, 10_000),
        Err(OmConfigError::ObservationBufferTokensAtOrAboveThreshold)
    );
}

#[test]
fn shared_total_budget_is_a_saturating_sum() {
    assert_eq!(shared_total_budget(true, 30_000, 40_000), Some(70_000));
    assert_eq!(shared_total_budget(true, u32::MAX, 1), Some(u32::MAX));
    assert_eq!(shared_total_budget(false, 30_000, 40_000), None);
}
