//! Resolved observation and reflection thresholds and their validation.
//!
//! Ratios given as floating-point numbers are resolved outside the library;
//! what the decisions here read of them is held as integers.

use vstd::prelude::*;
use crate::model::OmScope;
use crate::transform::activation::{calculate_dynamic_threshold, dynamic_threshold};

verus! {

pub const DEFAULT_OBSERVER_MESSAGE_TOKENS: u32 = 30_000;
pub const DEFAULT_REFLECTOR_OBSERVATION_TOKENS: u32 = 40_000;
pub const DEFAULT_OBSERVER_MAX_TOKENS_PER_BATCH: u32 = 10_000;

#[derive(Debug, Clone, Copy, PartialEq, Eq, Structural)]
pub enum OmConfigError {
    InvalidObservationMessageTokens,
    InvalidReflectionObservationTokens,
    InvalidObservationBufferTokensRatio,
    InvalidObservationBufferTokensAbsolute,
    ObservationBufferTokensAtOrAboveThreshold,
    InvalidObservationBufferActivation,
    InvalidReflectionBufferActivation,
    InvalidObservationBlockAfter,
    InvalidReflectionBlockAfter,
    InvalidObservationMaxTokensPerBatch,
    ResourceScopeAsyncBufferingUnsupported,
    ShareTokenBudgetRequiresAsyncDisabled,
}

impl OmConfigError {
    /// The message of each error.
    pub open spec fn text(self) -> Seq<char> {
        match self {
            OmConfigError::InvalidObservationMessageTokens => "invalid observation.message_tokens: must be > 0"@,
            OmConfigError::InvalidReflectionObservationTokens => "invalid reflection.observation_tokens: must be > 0"@,
            OmConfigError::InvalidObservationBufferTokensRatio => "invalid observation.bufferTokens ratio: must be in (0, 1)"@,
            OmConfigError::InvalidObservationBufferTokensAbsolute => "invalid observation.bufferTokens absolute: must be > 0"@,
            OmConfigError::ObservationBufferTokensAtOrAboveThreshold => "observation.bufferTokens must resolve below message threshold"@,
            OmConfigError::InvalidObservationBufferActivation => "invalid observation.bufferActivation: must be in (0, 1]"@,
            OmConfigError::InvalidReflectionBufferActivation => "invalid reflection.bufferActivation: must be in (0, 1]"@,
            OmConfigError::InvalidObservationBlockAfter => "invalid observation.blockAfter: must resolve >= message threshold"@,
            OmConfigError::InvalidReflectionBlockAfter => "invalid reflection.blockAfter: must resolve >= reflection threshold"@,
            OmConfigError::InvalidObservationMaxTokensPerBatch => "invalid observation.maxTokensPerBatch: must be > 0"@,
            OmConfigError::ResourceScopeAsyncBufferingUnsupported => "resource scope does not support async buffering; disable via observation.bufferTokens=Disabled"@,
            OmConfigError::ShareTokenBudgetRequiresAsyncDisabled => "shareTokenBudget requires async buffering disabled via observation.bufferTokens=Disabled"@,
        }
    }

    /// Human-readable description of the error.
    pub fn message(&self) -> (r: &'static str)
        ensures
            r@ == self.text(),
    {
        match self {
            OmConfigError::InvalidObservationMessageTokens => "invalid observation.message_tokens: must be > 0",
            OmConfigError::InvalidReflectionObservationTokens => "invalid reflection.observation_tokens: must be > 0",
            OmConfigError::InvalidObservationBufferTokensRatio => "invalid observation.bufferTokens ratio: must be in (0, 1)",
            OmConfigError::InvalidObservationBufferTokensAbsolute => "invalid observation.bufferTokens absolute: must be > 0",
            OmConfigError::ObservationBufferTokensAtOrAboveThreshold => "observation.bufferTokens must resolve below message threshold",
            OmConfigError::InvalidObservationBufferActivation => "invalid observation.bufferActivation: must be in (0, 1]",
            OmConfigError::InvalidReflectionBufferActivation => "invalid reflection.bufferActivation: must be in (0, 1]",
            OmConfigError::InvalidObservationBlockAfter => "invalid observation.blockAfter: must resolve >= message threshold",
            OmConfigError::InvalidReflectionBlockAfter => "invalid reflection.blockAfter: must resolve >= reflection threshold",
            OmConfigError::InvalidObservationMaxTokensPerBatch => "invalid observation.maxTokensPerBatch: must be > 0",
            OmConfigError::ResourceScopeAsyncBufferingUnsupported => "resource scope does not support async buffering; disable via observation.bufferTokens=Disabled",
            OmConfigError::ShareTokenBudgetRequiresAsyncDisabled => "shareTokenBudget requires async buffering disabled via observation.bufferTokens=Disabled",
        }
    }
}

/// A positive observation message threshold.
pub fn validate_observation_message_tokens(value: u32) -> (r: Result<u32, OmConfigError>)
    ensures
        value == 0 ==> r == Err::<u32, OmConfigError>(OmConfigError::InvalidObservationMessageTokens),
        value > 0 ==> r == Ok::<u32, OmConfigError>(value),
{
    if value == 0 {
        Err(OmConfigError::InvalidObservationMessageTokens)
    } else {
        Ok(value)
    }
}

/// A positive reflection observation threshold.
pub fn validate_reflection_observation_tokens(value: u32) -> (r: Result<u32, OmConfigError>)
    ensures
        value == 0 ==> r == Err::<u32, OmConfigError>(OmConfigError::InvalidReflectionObservationTokens),
        value > 0 ==> r == Ok::<u32, OmConfigError>(value),
{
    if value == 0 {
        Err(OmConfigError::InvalidReflectionObservationTokens)
    } else {
        Ok(value)
    }
}

/// A positive observer batch size.
pub fn validate_observation_max_tokens_per_batch(value: u32) -> (r: Result<u32, OmConfigError>)
    ensures
        value == 0 ==> r == Err::<u32, OmConfigError>(OmConfigError::InvalidObservationMaxTokensPerBatch),
        value > 0 ==> r == Ok::<u32, OmConfigError>(value),
{
    if value == 0 {
        Err(OmConfigError::InvalidObservationMaxTokensPerBatch)
    } else {
        Ok(value)
    }
}

/// Observation settings as the decisions read them.
#[derive(Debug, Clone, Copy, PartialEq, Eq, Structural)]
pub struct ResolvedObservationConfig {
    pub message_tokens_base: u32,
    pub total_budget: Option<u32>,
    pub max_tokens_per_batch: u32,
    pub buffer_tokens: Option<u32>,
    pub block_after: Option<u32>,
}

impl ResolvedObservationConfig {
    /// Message threshold given the current observation size.
    pub fn dynamic_threshold(&self, current_observation_tokens: u32) -> (r: u32)
        ensures
            r == dynamic_threshold(self.message_tokens_base, self.total_budget, current_observation_tokens),
    {
        calculate_dynamic_threshold(self.message_tokens_base, self.total_budget, current_observation_tokens)
    }
}

/// The reflection buffer-activation ratio as the reflection decision reads
/// it: whether the ratio lies in `(0, 1]`, and the smallest observation token
/// count at or above `threshold × ratio` (the activation point).
#[derive(Debug, Clone, Copy, PartialEq, Eq, Structural)]
pub struct ReflectionActivation {
    pub in_range: bool,
    pub activation_point_tokens: u64,
}

/// Reflection settings as the decisions read them.
#[derive(Debug, Clone, Copy, PartialEq, Eq, Structural)]
pub struct ResolvedReflectionConfig {
    pub observation_tokens: u32,
    pub buffer_activation: Option<ReflectionActivation>,
    pub block_after: Option<u32>,
}


/// Whether async buffering ends up off, given the scope, whether the buffer
/// was disabled explicitly, whether async buffering (a buffer size or a
/// block-after limit) was asked for explicitly, and whether the token budget
/// is shared. The resource scope always turns it off and refuses an explicit
/// request for it; other scopes turn it off only when the buffer is disabled
/// explicitly; a shared budget requires it off.
pub fn resolve_async_buffering(
    scope: OmScope,
    buffer_disabled_explicitly: bool,
    async_requested_explicitly: bool,
    share_token_budget: bool,
) -> (r: Result<bool, OmConfigError>)
    ensures
        scope == OmScope::Resource && async_requested_explicitly
            ==> r == Err::<bool, OmConfigError>(OmConfigError::ResourceScopeAsyncBufferingUnsupported),
        !(scope == OmScope::Resource && async_requested_explicitly) && share_token_budget
            && !(scope == OmScope::Resource || buffer_disabled_explicitly)
            ==> r == Err::<bool, OmConfigError>(OmConfigError::ShareTokenBudgetRequiresAsyncDisabled),
        !(scope == OmScope::Resource && async_requested_explicitly)
            && !(share_token_budget && !(scope == OmScope::Resource || buffer_disabled_explicitly))
            ==> r == Ok::<bool, OmConfigError>(scope == OmScope::Resource || buffer_disabled_explicitly),
{
    let resource = match scope {
        OmScope::Resource => true,
        _ => false,
    };
    let disabled = if resource {
        if async_requested_explicitly {
            return Err(OmConfigError::ResourceScopeAsyncBufferingUnsupported);
        }
        true
    } else {
        buffer_disabled_explicitly
    };
    if share_token_budget && !disabled {
        return Err(OmConfigError::ShareTokenBudgetRequiresAsyncDisabled);
    }
    Ok(disabled)
}

/// The observation buffer size, which must stay below the message
/// threshold.
pub fn check_observation_buffer_tokens(tokens: u32, message_tokens: u32) -> (r: Result<u32, OmConfigError>)
    ensures
        r is Ok <==> tokens < message_tokens,
        r matches Ok(t) ==> t == tokens,
        tokens >= message_tokens ==> r == Err::<u32, OmConfigError>(OmConfigError::ObservationBufferTokensAtOrAboveThreshold),
{
    if tokens >= message_tokens {
        Err(OmConfigError::ObservationBufferTokensAtOrAboveThreshold)
    } else {
        Ok(tokens)
    }
}

/// The shared token budget: the message and reflection thresholds added
/// (saturating at `u32::MAX`) when the budget is shared, none otherwise.
pub fn shared_total_budget(share_token_budget: bool, message_tokens: u32, observation_tokens: u32) -> (r: Option<u32>)
    ensures
        !share_token_budget ==> r is None,
        share_token_budget ==> r == Some(if message_tokens + observation_tokens > u32::MAX { u32::MAX } else { (message_tokens + observation_tokens) as u32 }),
{
    if share_token_budget {
        Some(message_tokens.saturating_add(observation_tokens))
    } else {
        None
    }
}

} // verus!
