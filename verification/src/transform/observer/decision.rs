//! When the observer runs, and the asynchronous buffering interval.

use vstd::prelude::*;
use crate::config::ResolvedObservationConfig;
use crate::model::OmRecord;
use crate::transform::activation::dynamic_threshold;
use crate::transform::types::{AsyncObservationIntervalState, ObserverWriteDecision};

verus! {

/// Continuation hints are skipped when only the buffering interval (not the
/// threshold) triggered the observer.
pub fn should_skip_observer_continuation_hints(decision: ObserverWriteDecision) -> (r: bool)
    ensures
        r == (decision.interval_triggered && !decision.threshold_reached),
{
    decision.interval_triggered && !decision.threshold_reached
}

/// Context-window tokens plus cross-thread tokens, saturating.
pub fn compute_pending_tokens(context_window_tokens: u32, cross_thread_tokens: u32) -> (r: u32)
    ensures
        r == if context_window_tokens + cross_thread_tokens > u32::MAX { u32::MAX } else { (context_window_tokens + cross_thread_tokens) as u32 },
{
    context_window_tokens.saturating_add(cross_thread_tokens)
}

pub fn should_trigger_observer(total_pending: u32, threshold: u32) -> (r: bool)
    ensures
        r == (total_pending >= threshold),
{
    total_pending >= threshold
}

/// State of the buffering interval: with a positive interval, the observer
/// triggers when the token count crosses into a later interval than the last
/// buffered count and at least `min_new_tokens` (default half an interval,
/// at least one) arrived since.
pub open spec fn interval_state(current: u32, buffer_tokens: Option<u32>, last: u32, min_new: Option<u32>) -> AsyncObservationIntervalState {
    match buffer_tokens {
        Some(interval) if interval > 0 => {
            let crossed = current / interval > last / interval;
            let new_tokens = if current >= last { (current - last) as u32 } else { 0u32 };
            let required = match min_new {
                Some(m) => m,
                None => if interval / 2 >= 1 { (interval / 2) as u32 } else { 1u32 },
            };
            AsyncObservationIntervalState {
                interval_tokens: Some(interval),
                crossed_interval_boundary: crossed,
                new_tokens_since_last_boundary: new_tokens,
                min_new_tokens_required: required,
                debounce_passed: new_tokens >= required,
                should_trigger: crossed && new_tokens >= required,
            }
        },
        _ => AsyncObservationIntervalState {
            interval_tokens: None,
            crossed_interval_boundary: false,
            new_tokens_since_last_boundary: 0,
            min_new_tokens_required: 0,
            debounce_passed: false,
            should_trigger: false,
        },
    }
}

pub fn evaluate_async_observation_interval(
    current_tokens: u32,
    buffer_tokens: Option<u32>,
    last_buffered_at_tokens: u32,
    min_new_tokens: Option<u32>,
) -> (r: AsyncObservationIntervalState)
    ensures
        r == interval_state(current_tokens, buffer_tokens, last_buffered_at_tokens, min_new_tokens),
{
    let interval_tokens = match buffer_tokens {
        Some(v) if v > 0 => v,
        _ => {
            return AsyncObservationIntervalState {
                interval_tokens: None,
                crossed_interval_boundary: false,
                new_tokens_since_last_boundary: 0,
                min_new_tokens_required: 0,
                debounce_passed: false,
                should_trigger: false,
            };
        },
    };
    let current_interval = current_tokens / interval_tokens;
    let last_interval = last_buffered_at_tokens / interval_tokens;
    let crossed_interval_boundary = current_interval > last_interval;
    let new_tokens_since_last_boundary = current_tokens.saturating_sub(last_buffered_at_tokens);
    let min_new_tokens_required = match min_new_tokens {
        Some(m) => m,
        None => if interval_tokens / 2 >= 1 { interval_tokens / 2 } else { 1 },
    };
    let debounce_passed = new_tokens_since_last_boundary >= min_new_tokens_required;
    AsyncObservationIntervalState {
        interval_tokens: Some(interval_tokens),
        crossed_interval_boundary,
        new_tokens_since_last_boundary,
        min_new_tokens_required,
        debounce_passed,
        should_trigger: crossed_interval_boundary && debounce_passed,
    }
}

/// The observer decision for a record. With buffering enabled the observer
/// runs on an interval crossing (debounced unless the threshold is reached)
/// or when both the threshold and the block-after limit are reached, and
/// activation follows only the latter; without buffering both follow the
/// threshold.
pub open spec fn observer_decision(record: OmRecord, config: ResolvedObservationConfig) -> ObserverWriteDecision {
    let threshold = dynamic_threshold(config.message_tokens_base, config.total_budget, record.observation_token_count);
    let pending = record.pending_message_tokens;
    let reached = pending >= threshold;
    let min_new = match config.buffer_tokens {
        Some(i) => Some(if i / 2 >= 1 { (i / 2) as u32 } else { 1u32 }),
        None => None,
    };
    let st = interval_state(pending, config.buffer_tokens, record.last_buffered_at_tokens, min_new);
    let interval_triggered = if reached { st.crossed_interval_boundary } else { st.should_trigger };
    let block = match config.block_after {
        Some(b) => pending >= b,
        None => false,
    };
    let is_async = config.buffer_tokens is Some;
    ObserverWriteDecision {
        threshold,
        threshold_reached: reached,
        interval_triggered,
        block_after_exceeded: block,
        should_run_observer: if is_async { interval_triggered || (reached && block) } else { reached },
        should_activate_after_observer: if is_async { reached && block } else { reached },
    }
}

pub fn decide_observer_write_action(record: &OmRecord, observation_config: ResolvedObservationConfig) -> (r: ObserverWriteDecision)
    ensures
        r == observer_decision(*record, observation_config),
{
    let threshold = observation_config.dynamic_threshold(record.observation_token_count);
    let threshold_reached = should_trigger_observer(record.pending_message_tokens, threshold);
    let async_min_new_tokens = match observation_config.buffer_tokens {
        Some(interval) => Some(if interval / 2 >= 1 { interval / 2 } else { 1 }),
        None => None,
    };
    let interval_state = evaluate_async_observation_interval(
        record.pending_message_tokens,
        observation_config.buffer_tokens,
        record.last_buffered_at_tokens,
        async_min_new_tokens,
    );
    let interval_triggered = if threshold_reached {
        interval_state.crossed_interval_boundary
    } else {
        interval_state.should_trigger
    };
    let block_after_exceeded = match observation_config.block_after {
        Some(value) => record.pending_message_tokens >= value,
        None => false,
    };
    let async_observation_enabled = observation_config.buffer_tokens.is_some();
    let should_run_observer = if async_observation_enabled {
        interval_triggered || (threshold_reached && block_after_exceeded)
    } else {
        threshold_reached
    };
    let should_activate_after_observer = if async_observation_enabled {
        threshold_reached && block_after_exceeded
    } else {
        threshold_reached
    };
    ObserverWriteDecision {
        threshold,
        threshold_reached,
        interval_triggered,
        block_after_exceeded,
        should_run_observer,
        should_activate_after_observer,
    }
}


/// Buffered observations are activated after the observer only when the
/// observer runs.
pub proof fn law_activation_follows_observer(record: OmRecord, config: ResolvedObservationConfig)
    ensures
        observer_decision(record, config).should_activate_after_observer ==> observer_decision(
            record,
            config,
        ).should_run_observer,
        observer_decision(record, config).should_activate_after_observer ==> observer_decision(
            record,
            config,
        ).threshold_reached,
{
}

} // verus!
