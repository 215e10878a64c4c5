//! What one input step and one output step of the memory pipeline do.

use vstd::prelude::*;
use crate::config::{ResolvedObservationConfig, ResolvedReflectionConfig};
use crate::model::OmRecord;
use crate::transform::observer::decision::{decide_observer_write_action, observer_decision};
use crate::transform::reflection::decision::{decide_reflection_enqueue, enqueue_decision_holds};
use crate::transform::types::ReflectionEnqueueDecision;

verus! {

#[derive(Debug, Clone, Copy, PartialEq, Eq, Structural)]
pub struct ProcessInputStepOptions {
    pub is_initial_step: bool,
    pub read_only: bool,
    pub has_buffered_observation_chunks: bool,
}

#[derive(Debug, Clone, PartialEq, Eq)]
pub struct ProcessInputStepPlan {
    pub should_activate_buffered_before_observer: bool,
    pub should_run_observer: bool,
    pub should_activate_buffered_after_observer: bool,
    pub reflection_decision: Option<ReflectionEnqueueDecision>,
}

#[derive(Debug, Clone, Copy, PartialEq, Eq, Structural)]
pub struct ProcessOutputResultPlan {
    pub should_save_unsaved_messages: bool,
}

/// A read-only step does nothing. Otherwise buffered observations are
/// activated before the observer on the initial step when chunks are
/// buffered, buffering is configured and the threshold is reached; the
/// observer runs and activation follows it as the observer decision says;
/// and the reflection decision is taken.
pub fn plan_process_input_step(record: &OmRecord, observation_config: ResolvedObservationConfig, reflection_config: ResolvedReflectionConfig, requested_at_rfc3339: &str, options: ProcessInputStepOptions) -> (r: ProcessInputStepPlan)
    ensures
        r.should_activate_buffered_before_observer == (!options.read_only && options.is_initial_step
            && options.has_buffered_observation_chunks && observation_config.buffer_tokens is Some
            && observer_decision(*record, observation_config).threshold_reached),
        r.should_run_observer == (!options.read_only && observer_decision(*record, observation_config).should_run_observer),
        r.should_activate_buffered_after_observer == (!options.read_only && observer_decision(
            *record,
            observation_config,
        ).should_activate_after_observer),
        match r.reflection_decision {
            Some(d) => !options.read_only && enqueue_decision_holds(*record, reflection_config, requested_at_rfc3339@, d),
            None => options.read_only,
        },
{
    let observer = decide_observer_write_action(record, observation_config);
    let should_activate_buffered_before_observer = !options.read_only && options.is_initial_step
        && options.has_buffered_observation_chunks && observation_config.buffer_tokens.is_some()
        && observer.threshold_reached;
    let should_run_observer = !options.read_only && observer.should_run_observer;
    let should_activate_buffered_after_observer = !options.read_only && observer.should_activate_after_observer;
    let reflection_decision = if options.read_only {
        None
    } else {
        Some(decide_reflection_enqueue(record, reflection_config, requested_at_rfc3339))
    };
    ProcessInputStepPlan {
        should_activate_buffered_before_observer,
        should_run_observer,
        should_activate_buffered_after_observer,
        reflection_decision,
    }
}

/// Unsaved messages are saved unless the step is read-only or there are
/// none.
pub fn plan_process_output_result(read_only: bool, unsaved_message_count: usize) -> (r: ProcessOutputResultPlan)
    ensures
        r.should_save_unsaved_messages == (!read_only && unsaved_message_count > 0),
{
    ProcessOutputResultPlan { should_save_unsaved_messages: !read_only && unsaved_message_count > 0 }
}

} // verus!
