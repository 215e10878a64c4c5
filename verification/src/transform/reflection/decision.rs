//! When the reflector runs or buffers, and the command it asks for.

use vstd::prelude::*;
use crate::addon::{opt_command, reflection_command, reflection_command_from_action};
use crate::config::{ReflectionActivation, ResolvedReflectionConfig};
use crate::model::{OmRecord, blank, string_blank};
use crate::transform::types::{ReflectionAction, ReflectionEnqueueDecision};

verus! {

pub fn should_trigger_reflector(observation_tokens: u32, threshold: u32) -> (r: bool)
    ensures
        r == (observation_tokens > threshold),
{
    observation_tokens > threshold
}

/// The reflection action. Nothing while reflecting. Without buffering,
/// reflect once the threshold is exceeded. With buffering (an activation
/// ratio in `(0, 1]`; any other ratio gives nothing): past the threshold,
/// reflect when a buffered reflection exists or the block-after limit is
/// reached, else buffer unless already buffering; below it, buffer from the
/// activation point on unless a buffered reflection exists or buffering runs.
pub open spec fn reflection_action(
    observation_tokens: u32,
    threshold: u32,
    activation: Option<ReflectionActivation>,
    block_after: Option<u32>,
    has_buffered: bool,
    is_buffering: bool,
    is_reflecting: bool,
) -> ReflectionAction {
    let reached = observation_tokens > threshold;
    if is_reflecting {
        ReflectionAction::NoAction
    } else {
        match activation {
            None => if reached { ReflectionAction::Reflect } else { ReflectionAction::NoAction },
            Some(a) => if !a.in_range {
                ReflectionAction::NoAction
            } else if reached {
                if has_buffered || (block_after matches Some(l) && observation_tokens >= l) {
                    ReflectionAction::Reflect
                } else if is_buffering {
                    ReflectionAction::NoAction
                } else {
                    ReflectionAction::Buffer
                }
            } else if has_buffered || is_buffering {
                ReflectionAction::NoAction
            } else if observation_tokens >= a.activation_point_tokens {
                ReflectionAction::Buffer
            } else {
                ReflectionAction::NoAction
            },
        }
    }
}

pub fn select_reflection_action(
    observation_tokens: u32,
    reflection_threshold: u32,
    buffer_activation: Option<ReflectionActivation>,
    block_after: Option<u32>,
    has_buffered_reflection: bool,
    is_buffering_reflection: bool,
    is_reflecting: bool,
) -> (r: ReflectionAction)
    ensures
        r == reflection_action(observation_tokens, reflection_threshold, buffer_activation, block_after,
            has_buffered_reflection, is_buffering_reflection, is_reflecting),
{
    if is_reflecting {
        return ReflectionAction::NoAction;
    }
    let reached = should_trigger_reflector(observation_tokens, reflection_threshold);
    match buffer_activation {
        None => if reached { ReflectionAction::Reflect } else { ReflectionAction::NoAction },
        Some(activation) => {
            if !activation.in_range {
                return ReflectionAction::NoAction;
            }
            if reached {
                if has_buffered_reflection {
                    return ReflectionAction::Reflect;
                }
                let blocked = match block_after {
                    Some(limit) => observation_tokens >= limit,
                    None => false,
                };
                if blocked {
                    return ReflectionAction::Reflect;
                }
                if is_buffering_reflection {
                    return ReflectionAction::NoAction;
                }
                return ReflectionAction::Buffer;
            }
            if has_buffered_reflection || is_buffering_reflection {
                return ReflectionAction::NoAction;
            }
            if observation_tokens as u64 >= activation.activation_point_tokens {
                ReflectionAction::Buffer
            } else {
                ReflectionAction::NoAction
            }
        },
    }
}

/// Whether the record holds a non-blank buffered reflection.
pub open spec fn has_buffered_text(record: OmRecord) -> bool {
    record.buffered_reflection matches Some(b) && !blank(b@)
}

/// Action for the record, the command it asks for, and the record's next
/// reflecting and buffering flags.
pub open spec fn enqueue_decision_holds(record: OmRecord, config: ResolvedReflectionConfig, requested_at: Seq<char>, d: ReflectionEnqueueDecision) -> bool {
    let action = reflection_action(record.observation_token_count, config.observation_tokens, config.buffer_activation,
        config.block_after, has_buffered_text(record), record.is_buffering_reflection, record.is_reflecting);
    &&& d.action == action
    &&& opt_command(d.command) == reflection_command(action, record.scope_key@, record.generation_count, requested_at)
    &&& d.should_increment_trigger_count == (action != ReflectionAction::NoAction)
    &&& d.next_is_reflecting == match action {
        ReflectionAction::Reflect => true,
        _ => record.is_reflecting,
    }
    &&& d.next_is_buffering_reflection == match action {
        ReflectionAction::NoAction => record.is_buffering_reflection,
        ReflectionAction::Buffer => true,
        ReflectionAction::Reflect => false,
    }
}

pub fn decide_reflection_enqueue(record: &OmRecord, reflection_config: ResolvedReflectionConfig, requested_at_rfc3339: &str) -> (r: ReflectionEnqueueDecision)
    ensures
        enqueue_decision_holds(*record, reflection_config, requested_at_rfc3339@, r),
{
    let has_buffered_reflection = match &record.buffered_reflection {
        Some(value) => !string_blank(value),
        None => false,
    };
    let action = select_reflection_action(
        record.observation_token_count,
        reflection_config.observation_tokens,
        reflection_config.buffer_activation,
        reflection_config.block_after,
        has_buffered_reflection,
        record.is_buffering_reflection,
        record.is_reflecting,
    );
    let command = reflection_command_from_action(action, record.scope_key.as_str(), record.generation_count, requested_at_rfc3339);
    let (next_is_reflecting, next_is_buffering_reflection) = match action {
        ReflectionAction::NoAction => (record.is_reflecting, record.is_buffering_reflection),
        ReflectionAction::Buffer => (record.is_reflecting, true),
        ReflectionAction::Reflect => (true, false),
    };
    ReflectionEnqueueDecision {
        action,
        command,
        should_increment_trigger_count: !matches!(action, ReflectionAction::NoAction),
        next_is_reflecting,
        next_is_buffering_reflection,
    }
}


/// The reflector reflects only past its threshold, never starts buffering
/// while a buffer is being built or while a buffered reflection already
/// waits, and does nothing while reflecting. Buffering needs an activation
/// ratio in `(0, 1]` and at least the activation point's tokens; past the
/// threshold a waiting buffered reflection is always applied; without an
/// activation ratio the reflector reflects exactly past its threshold.
pub proof fn law_reflection_action(
    observation_tokens: u32,
    threshold: u32,
    activation: Option<ReflectionActivation>,
    block_after: Option<u32>,
    has_buffered: bool,
    is_buffering: bool,
    is_reflecting: bool,
)
    ensures
        reflection_action(observation_tokens, threshold, activation, block_after, has_buffered, is_buffering, is_reflecting)
            == ReflectionAction::Reflect ==> observation_tokens > threshold,
        is_buffering ==> reflection_action(observation_tokens, threshold, activation, block_after, has_buffered,
            is_buffering, is_reflecting) != ReflectionAction::Buffer,
        is_reflecting ==> reflection_action(observation_tokens, threshold, activation, block_after, has_buffered,
            is_buffering, is_reflecting) == ReflectionAction::NoAction,
        has_buffered ==> reflection_action(observation_tokens, threshold, activation, block_after, has_buffered,
            is_buffering, is_reflecting) != ReflectionAction::Buffer,
        reflection_action(observation_tokens, threshold, activation, block_after, has_buffered, is_buffering, is_reflecting)
            == ReflectionAction::Buffer ==> (activation matches Some(a) && a.in_range
            && (observation_tokens > threshold || observation_tokens >= a.activation_point_tokens) && !is_reflecting && !is_buffering),
        !is_reflecting && has_buffered && observation_tokens > threshold && (activation matches Some(a) && a.in_range)
            ==> reflection_action(observation_tokens, threshold, activation, block_after, has_buffered, is_buffering,
            is_reflecting) == ReflectionAction::Reflect,
        !is_reflecting && activation is None ==> reflection_action(observation_tokens, threshold, activation, block_after,
            has_buffered, is_buffering, is_reflecting) == (if observation_tokens > threshold {
            ReflectionAction::Reflect
        } else {
            ReflectionAction::NoAction
        }),
        !is_reflecting && !has_buffered && !is_buffering && observation_tokens <= threshold
            && (activation matches Some(a) && a.in_range && observation_tokens >= a.activation_point_tokens)
            ==> reflection_action(observation_tokens, threshold, activation, block_after, has_buffered, is_buffering,
            is_reflecting) == ReflectionAction::Buffer,
{
}


/// An enqueue decision for a record: a record whose buffered reflection
/// holds text never gets a second buffer below the threshold; doing nothing
/// asks for no command, counts no trigger and leaves both flags; buffering
/// sets the buffering flag; reflecting sets the reflecting flag and clears
/// buffering; and a command, when asked for, has the action's type and the
/// record's trimmed scope key and generation.
pub proof fn law_reflection_enqueue(record: OmRecord, config: ResolvedReflectionConfig, requested_at: Seq<char>, d: ReflectionEnqueueDecision)
    requires
        enqueue_decision_holds(record, config, requested_at, d),
    ensures
        has_buffered_text(record) && record.observation_token_count <= config.observation_tokens
            ==> d.action != ReflectionAction::Buffer,
        d.action == ReflectionAction::NoAction ==> d.command is None && !d.should_increment_trigger_count
            && d.next_is_reflecting == record.is_reflecting
            && d.next_is_buffering_reflection == record.is_buffering_reflection,
        d.action == ReflectionAction::Buffer ==> d.should_increment_trigger_count && d.next_is_buffering_reflection
            && d.next_is_reflecting == record.is_reflecting,
        d.action == ReflectionAction::Reflect ==> d.should_increment_trigger_count && d.next_is_reflecting
            && !d.next_is_buffering_reflection,
        opt_command(d.command) matches Some(c) ==> {
            &&& c.command_type == (if d.action == ReflectionAction::Buffer {
                crate::addon::OmReflectionCommandType::BufferRequested
            } else {
                crate::addon::OmReflectionCommandType::ReflectRequested
            })
            &&& d.action != ReflectionAction::NoAction
            &&& c.scope_key == crate::text::trim(record.scope_key@)
            &&& c.expected_generation == record.generation_count
        },
        record.is_reflecting ==> d.action == ReflectionAction::NoAction,
{
    law_reflection_action(record.observation_token_count, config.observation_tokens, config.buffer_activation,
        config.block_after, has_buffered_text(record), record.is_buffering_reflection, record.is_reflecting);
    if d.command is Some {
        assert(opt_command(d.command) is Some);
    }
}

} // verus!
