//! Commands handed to the host, and the reflection command a decision asks for.

use vstd::prelude::*;
use crate::text::{chars_to_string, str_to_chars, trim, trim_exec};
use crate::time::{is_rfc3339, rfc3339_valid};
use crate::transform::types::ReflectionAction;
use crate::inference::{OmObserverRequest, OmObserverResponse, OmReflectorRequest, OmReflectorResponse};

verus! {

#[derive(Debug, Clone, Copy, PartialEq, Eq, Structural)]
pub enum OmReflectionCommandType {
    BufferRequested,
    ReflectRequested,
}

#[derive(Debug, Clone, PartialEq, Eq)]
pub struct OmReflectionCommand {
    pub command_type: OmReflectionCommandType,
    pub scope_key: String,
    pub expected_generation: u32,
    pub requested_at_rfc3339: String,
}

#[derive(Debug, Clone, PartialEq, Eq)]
pub enum OmCommand {
    EnqueueReflection(OmReflectionCommand),
}

/// A reflection command with its texts as character sequences.
pub struct ReflectionCommand {
    pub command_type: OmReflectionCommandType,
    pub scope_key: Seq<char>,
    pub expected_generation: u32,
    pub requested_at_rfc3339: Seq<char>,
}

impl View for OmCommand {
    type V = ReflectionCommand;

    open spec fn view(&self) -> ReflectionCommand {
        match self {
            OmCommand::EnqueueReflection(c) => ReflectionCommand {
                command_type: c.command_type,
                scope_key: c.scope_key@,
                expected_generation: c.expected_generation,
                requested_at_rfc3339: c.requested_at_rfc3339@,
            },
        }
    }
}

/// The command an action asks for: none for `None`, for a blank scope key,
/// or for a time that is not RFC 3339; otherwise an enqueue command with the
/// trimmed key and time.
pub open spec fn reflection_command(action: ReflectionAction, scope_key: Seq<char>, expected_generation: u32, requested_at: Seq<char>) -> Option<ReflectionCommand> {
    let key = trim(scope_key);
    let at = trim(requested_at);
    if key.len() == 0 || !is_rfc3339(at) || action == ReflectionAction::NoAction {
        None
    } else {
        Some(ReflectionCommand {
            command_type: if action == ReflectionAction::Buffer {
                OmReflectionCommandType::BufferRequested
            } else {
                OmReflectionCommandType::ReflectRequested
            },
            scope_key: key,
            expected_generation,
            requested_at_rfc3339: at,
        })
    }
}

/// View of an optional command.
pub open spec fn opt_command(c: Option<OmCommand>) -> Option<ReflectionCommand> {
    match c {
        Some(x) => Some(x@),
        None => None,
    }
}

pub fn reflection_command_from_action(
    action: ReflectionAction,
    scope_key: &str,
    expected_generation: u32,
    requested_at_rfc3339: &str,
) -> (r: Option<OmCommand>)
    ensures
        opt_command(r) == reflection_command(action, scope_key@, expected_generation, requested_at_rfc3339@),
{
    let key_raw = str_to_chars(scope_key);
    let key = trim_exec(key_raw.as_slice());
    if key.len() == 0 {
        return None;
    }
    let at_raw = str_to_chars(requested_at_rfc3339);
    let at = trim_exec(at_raw.as_slice());
    let at_s = chars_to_string(at.as_slice());
    if !rfc3339_valid(at_s.as_str()) {
        return None;
    }
    let command_type = match action {
        ReflectionAction::NoAction => return None,
        ReflectionAction::Buffer => OmReflectionCommandType::BufferRequested,
        ReflectionAction::Reflect => OmReflectionCommandType::ReflectRequested,
    };
    Some(OmCommand::EnqueueReflection(OmReflectionCommand {
        command_type,
        scope_key: chars_to_string(key.as_slice()),
        expected_generation,
        requested_at_rfc3339: at_s,
    }))
}

/// A host that carries out the commands the library asks for.
pub trait OmApplyAddon {
    type Error;

    fn apply(&mut self, command: OmCommand) -> Result<(), Self::Error>;
}

/// A host that runs the observer model on a request.
pub trait OmObserverAddon {
    type Error;

    fn observe(&mut self, request: &OmObserverRequest) -> Result<OmObserverResponse, Self::Error>;
}

/// A host that runs the reflector model on a request.
pub trait OmReflectorAddon {
    type Error;

    fn reflect(&mut self, request: &OmReflectorRequest) -> Result<OmReflectorResponse, Self::Error>;
}

} // verus!
