//! Prompts for the observer and reflector models, and their contract.

use vstd::prelude::*;

pub mod contract;
pub mod formatter;
pub mod system;
pub mod user;
pub mod parser;

verus! {

#[derive(Debug, Clone, Copy, PartialEq, Eq)]
pub struct OmObserverPromptInput<'a> {
    pub request_json: Option<&'a str>,
    pub existing_observations: Option<&'a str>,
    pub message_history: &'a str,
    pub other_conversation_context: Option<&'a str>,
    pub skip_continuation_hints: bool,
}

#[derive(Debug, Clone, Copy, PartialEq, Eq)]
pub struct OmReflectorPromptInput<'a> {
    pub observations: &'a str,
    pub request_json: Option<&'a str>,
    pub manual_prompt: Option<&'a str>,
    pub compression_level: u8,
    pub skip_continuation_hints: bool,
}

#[derive(Debug, Clone, PartialEq, Eq)]
pub struct OmObserverThreadMessages {
    pub thread_id: String,
    pub message_history: String,
}

} // verus!
