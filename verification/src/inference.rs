//! Requests to and responses from the observer and reflector models.

use vstd::prelude::*;
use crate::model::OmScope;

verus! {

#[derive(Debug, Clone, PartialEq, Eq)]
pub struct OmInferenceModelConfig {
    pub provider: String,
    pub model: String,
    pub max_output_tokens: u32,
    pub temperature_milli: u16,
}

#[derive(Debug, Clone, Copy, PartialEq, Eq, Structural, Default)]
pub struct OmInferenceUsage {
    pub input_tokens: u32,
    pub output_tokens: u32,
}

/// A conversation message not yet observed.
#[derive(Debug, Clone, PartialEq, Eq)]
pub struct OmPendingMessage {
    pub id: String,
    pub role: String,
    pub text: String,
    pub created_at_rfc3339: Option<String>,
}

#[derive(Debug, Clone, PartialEq, Eq)]
pub struct OmObserverRequest {
    pub scope: OmScope,
    pub scope_key: String,
    pub model: OmInferenceModelConfig,
    pub active_observations: String,
    pub other_conversations: Option<String>,
    pub pending_messages: Vec<OmPendingMessage>,
}

#[derive(Debug, Clone, PartialEq, Eq)]
pub struct OmObserverResponse {
    pub observations: String,
    pub observation_token_count: u32,
    pub observed_message_ids: Vec<String>,
    pub current_task: Option<String>,
    pub suggested_response: Option<String>,
    pub usage: OmInferenceUsage,
}

#[derive(Debug, Clone, PartialEq, Eq)]
pub struct OmReflectorRequest {
    pub scope: OmScope,
    pub scope_key: String,
    pub model: OmInferenceModelConfig,
    pub generation_count: u32,
    pub active_observations: String,
}

#[derive(Debug, Clone, PartialEq, Eq)]
pub struct OmReflectorResponse {
    pub reflection: String,
    pub reflection_token_count: u32,
    pub reflected_observation_line_count: u32,
    pub current_task: Option<String>,
    pub suggested_response: Option<String>,
    pub usage: OmInferenceUsage,
}

} // verus!
