//! Observational memory core: models, deterministic transforms, XML-ish parsing
//! and prompt construction, each with a machine-checked contract.

pub mod text;
pub mod sorting;
pub mod xml;
pub mod time;
pub mod model;
pub mod inference;
pub mod context;
pub mod parse;
pub mod config;
pub mod addon;
pub mod transform;
pub mod pipeline;
pub mod prompt;

pub use addon::{
    OmApplyAddon, OmCommand, OmObserverAddon, OmReflectionCommand, OmReflectionCommandType,
    OmReflectorAddon, reflection_command_from_action,
};
pub use config::{
    DEFAULT_OBSERVER_MAX_TOKENS_PER_BATCH, DEFAULT_OBSERVER_MESSAGE_TOKENS,
    DEFAULT_REFLECTOR_OBSERVATION_TOKENS, OmConfigError, ReflectionActivation,
    ResolvedObservationConfig, ResolvedReflectionConfig,
};
pub use context::build_bounded_observation_hint;
pub use inference::{
    OmInferenceModelConfig, OmInferenceUsage, OmObserverRequest, OmObserverResponse,
    OmPendingMessage, OmReflectorRequest, OmReflectorResponse,
};
pub use model::{
    ContinuationPolicyV2, OM_SEARCH_VISIBLE_SNAPSHOT_V2_VERSION, OmContinuationCandidateV2,
    OmContinuationSourceKind, OmContinuationStateV2, OmDeterministicEvidence,
    OmDeterministicEvidenceKind, OmDeterministicObserverResponseV2, OmHintPolicyV2,
    OmObservationChunk, OmObservationEntryInvariantViolation, OmObservationEntryV2,
    OmObservationOriginKind, OmObservationPriority, OmOriginType, OmRecord,
    OmRecordInvariantViolation, OmReflectionResponseV2, OmScope,
    OmSearchVisibleSnapshotInvariantViolation, OmSearchVisibleSnapshotV2, OmThreadRefV2,
    validate_observation_entry_v2_invariants, validate_om_record_invariants,
    validate_search_visible_snapshot_v2_invariants,
};
pub use parse::{
    OmMemorySection, OmMultiThreadObserverAggregate, OmMultiThreadObserverSection, OmParseMode,
    aggregate_multi_thread_observer_sections, extract_list_items_only, parse_memory_section_xml,
    parse_memory_section_xml_accuracy_first, parse_multi_thread_observer_output,
    parse_multi_thread_observer_output_accuracy_first,
};
pub use pipeline::{
    ProcessInputStepOptions, ProcessInputStepPlan, ProcessOutputResultPlan,
    plan_process_input_step, plan_process_output_result,
};
pub use prompt::contract::{
    OM_PROMPT_CONTRACT_NAME, OM_PROMPT_CONTRACT_VERSION, OM_PROTOCOL_VERSION,
    OmObserverPromptContractV2, OmPromptContractHeader, OmPromptLimitsV2,
    OmPromptOutputContractV2, OmPromptRequestKind, OmReflectorPromptContractV2,
    build_multi_thread_observer_prompt_contract_v2, build_observer_prompt_contract_v2,
    build_reflector_prompt_contract_v2,
};
pub use prompt::formatter::{
    format_multi_thread_observer_messages_for_prompt, format_observer_messages_for_prompt,
};
pub use prompt::parser::{
    JsonValue, OmPromptContractParseError, check_observer_prompt_contract,
    check_observer_prompt_contract_text, check_reflector_prompt_contract,
    check_reflector_prompt_contract_text,
};
pub use prompt::system::{
    build_multi_thread_observer_system_prompt, build_observer_system_prompt,
    build_reflector_system_prompt,
};
pub use prompt::user::{
    build_multi_thread_observer_user_prompt, build_observer_user_prompt,
    build_reflector_user_prompt,
};
pub use prompt::{OmObserverPromptInput, OmObserverThreadMessages, OmReflectorPromptInput};
pub use transform::activation::{
    activate_buffered_observations_for_target, calculate_dynamic_threshold,
    merge_activated_observations, normalize_observation_buffer_boundary,
    select_activation_boundary_for_target,
};
pub use transform::observer::candidates::{
    filter_observer_candidates_by_last_observed_at, select_observed_message_candidates,
    select_observer_message_candidates, split_pending_and_other_conversation_candidates,
};
pub use transform::observer::context::{
    build_other_conversation_blocks, combine_observations_for_buffering,
};
pub use transform::observer::continuation::resolve_continuation_update;
pub use transform::observer::decision::{
    compute_pending_tokens, decide_observer_write_action, evaluate_async_observation_interval,
    should_skip_observer_continuation_hints, should_trigger_observer,
};
pub use transform::observer::synthesis::{
    infer_deterministic_continuation, infer_deterministic_observer_response,
    synthesize_observer_observations,
};
pub use transform::reflection::apply::apply_reflection_response_v2;
pub use transform::reflection::decision::{
    decide_reflection_enqueue, select_reflection_action, should_trigger_reflector,
};
pub use transform::reflection::draft::{build_reflection_draft, merge_buffered_reflection};
pub use transform::reflection::slice::{observation_line_count, slice_leading_lines};
pub use transform::reflection::guidance::{
    reflector_compression_guidance, validate_reflection_compression,
};
pub use transform::scope::{build_scope_key, resolve_canonical_thread_ref};
pub use transform::snapshot::{materialize_search_visible_snapshot, render_search_hint};
pub use transform::types::{
    ActivationBoundary, ActivationResult, AsyncObservationIntervalState,
    BUFFERED_OBSERVATIONS_SEPARATOR, BufferedReflectionSlicePlan, ObserverWriteDecision,
    OmObserverMessageCandidate, OmTransformError, ReflectionAction, ReflectionDraft,
    ReflectionEnqueueDecision,
};
pub use xml::{escape_xml_attribute, escape_xml_text, unescape_xml_attribute};
