use episodic::{
    OM_PROMPT_CONTRACT_VERSION, OmInferenceModelConfig, OmObserverPromptContractV2,
    OmObserverRequest, OmPendingMessage, OmPromptContractHeader, OmPromptContractParseError,
    OmPromptLimitsV2, OmPromptOutputContractV2, OmPromptRequestKind, OmReflectorPromptContractV2,
    OmReflectorRequest, OmScope, build_multi_thread_observer_prompt_contract_v2,
    build_observer_prompt_contract_v2, build_reflector_prompt_contract_v2,
    check_observer_prompt_contract_text, check_reflector_prompt_contract_text,
};
use serde_json::Value;

fn sample_observer_request() -> OmObserverRequest {
    OmObserverRequest {
        scope: OmScope::Session,
        scope_key: "session:s-1".to_string(),
        model: OmInferenceModelConfig {
            provider: "local-http".to_string(),
            model: "qwen2.5:7b".to_string(),
            max_output_tokens: 1200,
            temperature_milli: 200,
        },
        active_observations: "obs".to_string(),
        other_conversations: Some("other".to_string()),
        pending_messages: vec![OmPendingMessage {
            id: "m1".to_string(),
            role: "user".to_string(),
            text: "hello".to_string(),
            created_at_rfc3339: None,
        }],
    }
}

fn strings(items: &[String]) -> Value {
    Value::Array(items.iter().cloned().map(Value::String).collect())
}

fn object(members: Vec<(&str, Value)>) -> Value {
    let mut map = serde_json::Map::new();
    for (key, value) in members {
        map.insert(key.to_string(), value);
    }
    Value::Object(map)
}

/// The JSON encoding of a header, field by field as serde writes it.
fn encode_header(header: &OmPromptContractHeader) -> Value {
    object(vec![
        ("contract_name", Value::String(header.contract_name.clone())),
        ("contract_version", Value::String(header.contract_version.clone())),
        ("protocol_version", Value::String(header.protocol_version.clone())),
        ("request_kind", Value::String(header.request_kind.as_str().to_string())),
        ("scope", Value::String(header.scope.clone())),
        ("scope_key", Value::String(header.scope_key.clone())),
    ])
}

fn encode_limits(limits: &OmPromptLimitsV2) -> Value {
    object(vec![
        ("max_output_tokens", Value::from(limits.max_output_tokens)),
        ("observation_max_chars", limits.observation_max_chars.map(Value::from).unwrap_or(Value::Null)),
        ("reflection_max_chars", limits.reflection_max_chars.map(Value::from).unwrap_or(Value::Null)),
    ])
}

fn encode_output(output: &OmPromptOutputContractV2) -> Value {
    object(vec![
        ("format", Value::String(output.format.clone())),
        ("required_sections", strings(&output.required_sections)),
        ("continuation_enabled", Value::Bool(output.continuation_enabled)),
    ])
}

fn encode_observer(contract: &OmObserverPromptContractV2) -> Value {
    let mut members = vec![
        ("header", encode_header(&contract.header)),
        ("known_message_ids", strings(&contract.known_message_ids)),
    ];
    if let Some(id) = &contract.preferred_thread_id {
        members.push(("preferred_thread_id", Value::String(id.clone())));
    }
    members.push(("has_other_conversation_context", Value::Bool(contract.has_other_conversation_context)));
    members.push(("skip_continuation_hints", Value::Bool(contract.skip_continuation_hints)));
    members.push(("limits", encode_limits(&contract.limits)));
    members.push(("output_contract", encode_output(&contract.output_contract)));
    object(members)
}

fn encode_reflector(contract: &OmReflectorPromptContractV2) -> Value {
    object(vec![
        ("header", encode_header(&contract.header)),
        ("generation_count", Value::from(contract.generation_count)),
        ("compression_level", Value::from(contract.compression_level)),
        ("skip_continuation_hints", Value::Bool(contract.skip_continuation_hints)),
        ("limits", encode_limits(&contract.limits)),
        ("output_contract", encode_output(&contract.output_contract)),
    ])
}

#[test]
fn parse_observer_prompt_contract_v2_reports_contract_version_mismatch() {
    let contract = build_observer_prompt_contract_v2(
        &sample_observer_request(),
        &["m1".to_string()],
        false,
        None,
        4096,
    );
    let mut encoded = encode_observer(&contract);
    encoded["header"]["contract_version"] = Value::String("9.9.9".to_string());
    let payload = serde_json::to_string(&encoded).expect("payload");

    let error =
        check_observer_prompt_contract_text(&payload, Some(OmPromptRequestKind::ObserverSingle))
            .expect_err("must fail");
    assert_eq!(
        error,
        OmPromptContractParseError::ContractVersionMismatch {
            expected: OM_PROMPT_CONTRACT_VERSION.to_string(),
            actual: "9.9.9".to_string(),
        }
    );
}

#[test]
fn parse_observer_prompt_contract_v2_reports_missing_required_field() {
    let contract = build_observer_prompt_contract_v2(
        &sample_observer_request(),
        &["m1".to_string()],
        false,
        None,
        4096,
    );
    let mut encoded = encode_observer(&contract);
    encoded["header"]
        .as_object_mut()
        .expect("header object")
        .remove("scope_key");
    let payload = serde_json::to_string(&encoded).expect("payload");

    let error =
        check_observer_prompt_contract_text(&payload, Some(OmPromptRequestKind::ObserverSingle))
            .expect_err("must fail");
    assert_eq!(
        error,
        OmPromptContractParseError::MissingRequiredField {
            field: "header.scope_key".to_string(),
        }
    );
}

#[test]
fn parse_observer_prompt_contract_v2_reports_request_kind_mismatch() {
    let contract = build_multi_thread_observer_prompt_contract_v2(
        &sample_observer_request(),
        &["m1".to_string()],
        false,
        None,
        4096,
    );
    let payload = serde_json::to_string(&encode_observer(&contract)).expect("payload");

    let error =
        check_observer_prompt_contract_text(&payload, Some(OmPromptRequestKind::ObserverSingle))
            .expect_err("must fail");
    assert_eq!(
        error,
        OmPromptContractParseError::RequestKindMismatch {
            expected: "observer_single".to_string(),
            actual: "observer_multi".to_string(),
        }
    );
}

#[test]
fn parse_reflector_prompt_contract_v2_reports_missing_required_field() {
    let request = OmReflectorRequest {
        scope: OmScope::Resource,
        scope_key: "resource:docs/a.md".to_string(),
        model: OmInferenceModelConfig {
            provider: "local-http".to_string(),
            model: "qwen2.5:7b".to_string(),
            max_output_tokens: 1600,
            temperature_milli: 100,
        },
        generation_count: 7,
        active_observations: "a\nb".to_string(),
    };
    let contract = build_reflector_prompt_contract_v2(&request, 2, false, 8192);
    let mut encoded = encode_reflector(&contract);
    encoded
        .as_object_mut()
        .expect("contract object")
        .remove("generation_count");
    let payload = serde_json::to_string(&encoded).expect("payload");

    let error = check_reflector_prompt_contract_text(&payload).expect_err("must fail");
    assert_eq!(
        error,
        OmPromptContractParseError::MissingRequiredField {
            field: "generation_count".to_string(),
        }
    );
}

#[test]
fn contract_text_that_is_not_json_is_invalid_json() {
    let error = check_observer_prompt_contract_text("{not json", None).expect_err("must fail");
    assert!(matches!(error, OmPromptContractParseError::InvalidJson { .. }));
    let error = check_reflector_prompt_contract_text("").expect_err("must fail");
    assert!(matches!(error, OmPromptContractParseError::InvalidJson { .. }));
}

#[test]
fn valid_contract_texts_are_returned_as_documents() {
    let contract = build_observer_prompt_contract_v2(
        &sample_observer_request(),
        &["m2".to_string(), "m1".to_string()],
        false,
        None,
        4096,
    );
    let payload = serde_json::to_string(&encode_observer(&contract)).expect("payload");
    assert!(
        check_observer_prompt_contract_text(&payload, Some(OmPromptRequestKind::ObserverSingle))
            .is_ok()
    );
    let request = OmReflectorRequest {
        scope: OmScope::Thread,
        scope_key: "thread:t".to_string(),
        model: sample_observer_request().model,
        generation_count: 1,
        active_observations: "a".to_string(),
    };
    let reflector = build_reflector_prompt_contract_v2(&request, 0, true, 100);
    let payload = serde_json::to_string(&encode_reflector(&reflector)).expect("payload");
    assert!(check_reflector_prompt_contract_text(&payload).is_ok());
}
