use episodic::{
    JsonValue, OmPromptContractParseError, OmPromptRequestKind, check_observer_prompt_contract,
    check_reflector_prompt_contract,
};

fn to_json(value: &serde_json::Value) -> JsonValue {
    match value {
        serde_json::Value::Null => JsonValue::Null,
        serde_json::Value::Bool(b) => JsonValue::Bool(*b),
        serde_json::Value::Number(n) => JsonValue::Number(n.to_string()),
        serde_json::Value::String(s) => JsonValue::String(s.clone()),
        serde_json::Value::Array(items) => JsonValue::Array(items.iter().map(to_json).collect()),
        serde_json::Value::Object(map) => {
            JsonValue::Object(map.iter().map(|(k, v)| (k.clone(), to_json(v))).collect())
        },
    }
}

fn parse(text: &str) -> JsonValue {
    to_json(&serde_json::from_str::<serde_json::Value>(text).expect("json"))
}

const OBSERVER_CONTRACT: &str = r#"{
  "header": {
    "contract_name": "axiomme.om.prompt",
    "contract_version": "2.0.0",
    "protocol_version": "om-v2",
    "request_kind": "observer_single",
    "scope": "session",
    "scope_key": "session:s-1"
  },
  "known_message_ids": ["m1"],
  "has_other_conversation_context": false,
  "skip_continuation_hints": false,
  "limits": { "max_output_tokens": 1200, "observation_max_chars": 4096 },
  "output_contract": {
    "format": "xml",
    "required_sections": ["observations"],
    "continuation_enabled": true
  }
}"#;

#[test]
fn observer_contract_passes_all_checks() {
    let value = parse(OBSERVER_CONTRACT);
    assert_eq!(
        check_observer_prompt_contract(&value, Some(OmPromptRequestKind::ObserverSingle)),
        Ok(())
    );
    assert_eq!(check_observer_prompt_contract(&value, None), Ok(()));
}

#[test]
fn observer_contract_reports_version_mismatch() {
    let value = parse(&OBSERVER_CONTRACT.replace("\"2.0.0\"", "\"9.9.9\""));
    assert_eq!(
        check_observer_prompt_contract(&value, Some(OmPromptRequestKind::ObserverSingle)),
        Err(OmPromptContractParseError::ContractVersionMismatch {
            expected: "2.0.0".to_string(),
            actual: "9.9.9".to_string(),
        })
    );
}

#[test]
fn observer_contract_reports_missing_and_null_fields() {
    let value = parse(&OBSERVER_CONTRACT.replace("\"scope_key\": \"session:s-1\"", "\"other\": 1"));
    assert_eq!(
        check_observer_prompt_contract(&value, Some(OmPromptRequestKind::ObserverSingle)),
        Err(OmPromptContractParseError::MissingRequiredField { field: "header.scope_key".to_string() })
    );
    let nulled = parse(&OBSERVER_CONTRACT.replace("\"known_message_ids\": [\"m1\"]", "\"known_message_ids\": null"));
    assert_eq!(
        check_observer_prompt_contract(&nulled, None),
        Err(OmPromptContractParseError::MissingRequiredField { field: "known_message_ids".to_string() })
    );
}

#[test]
fn observer_contract_reports_request_kind_mismatch_and_field_type() {
    let multi = parse(&OBSERVER_CONTRACT.replace("observer_single", "observer_multi"));
    assert_eq!(
        check_observer_prompt_contract(&multi, Some(OmPromptRequestKind::ObserverSingle)),
        Err(OmPromptContractParseError::RequestKindMismatch {
            expected: "observer_single".to_string(),
            actual: "observer_multi".to_string(),
        })
    );
    let numeric_name = parse(&OBSERVER_CONTRACT.replace("\"axiomme.om.prompt\"", "7"));
    assert_eq!(
        check_observer_prompt_contract(&numeric_name, None),
        Err(OmPromptContractParseError::InvalidFieldType { field: "header.contract_name".to_string() })
    );
    let renamed = parse(&OBSERVER_CONTRACT.replace("axiomme.om.prompt", "other.prompt"));
    assert_eq!(
        check_observer_prompt_contract(&renamed, None),
        Err(OmPromptContractParseError::ContractNameMismatch {
            expected: "axiomme.om.prompt".to_string(),
            actual: "other.prompt".to_string(),
        })
    );
    let protocol = parse(&OBSERVER_CONTRACT.replace("om-v2", "om-v1"));
    assert_eq!(
        check_observer_prompt_contract(&protocol, None),
        Err(OmPromptContractParseError::ProtocolVersionMismatch {
            expected: "om-v2".to_string(),
            actual: "om-v1".to_string(),
        })
    );
}

#[test]
fn reflector_contract_requires_reflector_kind_and_generation_count() {
    let observer = parse(OBSERVER_CONTRACT);
    assert_eq!(
        check_reflector_prompt_contract(&observer),
        Err(OmPromptContractParseError::RequestKindMismatch {
            expected: "reflector".to_string(),
            actual: "observer_single".to_string(),
        })
    );
    let reflector = parse(
        r#"{
  "header": {
    "contract_name": "axiomme.om.prompt",
    "contract_version": "2.0.0",
    "protocol_version": "om-v2",
    "request_kind": "reflector",
    "scope": "resource",
    "scope_key": "resource:docs/a.md"
  },
  "compression_level": 2,
  "skip_continuation_hints": false,
  "limits": { "max_output_tokens": 1600 },
  "output_contract": { "format": "xml", "required_sections": [], "continuation_enabled": true }
}"#,
    );
    assert_eq!(
        check_reflector_prompt_contract(&reflector),
        Err(OmPromptContractParseError::MissingRequiredField { field: "generation_count".to_string() })
    );
}

#[test]
fn parse_error_messages_name_the_problem() {
    assert_eq!(
        OmPromptContractParseError::MissingRequiredField { field: "header.scope".to_string() }.message(),
        "missing required field: header.scope"
    );
    assert_eq!(
        OmPromptContractParseError::ContractVersionMismatch {
            expected: "2.0.0".to_string(),
            actual: "1.0.0".to_string(),
        }
        .message(),
        "contract version mismatch: expected `2.0.0`, got `1.0.0`"
    );
}
