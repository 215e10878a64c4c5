use chrono::{TimeZone, Utc};
use episodic::{
    ContinuationPolicyV2, OM_SEARCH_VISIBLE_SNAPSHOT_V2_VERSION, OmHintPolicyV2,
    OmObservationEntryInvariantViolation, OmObservationEntryV2, OmObservationOriginKind,
    OmObservationPriority, OmOriginType, OmRecord, OmRecordInvariantViolation, OmScope,
    OmSearchVisibleSnapshotInvariantViolation, OmSearchVisibleSnapshotV2,
    validate_observation_entry_v2_invariants, validate_om_record_invariants,
    validate_search_visible_snapshot_v2_invariants,
};

fn sample_record() -> OmRecord {
    let now = Utc.with_ymd_and_hms(2026, 2, 14, 0, 0, 0).unwrap();
    OmRecord {
        id: "record-1".to_string(),
        scope: OmScope::Thread,
        scope_key: "thread:t-1".to_string(),
        session_id: Some("s-1".to_string()),
        thread_id: Some("t-1".to_string()),
        resource_id: None,
        generation_count: 3,
        last_applied_outbox_event_id: Some(42),
        origin_type: OmOriginType::Reflection,
        active_observations: "obs".to_string(),
        observation_token_count: 120,
        pending_message_tokens: 30,
        last_observed_at: Some(now.timestamp_nanos_opt().map(i128::from).unwrap()),
        current_task: Some("do work".to_string()),
        suggested_response: Some("reply".to_string()),
        last_activated_message_ids: vec!["m-1".to_string()],
        observer_trigger_count_total: 7,
        reflector_trigger_count_total: 2,
        is_observing: false,
        is_reflecting: true,
        is_buffering_observation: false,
        is_buffering_reflection: true,
        last_buffered_at_tokens: 10,
        last_buffered_at_time: Some(now.timestamp_nanos_opt().map(i128::from).unwrap()),
        buffered_reflection: Some("buffer".to_string()),
        buffered_reflection_tokens: Some(11),
        buffered_reflection_input_tokens: Some(12),
        reflected_observation_line_count: None,
        created_at: now.timestamp_nanos_opt().map(i128::from).unwrap(),
        updated_at: now.timestamp_nanos_opt().map(i128::from).unwrap(),
    }
}

#[test]
fn om_record_invariants_accept_valid_sample_record() {
    let violations = validate_om_record_invariants(&sample_record());
    assert!(violations.is_empty());
}

#[test]
fn om_record_invariants_report_scope_identifier_and_scope_key_contract_mismatch() {
    let mut record = sample_record();
    record.scope = OmScope::Session;
    record.session_id = None;
    record.scope_key = "thread:t-1".to_string();

    let violations = validate_om_record_invariants(&record);
    assert!(
        violations.contains(&OmRecordInvariantViolation::MissingScopeIdentifier {
            field: "session_id",
        })
    );
    assert!(
        violations.contains(&OmRecordInvariantViolation::ScopeKeyPrefixMismatch {
            expected_prefix: "session:",
        })
    );
}

#[test]
fn om_record_invariants_report_scope_key_identifier_mismatch() {
    let mut record = sample_record();
    record.scope = OmScope::Thread;
    record.thread_id = Some("t-expected".to_string());
    record.scope_key = "thread:t-actual".to_string();

    let violations = validate_om_record_invariants(&record);
    assert!(violations.iter().any(|item| matches!(
        item,
        OmRecordInvariantViolation::ScopeKeyIdentifierMismatch {
            expected_identifier,
            actual_identifier,
        } if expected_identifier == "t-expected" && actual_identifier == "t-actual"
    )));
}

#[test]
fn om_record_invariants_report_resource_scope_contract_mismatch() {
    let mut record = sample_record();
    record.scope = OmScope::Resource;
    record.resource_id = None;
    record.scope_key = "thread:t-1".to_string();

    let violations = validate_om_record_invariants(&record);
    assert!(
        violations.contains(&OmRecordInvariantViolation::MissingScopeIdentifier {
            field: "resource_id",
        })
    );
    assert!(
        violations.contains(&OmRecordInvariantViolation::ScopeKeyPrefixMismatch {
            expected_prefix: "resource:",
        })
    );
}

#[test]
fn om_record_invariants_report_resource_scope_key_identifier_mismatch() {
    let mut record = sample_record();
    record.scope = OmScope::Resource;
    record.resource_id = Some("r-expected".to_string());
    record.scope_key = "resource:r-actual".to_string();

    let violations = validate_om_record_invariants(&record);
    assert!(violations.iter().any(|item| matches!(
        item,
        OmRecordInvariantViolation::ScopeKeyIdentifierMismatch {
            expected_identifier,
            actual_identifier,
        } if expected_identifier == "r-expected" && actual_identifier == "r-actual"
    )));
}

#[test]
fn om_record_invariants_report_empty_identifiers_and_orphan_reflection_metadata() {
    let mut record = sample_record();
    record.scope = OmScope::Thread;
    record.thread_id = Some(" ".to_string());
    record.scope_key = "thread:t-1".to_string();
    record.buffered_reflection = None;
    record.buffered_reflection_tokens = Some(11);
    record.buffered_reflection_input_tokens = Some(12);

    let violations = validate_om_record_invariants(&record);
    assert!(
        violations.contains(&OmRecordInvariantViolation::EmptyIdentifier { field: "thread_id" })
    );
    assert!(
        violations
            .contains(&OmRecordInvariantViolation::MissingScopeIdentifier { field: "thread_id" })
    );
    assert!(violations.contains(
        &OmRecordInvariantViolation::BufferedReflectionMetadataWithoutText {
            field: "buffered_reflection_tokens",
        }
    ));
    assert!(violations.contains(
        &OmRecordInvariantViolation::BufferedReflectionMetadataWithoutText {
            field: "buffered_reflection_input_tokens",
        }
    ));
}

#[test]
fn om_record_invariants_report_empty_scope_key_and_empty_buffered_reflection() {
    let mut record = sample_record();
    record.scope_key = " ".to_string();
    record.buffered_reflection = Some(" \n\t ".to_string());
    record.buffered_reflection_tokens = Some(11);

    let violations = validate_om_record_invariants(&record);
    assert!(violations.contains(&OmRecordInvariantViolation::EmptyScopeKey));
    assert!(violations.contains(&OmRecordInvariantViolation::EmptyBufferedReflection));
    assert!(violations.contains(
        &OmRecordInvariantViolation::BufferedReflectionMetadataWithoutText {
            field: "buffered_reflection_tokens",
        }
    ));
}

#[test]
fn om_record_invariants_report_empty_resource_identifier() {
    let mut record = sample_record();
    record.scope = OmScope::Resource;
    record.resource_id = Some("   ".to_string());
    record.scope_key = "resource:r-1".to_string();

    let violations = validate_om_record_invariants(&record);
    assert!(
        violations.contains(&OmRecordInvariantViolation::EmptyIdentifier {
            field: "resource_id",
        })
    );
    assert!(
        violations.contains(&OmRecordInvariantViolation::MissingScopeIdentifier {
            field: "resource_id",
        })
    );
}

#[test]
fn continuation_policy_v2_default_thresholds_are_stable() {
    let policy = ContinuationPolicyV2::default();
    assert_eq!(policy.min_confidence_milli_for_task, 500);
    assert_eq!(policy.min_confidence_milli_for_suggested_response, 700);
    assert!(policy.preserve_existing_task_on_weaker_update);
    assert!(policy.only_improve_suggested_response);
}

#[test]
fn hint_policy_v2_default_contract_is_stable() {
    let policy = OmHintPolicyV2::default();
    assert_eq!(policy.max_lines, 4);
    assert_eq!(policy.max_chars, 240);
    assert!(policy.reserve_current_task_line);
    assert!(policy.reserve_suggested_response_line);
    assert_eq!(policy.high_priority_slots, 1);
    assert!(policy.include_buffered_entries);
}

#[test]
fn observation_entry_v2_invariants_report_empty_required_fields() {
    let entry = OmObservationEntryV2 {
        entry_id: " ".to_string(),
        scope_key: " ".to_string(),
        thread_id: " ".to_string(),
        priority: OmObservationPriority::Medium,
        text: " ".to_string(),
        source_message_ids: vec!["m-1".to_string(), " ".to_string()],
        origin_kind: OmObservationOriginKind::Observation,
        created_at_rfc3339: " ".to_string(),
        superseded_by: Some(" ".to_string()),
    };
    let violations = validate_observation_entry_v2_invariants(&entry);
    assert!(
        violations
            .contains(&OmObservationEntryInvariantViolation::EmptyField { field: "entry_id" })
    );
    assert!(
        violations
            .contains(&OmObservationEntryInvariantViolation::EmptyField { field: "scope_key" })
    );
    assert!(
        violations
            .contains(&OmObservationEntryInvariantViolation::EmptyField { field: "thread_id" })
    );
    assert!(
        violations.contains(&OmObservationEntryInvariantViolation::EmptyField { field: "text" })
    );
    assert!(
        violations.contains(&OmObservationEntryInvariantViolation::EmptyField {
            field: "created_at_rfc3339"
        })
    );
    assert!(violations.contains(&OmObservationEntryInvariantViolation::EmptySourceMessageId));
    assert!(violations.contains(&OmObservationEntryInvariantViolation::EmptySupersededBy));
}

#[test]
fn observation_entry_v2_invariants_report_invalid_rfc3339_timestamp() {
    let entry = OmObservationEntryV2 {
        entry_id: "entry-1".to_string(),
        scope_key: "thread:t-1".to_string(),
        thread_id: "t-1".to_string(),
        priority: OmObservationPriority::Medium,
        text: "stable observation".to_string(),
        source_message_ids: vec!["m-1".to_string()],
        origin_kind: OmObservationOriginKind::Observation,
        created_at_rfc3339: "not-rfc3339".to_string(),
        superseded_by: None,
    };
    let violations = validate_observation_entry_v2_invariants(&entry);
    assert!(
        violations.contains(&OmObservationEntryInvariantViolation::InvalidRfc3339 {
            field: "created_at_rfc3339",
            value: "not-rfc3339".to_string(),
        })
    );
}

#[test]
fn search_visible_snapshot_v2_invariants_validate_snapshot_and_visible_entries() {
    let snapshot = OmSearchVisibleSnapshotV2 {
        scope_key: "thread:t-1".to_string(),
        activated_entry_ids: vec!["a-1".to_string()],
        buffered_entry_ids: vec!["b-1".to_string()],
        current_task: Some("ship release".to_string()),
        suggested_response: None,
        rendered_hint: Some("om: current-task: ship release".to_string()),
        materialized_at_rfc3339: "2026-03-04T00:00:00Z".to_string(),
        snapshot_version: OM_SEARCH_VISIBLE_SNAPSHOT_V2_VERSION.to_string(),
        visible_entries: vec![OmObservationEntryV2 {
            entry_id: "a-1".to_string(),
            scope_key: "thread:t-1".to_string(),
            thread_id: "t-1".to_string(),
            priority: OmObservationPriority::High,
            text: "priority:high release blockers".to_string(),
            source_message_ids: vec!["m-1".to_string()],
            origin_kind: OmObservationOriginKind::Observation,
            created_at_rfc3339: "2026-03-04T00:00:00Z".to_string(),
            superseded_by: None,
        }],
    };
    assert!(validate_search_visible_snapshot_v2_invariants(&snapshot).is_empty());

    let invalid = OmSearchVisibleSnapshotV2 {
        scope_key: " ".to_string(),
        activated_entry_ids: vec![" ".to_string()],
        buffered_entry_ids: vec![" ".to_string()],
        current_task: None,
        suggested_response: None,
        rendered_hint: None,
        materialized_at_rfc3339: " ".to_string(),
        snapshot_version: "invalid-version".to_string(),
        visible_entries: vec![OmObservationEntryV2 {
            entry_id: "e-1".to_string(),
            scope_key: "thread:other".to_string(),
            thread_id: " ".to_string(),
            priority: OmObservationPriority::Medium,
            text: " ".to_string(),
            source_message_ids: vec![" ".to_string()],
            origin_kind: OmObservationOriginKind::Observation,
            created_at_rfc3339: " ".to_string(),
            superseded_by: None,
        }],
    };
    let violations = validate_search_visible_snapshot_v2_invariants(&invalid);
    assert!(
        violations.contains(&OmSearchVisibleSnapshotInvariantViolation::EmptyField {
            field: "scope_key"
        })
    );
    assert!(violations.contains(
        &OmSearchVisibleSnapshotInvariantViolation::SnapshotVersionMismatch {
            expected: OM_SEARCH_VISIBLE_SNAPSHOT_V2_VERSION,
            actual: "invalid-version".to_string(),
        }
    ));
    assert!(violations.contains(&OmSearchVisibleSnapshotInvariantViolation::EmptyActivatedEntryId));
    assert!(violations.contains(&OmSearchVisibleSnapshotInvariantViolation::EmptyBufferedEntryId));
    assert!(violations.iter().any(|item| matches!(
        item,
        OmSearchVisibleSnapshotInvariantViolation::VisibleEntryScopeMismatch {
            entry_id,
            scope_key
        } if entry_id == "e-1" && scope_key == "thread:other"
    )));
    assert!(violations.iter().any(|item| matches!(
        item,
        OmSearchVisibleSnapshotInvariantViolation::VisibleEntryInvariant { entry_id, .. } if entry_id == "e-1"
    )));
}

#[test]
fn search_visible_snapshot_v2_invariants_report_invalid_rfc3339_timestamp() {
    let snapshot = OmSearchVisibleSnapshotV2 {
        scope_key: "thread:t-1".to_string(),
        activated_entry_ids: vec!["a-1".to_string()],
        buffered_entry_ids: vec![],
        current_task: None,
        suggested_response: None,
        rendered_hint: None,
        materialized_at_rfc3339: "invalid-ts".to_string(),
        snapshot_version: OM_SEARCH_VISIBLE_SNAPSHOT_V2_VERSION.to_string(),
        visible_entries: vec![],
    };
    let violations = validate_search_visible_snapshot_v2_invariants(&snapshot);
    assert!(
        violations.contains(&OmSearchVisibleSnapshotInvariantViolation::InvalidRfc3339 {
            field: "materialized_at_rfc3339",
            value: "invalid-ts".to_string(),
        })
    );
}

#[test]
fn om_scope_and_origin_type_string_contracts_are_stable() {
    let scope_cases = [
        (OmScope::Session, "session"),
        (OmScope::Thread, "thread"),
        (OmScope::Resource, "resource"),
    ];
    for (scope, raw) in scope_cases {
        assert_eq!(scope.as_str(), raw);
        assert_eq!(OmScope::parse(raw), Some(scope));
    }
    assert_eq!(OmScope::parse("Session"), None);
    assert_eq!(OmScope::parse(" session "), None);

    let origin_cases = [
        (OmOriginType::Initial, "initial"),
        (OmOriginType::Reflection, "reflection"),
    ];
    for (origin, raw) in origin_cases {
        assert_eq!(origin.as_str(), raw);
        assert_eq!(OmOriginType::parse(raw), Some(origin));
    }
    assert_eq!(OmOriginType::parse("INITIAL"), None);
}
