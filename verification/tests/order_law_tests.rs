use episodic::{
    build_bounded_observation_hint, filter_observer_candidates_by_last_observed_at,
    OmObservationChunk, select_activation_boundary_for_target,
    OmPendingMessage, format_observer_messages_for_prompt,
    OmHintPolicyV2, OmMemorySection, OmObservationEntryV2, OmObservationOriginKind,
    OmObservationPriority, OmObserverMessageCandidate, OmParseMode,
    materialize_search_visible_snapshot, parse_memory_section_xml,
    parse_memory_section_xml_accuracy_first, parse_multi_thread_observer_output,
    parse_multi_thread_observer_output_accuracy_first, select_observer_message_candidates,
};

fn entry(id: &str, created_at: &str) -> OmObservationEntryV2 {
    OmObservationEntryV2 {
        entry_id: id.to_string(),
        scope_key: "thread:t".to_string(),
        thread_id: "t".to_string(),
        priority: OmObservationPriority::Medium,
        text: format!("text {id}"),
        source_message_ids: Vec::new(),
        origin_kind: OmObservationOriginKind::Observation,
        created_at_rfc3339: created_at.to_string(),
        superseded_by: None,
    }
}

fn candidate(id: &str, created_at: i128, session: Option<&str>) -> OmObserverMessageCandidate {
    OmObserverMessageCandidate {
        id: id.to_string(),
        role: "user".to_string(),
        text: id.to_string(),
        created_at,
        source_thread_id: None,
        source_session_id: session.map(str::to_string),
    }
}

#[test]
fn accuracy_first_memory_parse_is_strict_without_overlap() {
    let text = "<observations>\n- a\n</observations>\n<current-task>\nship\n</current-task>";
    let strict = parse_memory_section_xml(text, OmParseMode::Strict);
    assert_eq!(parse_memory_section_xml_accuracy_first(text), strict);
    assert_eq!(
        strict,
        OmMemorySection {
            observations: "- a".to_string(),
            current_task: Some("ship".to_string()),
            suggested_response: None,
        }
    );
}

#[test]
fn accuracy_first_multi_thread_parse_is_strict_when_strict_has_observations() {
    let text = "<observations>\n<thread id=\"t1\">\n- a\n</thread>\n</observations>";
    let strict = parse_multi_thread_observer_output(text, OmParseMode::Strict);
    assert_eq!(strict.len(), 1);
    assert_eq!(parse_multi_thread_observer_output_accuracy_first(text), strict);
}

#[test]
fn snapshot_visible_entries_are_oldest_first_then_by_id() {
    let activated = vec![
        entry("e3", "2026-01-03T00:00:00Z"),
        entry("e2", "2026-01-01T00:00:00Z"),
        entry("e1", "2026-01-01T00:00:00Z"),
    ];
    let buffered = vec![entry("e0", "2026-01-02T00:00:00Z"), entry("e1", "2026-01-05T00:00:00Z")];
    let snapshot = materialize_search_visible_snapshot(
        "thread:t",
        &activated,
        &buffered,
        None,
        "2026-01-06T00:00:00Z",
        OmHintPolicyV2::default(),
    );
    let ids = snapshot
        .visible_entries
        .iter()
        .map(|e| e.entry_id.as_str())
        .collect::<Vec<_>>();
    assert_eq!(ids, vec!["e1", "e2", "e0", "e3"]);
    assert_eq!(snapshot.activated_entry_ids, vec!["e1", "e2", "e3"]);
}

#[test]
fn observer_selection_is_bounded_and_ordered() {
    let candidates = vec![
        candidate("m4", 30, Some("b")),
        candidate("m3", 30, Some("a")),
        candidate("m2", 20, None),
        candidate("m1", 10, None),
        candidate("  ", 40, None),
        candidate("seen", 50, None),
    ];
    let observed = vec!["seen".to_string()];
    let out = select_observer_message_candidates(&candidates, &observed, 3);
    let ids = out.iter().map(|c| c.id.as_str()).collect::<Vec<_>>();
    assert_eq!(ids, vec!["m2", "m3", "m4"]);
    let all = select_observer_message_candidates(&candidates, &observed, 10);
    let all_ids = all.iter().map(|c| c.id.as_str()).collect::<Vec<_>>();
    assert_eq!(all_ids, vec!["m1", "m2", "m3", "m4"]);
}

#[test]
fn prompt_message_ids_keep_only_safe_characters() {
    let messages = vec![OmPendingMessage {
        id: "  a b!!c__ ".to_string(),
        role: "user".to_string(),
        text: "hi".to_string(),
        created_at_rfc3339: None,
    }];
    assert_eq!(format_observer_messages_for_prompt(&messages), "**User [id:a_b_c]:**\nhi");
    let unsafe_only = vec![OmPendingMessage {
        id: " !!! ".to_string(),
        role: "user".to_string(),
        text: "hi".to_string(),
        created_at_rfc3339: None,
    }];
    assert_eq!(format_observer_messages_for_prompt(&unsafe_only), "**User:**\nhi");
}

fn chunk(seq: u32, message_tokens: u32) -> OmObservationChunk {
    OmObservationChunk {
        id: format!("c{seq}"),
        record_id: "r".to_string(),
        seq,
        cycle_id: "cycle".to_string(),
        observations: format!("obs {seq}"),
        token_count: 1,
        message_tokens,
        message_ids: vec![format!("m{seq}")],
        last_observed_at: i128::from(seq),
        created_at: i128::from(seq),
    }
}

#[test]
fn activation_boundary_takes_the_best_fitting_prefix() {
    let chunks = vec![chunk(1, 100), chunk(2, 0), chunk(3, 200), chunk(4, 10)];
    assert_eq!(select_activation_boundary_for_target(&chunks, 150).chunks_activated, 1);
    assert_eq!(select_activation_boundary_for_target(&chunks, 300).chunks_activated, 3);
    assert_eq!(select_activation_boundary_for_target(&chunks, 310).chunks_activated, 4);
    assert_eq!(select_activation_boundary_for_target(&chunks, 50).chunks_activated, 1);
}

#[test]
fn candidate_cutoff_distinguishes_instants_below_a_microsecond() {
    let candidates = vec![candidate("early", 1_000, None), candidate("late", 1_500, None)];
    let kept = filter_observer_candidates_by_last_observed_at(&candidates, Some(1_200));
    assert_eq!(kept.len(), 1);
    assert_eq!(kept[0].id, "late");
}

#[test]
fn bounded_hint_keeps_distinct_lines_in_order() {
    assert_eq!(
        build_bounded_observation_hint("dup\ndup\ntail", 3, 96).as_deref(),
        Some("om: dup tail")
    );
    assert_eq!(
        build_bounded_observation_hint("a\n  b   c \n\nd", 2, 96).as_deref(),
        Some("om: b c d")
    );
}

#[test]
fn snapshot_shows_each_id_once() {
    let activated = vec![entry("e1", "2026-01-01T00:00:00Z"), entry(" e1 ", "2026-01-02T00:00:00Z")];
    let buffered = vec![entry("e2", "2026-01-03T00:00:00Z"), entry("  ", "2026-01-04T00:00:00Z")];
    let snapshot = materialize_search_visible_snapshot(
        "thread:t",
        &activated,
        &buffered,
        None,
        "2026-01-06T00:00:00Z",
        OmHintPolicyV2::default(),
    );
    let ids = snapshot.visible_entries.iter().map(|e| e.entry_id.as_str()).collect::<Vec<_>>();
    assert_eq!(ids, vec!["e1", "e2"]);
}
