use episodic::{
    OmHintPolicyV2, OmObservationEntryV2, OmObservationOriginKind, OmObservationPriority,
    OmPendingMessage, OmReflectionResponseV2, apply_reflection_response_v2,
    format_observer_messages_for_prompt, materialize_search_visible_snapshot,
};

fn entry(id: &str, created_at: &str, sources: &[&str]) -> OmObservationEntryV2 {
    OmObservationEntryV2 {
        entry_id: id.to_string(),
        scope_key: "thread:t-1".to_string(),
        thread_id: "t-1".to_string(),
        priority: OmObservationPriority::Low,
        text: format!("text {id}"),
        source_message_ids: sources.iter().map(|x| x.to_string()).collect(),
        origin_kind: OmObservationOriginKind::Observation,
        created_at_rfc3339: created_at.to_string(),
        superseded_by: None,
    }
}

fn response(covers: &[&str], text: &str) -> OmReflectionResponseV2 {
    OmReflectionResponseV2 {
        covers_entry_ids: covers.iter().map(|x| x.to_string()).collect(),
        reflection_text: text.to_string(),
        current_task: None,
        suggested_response: None,
    }
}

#[test]
fn reflection_supersedes_covered_entries_and_appends_reflection_entry() {
    let entries = vec![
        entry("e1", "2026-03-04T00:00:01Z", &["m-2", " m-1 "]),
        entry("e2", "2026-03-04T00:00:02Z", &["m-3"]),
        entry("e3", "2026-03-04T00:00:03Z", &["m-2", " "]),
    ];
    let next = apply_reflection_response_v2(
        &entries,
        &response(&[" e3 ", "e1", "e1"], "  condensed  "),
        " r-1 ",
        " thread:t-1 ",
        "t-1",
        "2026-03-04T00:10:00Z",
    );
    assert_eq!(next.len(), 4);
    assert_eq!(next[0].superseded_by.as_deref(), Some("r-1"));
    assert_eq!(next[1].superseded_by, None);
    assert_eq!(next[2].superseded_by.as_deref(), Some("r-1"));
    let reflection = &next[3];
    assert_eq!(reflection.entry_id, "r-1");
    assert_eq!(reflection.scope_key, "thread:t-1");
    assert_eq!(reflection.text, "condensed");
    assert_eq!(reflection.priority, OmObservationPriority::Medium);
    assert_eq!(reflection.origin_kind, OmObservationOriginKind::Reflection);
    assert_eq!(reflection.source_message_ids, vec!["m-1", "m-2"]);
    assert_eq!(reflection.created_at_rfc3339, "2026-03-04T00:10:00Z");
}

#[test]
fn reflection_updates_existing_reflection_entry_in_place() {
    let entries = vec![
        entry("e1", "2026-03-04T00:00:01Z", &["m-1"]),
        entry("r-1", "2026-03-04T00:00:05Z", &["old"]),
    ];
    let next = apply_reflection_response_v2(
        &entries,
        &response(&["e1", "r-1"], "merged"),
        "r-1",
        " ",
        "t-2",
        "",
    );
    assert_eq!(next.len(), 2);
    assert_eq!(next[0].superseded_by.as_deref(), Some("r-1"));
    assert_eq!(next[1].entry_id, "r-1");
    assert_eq!(next[1].superseded_by, None);
    assert_eq!(next[1].scope_key, "thread:t-1");
    assert_eq!(next[1].thread_id, "t-2");
    assert_eq!(next[1].created_at_rfc3339, "2026-03-04T00:00:05Z");
    assert_eq!(next[1].source_message_ids, vec!["m-1", "old"]);
    assert_eq!(next[1].text, "merged");
}

#[test]
fn reflection_without_id_text_or_matching_entry_changes_nothing() {
    let entries = vec![entry("e1", "2026-03-04T00:00:01Z", &["m-1"])];
    assert_eq!(apply_reflection_response_v2(&entries, &response(&["e1"], "x"), " ", "k", "t", "c"), entries);
    assert_eq!(apply_reflection_response_v2(&entries, &response(&["e1"], " "), "r", "k", "t", "c"), entries);
    assert_eq!(apply_reflection_response_v2(&entries, &response(&[" "], "x"), "r", "k", "t", "c"), entries);
    assert_eq!(apply_reflection_response_v2(&entries, &response(&["e9"], "x"), "r", "k", "t", "c"), entries);
}

#[test]
fn materialized_snapshot_deduplicates_entries_and_sorts_by_time() {
    let activated = vec![
        entry("a-2", "2026-03-04T00:00:02Z", &["m"]),
        entry(" a-1 ", "2026-03-04T00:00:01Z", &["m"]),
        entry("a-1", "2026-03-04T00:00:09Z", &["m"]),
        entry("  ", "2026-03-04T00:00:00Z", &["m"]),
    ];
    let buffered = vec![entry("a-2", "2026-03-04T00:00:03Z", &["m"]), entry("b-1", "2026-03-04T00:00:00Z", &["m"])];
    let snapshot = materialize_search_visible_snapshot(
        " thread:t-1 ",
        &activated,
        &buffered,
        None,
        "2026-03-04T00:10:00Z",
        OmHintPolicyV2::default(),
    );
    assert_eq!(snapshot.scope_key, "thread:t-1");
    assert_eq!(snapshot.activated_entry_ids, vec!["a-1", "a-2"]);
    assert_eq!(snapshot.buffered_entry_ids, vec!["b-1", "a-2"]);
    let visible = snapshot.visible_entries.iter().map(|e| e.entry_id.as_str()).collect::<Vec<_>>();
    assert_eq!(visible, vec!["b-1", " a-1 ", "a-2"]);
    assert_eq!(
        snapshot.rendered_hint.as_deref(),
        Some("om: text a-2 | text a-1 | text b-1")
    );
}

#[test]
fn prompt_roles_are_capitalised_beyond_ascii() {
    let formatted = format_observer_messages_for_prompt(&[OmPendingMessage {
        id: "id with spaces!!".to_string(),
        role: "élan".to_string(),
        text: " body ".to_string(),
        created_at_rfc3339: None,
    }]);
    assert_eq!(formatted, "**Élan [id:id_with_spaces]:**\nbody");
}
