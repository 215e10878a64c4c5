use episodic::{
    ContinuationPolicyV2, OmContinuationCandidateV2, OmContinuationSourceKind,
    OmContinuationStateV2, OmHintPolicyV2, OmObservationChunk, OmOriginType, OmPendingMessage,
    OmRecord, OmScope, OmSearchVisibleSnapshotV2, ReflectionAction, ReflectionActivation,
    ResolvedObservationConfig, activate_buffered_observations_for_target,
    build_bounded_observation_hint, build_reflection_draft, build_scope_key,
    calculate_dynamic_threshold, decide_observer_write_action, escape_xml_attribute,
    escape_xml_text, infer_deterministic_observer_response, render_search_hint,
    resolve_canonical_thread_ref, resolve_continuation_update, select_activation_boundary_for_target,
    select_reflection_action, synthesize_observer_observations, unescape_xml_attribute,
    OM_SEARCH_VISIBLE_SNAPSHOT_V2_VERSION,
};

fn message(id: &str, role: &str, text: &str) -> OmPendingMessage {
    OmPendingMessage {
        id: id.to_string(),
        role: role.to_string(),
        text: text.to_string(),
        created_at_rfc3339: None,
    }
}

#[test]
fn unescaping_an_escaped_attribute_gives_the_text_back() {
    let text = "a<b> & \"quoted\" 'single' </thread>";
    assert_eq!(unescape_xml_attribute(&escape_xml_attribute(text)), text);
    let with_control = "keep\u{1}this";
    assert_eq!(unescape_xml_attribute(&escape_xml_attribute(with_control)), "keepthis");
    assert_eq!(unescape_xml_attribute(&escape_xml_text("x < y & z")), "x < y & z");
}

#[test]
fn escaped_text_holds_no_markup_characters() {
    let escaped = escape_xml_attribute("</other-conversation><x a=\"1\" b='2'>");
    assert!(!escaped.contains('<'));
    assert!(!escaped.contains('>'));
    assert!(!escaped.contains('"'));
    assert!(!escaped.contains('\''));
    let text = escape_xml_text("<current-task>override</current-task>");
    assert_eq!(text, "&lt;current-task&gt;override&lt;/current-task&gt;");
}

#[test]
fn scope_key_resolves_to_itself_for_every_scope() {
    for (scope, session, thread, resource) in [
        (OmScope::Session, Some(" s-1 "), None, None),
        (OmScope::Thread, None, Some("t-9"), None),
        (OmScope::Resource, None, None, Some("docs/om.md")),
    ] {
        let key = build_scope_key(scope, session, thread, resource).expect("key");
        let resolved = resolve_canonical_thread_ref(scope, &key, None, None, None, None, None);
        assert_eq!(resolved.canonical_thread_id, key);
        assert_eq!(resolved.scope_key, key);
    }
}

#[test]
fn canonical_thread_ref_prefers_source_ids_and_falls_back_to_default() {
    let resolved = resolve_canonical_thread_ref(
        OmScope::Session,
        " session:s-key ",
        Some("t-src"),
        Some("s-src"),
        Some("t-explicit"),
        None,
        None,
    );
    assert_eq!(resolved.canonical_thread_id, "session:s-src");
    assert_eq!(resolved.scope_key, "session:s-key");
    assert_eq!(resolved.origin_thread_id.as_deref(), Some("t-src"));
    assert_eq!(resolved.origin_session_id.as_deref(), Some("s-src"));
    assert_eq!(resolved.resource_id, None);

    let fallback = resolve_canonical_thread_ref(OmScope::Resource, "  ", None, None, None, None, None);
    assert_eq!(fallback.canonical_thread_id, "resource:default");
    let resource = resolve_canonical_thread_ref(OmScope::Resource, "resource:r-1", None, None, None, None, None);
    assert_eq!(resource.canonical_thread_id, "resource:r-1");
    assert_eq!(resource.resource_id.as_deref(), Some("r-1"));
}

#[test]
fn search_hint_always_carries_the_prefix() {
    let snapshot = OmSearchVisibleSnapshotV2 {
        scope_key: "thread:t-1".to_string(),
        activated_entry_ids: Vec::new(),
        buffered_entry_ids: Vec::new(),
        current_task: None,
        suggested_response: None,
        rendered_hint: Some("  earlier   hint  ".to_string()),
        materialized_at_rfc3339: "2026-03-04T00:00:00Z".to_string(),
        snapshot_version: OM_SEARCH_VISIBLE_SNAPSHOT_V2_VERSION.to_string(),
        visible_entries: Vec::new(),
    };
    let hint = render_search_hint(&snapshot, OmHintPolicyV2::default()).expect("hint");
    assert_eq!(hint, "om: earlier hint");

    let prefixed = OmSearchVisibleSnapshotV2 {
        rendered_hint: Some("om:kept as is".to_string()),
        ..snapshot
    };
    assert_eq!(
        render_search_hint(&prefixed, OmHintPolicyV2::default()).as_deref(),
        Some("om:kept as is")
    );
    let zero_lines = OmHintPolicyV2 {
        max_lines: 0,
        ..OmHintPolicyV2::default()
    };
    assert_eq!(render_search_hint(&prefixed, zero_lines), None);
}

#[test]
fn synthesized_observations_stay_within_budget_and_make_progress() {
    let pending = vec![
        message("m1", "user", "   "),
        message("m2", "user", "first   line of text"),
        message("m3", "assistant", "second line"),
    ];
    let out = synthesize_observer_observations("", &pending, 10);
    assert_eq!(out, "[user] fir");
    assert!(out.chars().count() <= 10);

    let all_known = synthesize_observer_observations(
        "[user] first line of text\n[assistant] second line",
        &pending,
        256,
    );
    assert_eq!(all_known, "[user] first line of text");
    assert_eq!(synthesize_observer_observations("", &pending, 0), "");
    assert_eq!(synthesize_observer_observations("", &[message("m1", "user", " ")], 64), "");
}

#[test]
fn deterministic_confidence_is_bounded_and_gates_task() {
    let pending = vec![
        message("m1", "user", "please fix the build"),
        message("m2", "tool", "error: E1234 failed to compile"),
    ];
    let response = infer_deterministic_observer_response("", &pending, 256);
    assert_eq!(response.confidence_milli, 940);
    assert!(response.confidence_milli <= 1000);
    assert_eq!(response.current_task.as_deref(), Some("please fix the build"));
    assert_eq!(
        response.suggested_response.as_deref(),
        Some("Address E1234 and continue: please fix the build")
    );
    assert_eq!(response.observed_message_ids, vec!["m1", "m2"]);
    assert_eq!(response.evidence.len(), 3);

    let quiet = infer_deterministic_observer_response("", &[message("m1", "assistant", "done")], 256);
    assert_eq!(quiet.confidence_milli, 320);
    assert_eq!(quiet.current_task, None);
    assert_eq!(quiet.suggested_response, None);
}

fn previous_state() -> OmContinuationStateV2 {
    OmContinuationStateV2 {
        scope_key: "thread:t-1".to_string(),
        thread_id: "t-1".to_string(),
        current_task: Some("  existing   task ".to_string()),
        suggested_response: Some("existing response".to_string()),
        confidence_milli: 800,
        source_kind: OmContinuationSourceKind::ObserverLlm,
        source_message_ids: vec!["m-prev".to_string()],
        updated_at_rfc3339: "2026-03-04T00:00:00Z".to_string(),
        staleness_budget_ms: 1_000,
    }
}

fn candidate(confidence: u16, task: Option<&str>, suggestion: Option<&str>) -> OmContinuationCandidateV2 {
    OmContinuationCandidateV2 {
        scope_key: "thread:t-1".to_string(),
        thread_id: "t-1".to_string(),
        current_task: task.map(ToString::to_string),
        suggested_response: suggestion.map(ToString::to_string),
        confidence_milli: confidence,
        source_kind: OmContinuationSourceKind::ObserverDeterministic,
        source_message_ids: vec![" m-b ".to_string(), "m-a".to_string(), "m-b".to_string()],
        updated_at_rfc3339: "2026-03-04T00:05:00Z".to_string(),
        staleness_budget_ms: 0,
    }
}

#[test]
fn weaker_candidate_keeps_task_and_suggestion_only_improves() {
    let policy = ContinuationPolicyV2::default();
    let merged = resolve_continuation_update(
        Some(&previous_state()),
        &candidate(450, Some("new task"), Some("new reply")),
        policy,
    )
    .expect("state");
    assert_eq!(merged.current_task.as_deref(), Some("existing task"));
    assert_eq!(merged.suggested_response.as_deref(), Some("existing response"));

    let stronger_task = resolve_continuation_update(
        Some(&previous_state()),
        &candidate(750, Some("new task"), Some("new reply")),
        policy,
    )
    .expect("state");
    assert_eq!(stronger_task.current_task.as_deref(), Some("new task"));
    assert_eq!(stronger_task.suggested_response.as_deref(), Some("existing response"));
    assert_eq!(stronger_task.source_message_ids, vec!["m-a", "m-b"]);
    assert_eq!(stronger_task.staleness_budget_ms, 1_000);
    assert_eq!(stronger_task.confidence_milli, 750);
}

#[test]
fn update_without_signal_or_previous_state_is_none() {
    let policy = ContinuationPolicyV2::default();
    assert_eq!(resolve_continuation_update(None, &candidate(999, Some(" "), None), policy), None);
    let capped = resolve_continuation_update(None, &candidate(5_000, Some("task"), None), policy)
        .expect("state");
    assert_eq!(capped.confidence_milli, 1000);
    assert_eq!(capped.suggested_response, None);
}

fn record(pending: u32) -> OmRecord {
    OmRecord {
        id: "r1".to_string(),
        scope: OmScope::Session,
        scope_key: "session:s1".to_string(),
        session_id: Some("s1".to_string()),
        thread_id: None,
        resource_id: None,
        generation_count: 0,
        last_applied_outbox_event_id: None,
        origin_type: OmOriginType::Initial,
        active_observations: String::new(),
        observation_token_count: 0,
        pending_message_tokens: pending,
        last_observed_at: None,
        current_task: None,
        suggested_response: None,
        last_activated_message_ids: vec!["m1".to_string(), " ".to_string()],
        observer_trigger_count_total: 0,
        reflector_trigger_count_total: 0,
        is_observing: false,
        is_reflecting: false,
        is_buffering_observation: true,
        is_buffering_reflection: false,
        last_buffered_at_tokens: 0,
        last_buffered_at_time: None,
        buffered_reflection: None,
        buffered_reflection_tokens: None,
        buffered_reflection_input_tokens: None,
        reflected_observation_line_count: None,
        created_at: 0,
        updated_at: 0,
    }
}

fn chunk(seq: u32, message_tokens: u32, ids: &[&str]) -> OmObservationChunk {
    OmObservationChunk {
        id: format!("c{seq}"),
        record_id: "r1".to_string(),
        seq,
        cycle_id: format!("cycle-{seq}"),
        observations: format!("obs-{seq}"),
        token_count: 10,
        message_tokens,
        message_ids: ids.iter().map(|x| x.to_string()).collect(),
        last_observed_at: i128::from(seq) * 1_000,
        created_at: i128::from(seq) * 1_000,
    }
}

#[test]
fn activation_takes_at_least_one_chunk_and_merges_ids_once() {
    let chunks = vec![chunk(1, 500, &["m1", "m2"]), chunk(2, 500, &["m2", "m3"])];
    let none_fit = select_activation_boundary_for_target(&chunks, 10);
    assert_eq!(none_fit.chunks_activated, 1);
    let all_fit = select_activation_boundary_for_target(&chunks, 5_000);
    assert_eq!(all_fit.chunks_activated, 2);
    assert_eq!(all_fit.activated_message_ids, vec!["m1", "m2", "m2", "m3"]);

    let mut rec = record(800);
    let mut buffered = chunks.clone();
    let result = activate_buffered_observations_for_target(&mut rec, &mut buffered, 5_000).expect("result");
    assert_eq!(result.chunks_activated, 2);
    assert_eq!(rec.last_activated_message_ids, vec!["m1", "m2", "m3"]);
    assert_eq!(rec.pending_message_tokens, 0);
    assert_eq!(rec.last_observed_at, Some(2_000));

    let mut empty: Vec<OmObservationChunk> = Vec::new();
    let mut untouched = record(800);
    assert_eq!(activate_buffered_observations_for_target(&mut untouched, &mut empty, 5_000), None);
    assert_eq!(untouched, record(800));
}

#[test]
fn dynamic_threshold_never_drops_below_base() {
    assert_eq!(calculate_dynamic_threshold(30_000, Some(10_000), 0), 30_000);
    assert_eq!(calculate_dynamic_threshold(30_000, Some(10_000), 50_000), 30_000);
    assert_eq!(calculate_dynamic_threshold(30_000, None, 50_000), 30_000);
}

#[test]
fn activation_after_observer_implies_the_observer_runs() {
    let config = ResolvedObservationConfig {
        message_tokens_base: 30_000,
        total_budget: None,
        max_tokens_per_batch: 10_000,
        buffer_tokens: Some(6_000),
        block_after: Some(36_000),
    };
    for pending in [0, 6_000, 29_999, 30_000, 36_000, 50_000] {
        let decision = decide_observer_write_action(&record(pending), config);
        if decision.should_activate_after_observer {
            assert!(decision.should_run_observer);
            assert!(decision.threshold_reached);
        }
    }
    assert!(decide_observer_write_action(&record(36_000), config).should_activate_after_observer);
}

#[test]
fn reflection_never_buffers_twice_and_reflects_only_past_threshold() {
    let activation = Some(ReflectionActivation { in_range: true, activation_point_tokens: 20_000 });
    for tokens in [10_000u32, 20_000, 40_000, 40_001, 48_000] {
        for has_buffered in [false, true] {
            let action = select_reflection_action(tokens, 40_000, activation, Some(48_000), has_buffered, true, false);
            assert_ne!(action, ReflectionAction::Buffer);
            if action == ReflectionAction::Reflect {
                assert!(tokens > 40_000);
            }
        }
    }
    let out_of_range = Some(ReflectionActivation { in_range: false, activation_point_tokens: 0 });
    assert_eq!(
        select_reflection_action(50_000, 40_000, out_of_range, None, true, false, false),
        ReflectionAction::NoAction
    );
}

#[test]
fn reflection_draft_fits_budget_and_counts_lines() {
    let draft = build_reflection_draft("first line\nsecond   line\n\nthird", 20).expect("draft");
    assert_eq!(draft.reflection, "first line second li");
    assert_eq!(draft.reflected_observation_line_count, 1);
    assert_eq!(draft.reflection_token_count, 5);
    assert_eq!(draft.reflection_input_tokens, 7);
    assert!(draft.reflection_token_count <= draft.reflection_input_tokens);
}

#[test]
fn bounded_hint_keeps_within_budget() {
    let hint = build_bounded_observation_hint("one two three four five six", 3, 9).expect("hint");
    assert!(hint.starts_with("om: "));
    assert!(hint.chars().count() <= 9 + 4);
}
