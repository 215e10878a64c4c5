//! Merging a continuation candidate into the stored continuation state.

use vstd::prelude::*;
use crate::model::{ContinuationPolicyV2, OmContinuationCandidateV2, OmContinuationSourceKind, OmContinuationStateV2};
use crate::sorting::{sort_unique, sorted_unique};
use crate::text::{
    chars_of_strings, chars_to_string, collapse_ws, collapse_ws_exec, opt_string, str_to_chars,
    string_chars, string_views, strings_from, trim, trim_exec, views,
};

verus! {

/// The continuation state with its texts as character sequences.
pub struct ContinuationView {
    pub scope_key: Seq<char>,
    pub thread_id: Seq<char>,
    pub current_task: Option<Seq<char>>,
    pub suggested_response: Option<Seq<char>>,
    pub confidence_milli: u16,
    pub source_kind: OmContinuationSourceKind,
    pub source_message_ids: Seq<Seq<char>>,
    pub updated_at_rfc3339: Seq<char>,
    pub staleness_budget_ms: u64,
}

pub open spec fn state_view(s: OmContinuationStateV2) -> ContinuationView {
    ContinuationView {
        scope_key: s.scope_key@,
        thread_id: s.thread_id@,
        current_task: opt_string(s.current_task),
        suggested_response: opt_string(s.suggested_response),
        confidence_milli: s.confidence_milli,
        source_kind: s.source_kind,
        source_message_ids: string_views(s.source_message_ids@),
        updated_at_rfc3339: s.updated_at_rfc3339@,
        staleness_budget_ms: s.staleness_budget_ms,
    }
}

/// Whitespace-normalised text, or none when blank.
pub open spec fn norm_text(o: Option<Seq<char>>) -> Option<Seq<char>> {
    match o {
        Some(t) => if trim(collapse_ws(t)).len() == 0 {
            None
        } else {
            Some(trim(collapse_ws(t)))
        },
        None => None,
    }
}

fn normalize_text(value: Option<&str>) -> (r: Option<String>)
    ensures
        opt_string(r) == norm_text(
            match value {
                Some(v) => Some(v@),
                None => None,
            },
        ),
{
    match value {
        Some(v) => {
            let c = str_to_chars(v);
            let n = collapse_ws_exec(c.as_slice());
            let t = trim_exec(n.as_slice());
            if t.len() == 0 {
                None
            } else {
                Some(chars_to_string(t.as_slice()))
            }
        },
        None => None,
    }
}

fn normalize_opt_text(value: &Option<String>) -> (r: Option<String>)
    ensures
        opt_string(r) == norm_text(opt_string(*value)),
{
    match value {
        Some(v) => normalize_text(Some(v.as_str())),
        None => normalize_text(None),
    }
}

/// The trimmed ids that are not empty, in order.
pub open spec fn trimmed_ids(ids: Seq<Seq<char>>) -> Seq<Seq<char>>
    decreases ids.len(),
{
    if ids.len() == 0 {
        Seq::empty()
    } else {
        let prev = trimmed_ids(ids.drop_last());
        let t = trim(ids.last());
        if t.len() == 0 {
            prev
        } else {
            prev.push(t)
        }
    }
}

/// The trimmed non-empty ids, sorted, each once.
pub open spec fn normalized_ids(ids: Seq<Seq<char>>) -> Seq<Seq<char>> {
    sorted_unique(trimmed_ids(ids))
}

pub fn normalize_ids(ids: &[String]) -> (r: Vec<String>)
    ensures
        string_views(r@) == normalized_ids(string_views(ids@)),
{
    let ghost s = string_views(ids@);
    let mut trimmed: Vec<Vec<char>> = Vec::new();
    let mut i: usize = 0;
    while i < ids.len()
        invariant
            i <= ids.len(),
            s == string_views(ids@),
            views(trimmed@) == trimmed_ids(s.take(i as int)),
        decreases ids.len() - i,
    {
        let ghost before = views(trimmed@);
        let c = string_chars(&ids[i]);
        let t = trim_exec(c.as_slice());
        proof {
            assert(s.take(i + 1).drop_last() =~= s.take(i as int));
            assert(s.take(i + 1).last() == s[i as int]);
        }
        if t.len() > 0 {
            trimmed.push(t);
            assert(views(trimmed@) =~= before.push(trim(s[i as int])));
        }
        i += 1;
    }
    assert(s.take(ids.len() as int) =~= s);
    let sorted = sort_unique(&trimmed);
    strings_from(&sorted)
}

/// The state after offering `cand` on top of `prev` under `policy`.
///
/// A candidate field counts only when the candidate's confidence (capped at
/// 1000) reaches the policy's threshold for it. Without a new task the old
/// one is kept when the policy preserves tasks. A new suggestion replaces
/// the old one unless the policy only lets suggestions improve and the old
/// one came with a higher confidence; without a new suggestion the old one
/// stays under that policy. When the candidate contributed nothing, the
/// bookkeeping fields come from the previous state; otherwise from the
/// candidate, falling back to the previous state for blank ones. No state
/// results when there is neither a task, a suggestion nor a previous state.
pub open spec fn continuation_update(prev: Option<OmContinuationStateV2>, cand: OmContinuationCandidateV2, policy: ContinuationPolicyV2) -> Option<ContinuationView> {
    let prev_task = match prev {
        Some(s) => norm_text(opt_string(s.current_task)),
        None => None,
    };
    let prev_suggested = match prev {
        Some(s) => norm_text(opt_string(s.suggested_response)),
        None => None,
    };
    let prev_confidence: u16 = match prev {
        Some(s) => s.confidence_milli,
        None => 0,
    };
    let cand_confidence: u16 = if cand.confidence_milli > 1000 {
        1000
    } else {
        cand.confidence_milli
    };
    let cand_task = if cand_confidence >= policy.min_confidence_milli_for_task {
        norm_text(opt_string(cand.current_task))
    } else {
        None
    };
    let cand_suggested = if cand_confidence >= policy.min_confidence_milli_for_suggested_response {
        norm_text(opt_string(cand.suggested_response))
    } else {
        None
    };
    let task = if cand_task is Some {
        cand_task
    } else if policy.preserve_existing_task_on_weaker_update {
        prev_task
    } else {
        None
    };
    let keep_previous_suggestion = policy.only_improve_suggested_response && prev_suggested is Some
        && prev_confidence > cand_confidence;
    let suggested = match cand_suggested {
        Some(c) => if keep_previous_suggestion {
            prev_suggested
        } else {
            Some(c)
        },
        None => if policy.only_improve_suggested_response {
            prev_suggested
        } else {
            None
        },
    };
    let adopted = cand_suggested is Some && !keep_previous_suggestion;
    let contributed = cand_task is Some || adopted;
    if task is None && suggested is None && prev is None {
        None
    } else {
        let prev_scope_key = match prev {
            Some(s) => s.scope_key@,
            None => Seq::empty(),
        };
        let prev_thread_id = match prev {
            Some(s) => s.thread_id@,
            None => Seq::empty(),
        };
        let prev_updated_at = match prev {
            Some(s) => s.updated_at_rfc3339@,
            None => Seq::empty(),
        };
        let prev_ids = match prev {
            Some(s) => string_views(s.source_message_ids@),
            None => Seq::empty(),
        };
        let prev_staleness: u64 = match prev {
            Some(s) => s.staleness_budget_ms,
            None => 0,
        };
        let cand_ids = normalized_ids(string_views(cand.source_message_ids@));
        Some(
            ContinuationView {
                scope_key: match norm_text(Some(cand.scope_key@)) {
                    Some(k) => k,
                    None => prev_scope_key,
                },
                thread_id: match norm_text(Some(cand.thread_id@)) {
                    Some(k) => k,
                    None => prev_thread_id,
                },
                current_task: task,
                suggested_response: suggested,
                confidence_milli: if contributed {
                    cand_confidence
                } else {
                    match prev {
                        Some(s) => s.confidence_milli,
                        None => cand_confidence,
                    }
                },
                source_kind: if contributed {
                    cand.source_kind
                } else {
                    match prev {
                        Some(s) => s.source_kind,
                        None => cand.source_kind,
                    }
                },
                source_message_ids: if contributed && cand_ids.len() > 0 {
                    cand_ids
                } else {
                    prev_ids
                },
                updated_at_rfc3339: if contributed {
                    match norm_text(Some(cand.updated_at_rfc3339@)) {
                        Some(u) => u,
                        None => prev_updated_at,
                    }
                } else {
                    prev_updated_at
                },
                staleness_budget_ms: if contributed && cand.staleness_budget_ms > 0 {
                    cand.staleness_budget_ms
                } else {
                    prev_staleness
                },
            },
        )
    }
}

fn copy_ids(ids: &Vec<String>) -> (r: Vec<String>)
    ensures
        string_views(r@) == string_views(ids@),
{
    let c = chars_of_strings(ids);
    strings_from(&c)
}

fn or_previous(value: Option<String>, previous: Option<&OmContinuationStateV2>, field: u8) -> (r: String)
    ensures
        r@ == match value {
            Some(v) => v@,
            None => match previous {
                Some(s) => if field == 0 {
                    s.scope_key@
                } else if field == 1 {
                    s.thread_id@
                } else {
                    s.updated_at_rfc3339@
                },
                None => Seq::empty(),
            },
        },
{
    match value {
        Some(v) => v,
        None => match previous {
            Some(s) => if field == 0 {
                s.scope_key.clone()
            } else if field == 1 {
                s.thread_id.clone()
            } else {
                s.updated_at_rfc3339.clone()
            },
            None => String::new(),
        },
    }
}

pub fn resolve_continuation_update(previous: Option<&OmContinuationStateV2>, candidate: &OmContinuationCandidateV2, policy: ContinuationPolicyV2) -> (r: Option<OmContinuationStateV2>)
    ensures
        match r {
            Some(s) => continuation_update(
                match previous {
                    Some(p) => Some(*p),
                    None => None,
                },
                *candidate,
                policy,
            ) == Some(state_view(s)),
            None => continuation_update(
                match previous {
                    Some(p) => Some(*p),
                    None => None,
                },
                *candidate,
                policy,
            ) is None,
        },
{
    let previous_task: Option<String> = match previous {
        Some(s) => normalize_opt_text(&s.current_task),
        None => None,
    };
    let previous_suggested: Option<String> = match previous {
        Some(s) => normalize_opt_text(&s.suggested_response),
        None => None,
    };
    let previous_confidence: u16 = match previous {
        Some(s) => s.confidence_milli,
        None => 0,
    };
    let candidate_confidence: u16 = if candidate.confidence_milli > 1000 {
        1000
    } else {
        candidate.confidence_milli
    };
    let candidate_task: Option<String> = if candidate_confidence >= policy.min_confidence_milli_for_task {
        normalize_opt_text(&candidate.current_task)
    } else {
        None
    };
    let candidate_suggested: Option<String> = if candidate_confidence
        >= policy.min_confidence_milli_for_suggested_response {
        normalize_opt_text(&candidate.suggested_response)
    } else {
        None
    };
    let has_candidate_task = candidate_task.is_some();
    let current_task: Option<String> = if has_candidate_task {
        candidate_task
    } else if policy.preserve_existing_task_on_weaker_update {
        previous_task
    } else {
        None
    };
    let keep_previous_suggestion = policy.only_improve_suggested_response && previous_suggested.is_some()
        && previous_confidence > candidate_confidence;
    let has_candidate_suggested = candidate_suggested.is_some();
    let suggested_response: Option<String> = match candidate_suggested {
        Some(c) => if keep_previous_suggestion {
            previous_suggested
        } else {
            Some(c)
        },
        None => if policy.only_improve_suggested_response {
            previous_suggested
        } else {
            None
        },
    };
    let adopted = has_candidate_suggested && !keep_previous_suggestion;
    let contributed = has_candidate_task || adopted;
    if current_task.is_none() && suggested_response.is_none() && previous.is_none() {
        return None;
    }
    let scope_key = or_previous(normalize_text(Some(candidate.scope_key.as_str())), previous, 0);
    let thread_id = or_previous(normalize_text(Some(candidate.thread_id.as_str())), previous, 1);
    let previous_ids: Vec<String> = match previous {
        Some(s) => copy_ids(&s.source_message_ids),
        None => Vec::new(),
    };
    let source_message_ids = if !contributed {
        previous_ids
    } else {
        let ids = normalize_ids(candidate.source_message_ids.as_slice());
        if ids.len() == 0 {
            previous_ids
        } else {
            ids
        }
    };
    let updated_at_rfc3339 = if !contributed {
        or_previous(None, previous, 2)
    } else {
        or_previous(normalize_text(Some(candidate.updated_at_rfc3339.as_str())), previous, 2)
    };
    let previous_staleness: u64 = match previous {
        Some(s) => s.staleness_budget_ms,
        None => 0,
    };
    let staleness_budget_ms = if contributed && candidate.staleness_budget_ms > 0 {
        candidate.staleness_budget_ms
    } else {
        previous_staleness
    };
    let (confidence_milli, source_kind) = if !contributed {
        match previous {
            Some(s) => (s.confidence_milli, s.source_kind),
            None => (candidate_confidence, candidate.source_kind),
        }
    } else {
        (candidate_confidence, candidate.source_kind)
    };
    let r = OmContinuationStateV2 {
            scope_key,
            thread_id,
            current_task,
            suggested_response,
            confidence_milli,
            source_kind,
            source_message_ids,
            updated_at_rfc3339,
            staleness_budget_ms,
        };
    proof {
        let e = continuation_update(
            match previous {
                Some(p) => Some(*p),
                None => None,
            },
            *candidate,
            policy,
        );
        assert(e is Some);
        let v = e->0;
        assert(v.scope_key == r.scope_key@);
        assert(v.thread_id == r.thread_id@);
        assert(v.current_task == opt_string(r.current_task));
        assert(v.suggested_response == opt_string(r.suggested_response));
        assert(v.confidence_milli == r.confidence_milli);
        assert(v.source_kind == r.source_kind);
        assert(v.source_message_ids == string_views(r.source_message_ids@));
        assert(v.updated_at_rfc3339 == r.updated_at_rfc3339@);
        assert(v.staleness_budget_ms == r.staleness_budget_ms);
    }
    Some(r)
}


// ---------------------------------------------------------------------------
// Laws
// ---------------------------------------------------------------------------

/// With a task-preserving policy, a candidate too weak for a task keeps the
/// previous task.
pub proof fn law_weaker_candidate_keeps_task(prev: OmContinuationStateV2, cand: OmContinuationCandidateV2, policy: ContinuationPolicyV2)
    requires
        policy.preserve_existing_task_on_weaker_update,
        cand.confidence_milli < policy.min_confidence_milli_for_task,
    ensures
        continuation_update(Some(prev), cand, policy) matches Some(v) && v.current_task == norm_text(
            opt_string(prev.current_task),
        ),
{
}

/// When suggestions may only improve, a candidate less confident than the
/// previous state never replaces its suggestion.
pub proof fn law_suggestion_only_improves(prev: OmContinuationStateV2, cand: OmContinuationCandidateV2, policy: ContinuationPolicyV2)
    requires
        policy.only_improve_suggested_response,
        norm_text(opt_string(prev.suggested_response)) is Some,
        prev.confidence_milli > cand.confidence_milli,
    ensures
        continuation_update(Some(prev), cand, policy) matches Some(v) && v.suggested_response == norm_text(
            opt_string(prev.suggested_response),
        ),
{
}

/// Without a previous state, an update exists exactly when the candidate
/// brings a task or a suggestion its confidence allows.
pub proof fn law_update_needs_signal(cand: OmContinuationCandidateV2, policy: ContinuationPolicyV2)
    ensures
        continuation_update(None, cand, policy) is None <==> {
            let c: u16 = if cand.confidence_milli > 1000 {
                1000
            } else {
                cand.confidence_milli
            };
            &&& (c < policy.min_confidence_milli_for_task || norm_text(opt_string(cand.current_task)) is None)
            &&& (c < policy.min_confidence_milli_for_suggested_response || norm_text(
                opt_string(cand.suggested_response),
            ) is None)
        },
{
}

proof fn lemma_trimmed_ids_members(ids: Seq<Seq<char>>)
    ensures
        forall|y: Seq<char>| #[trigger] trimmed_ids(ids).contains(y) <==> (y.len() > 0 && exists|i: int| 0 <= i
            < ids.len() && trim(ids[i]) == y),
    decreases ids.len(),
{
    if ids.len() > 0 {
        lemma_trimmed_ids_members(ids.drop_last());
        let prev = trimmed_ids(ids.drop_last());
        let t = trim(ids.last());
        assert forall|y: Seq<char>| #[trigger] trimmed_ids(ids).contains(y) <==> (y.len() > 0 && exists|i: int|
            0 <= i < ids.len() && trim(ids[i]) == y) by {
            if trimmed_ids(ids).contains(y) {
                if prev.contains(y) {
                    let i = choose|i: int| 0 <= i < ids.drop_last().len() && trim(ids.drop_last()[i]) == y;
                    assert(ids[i] == ids.drop_last()[i]);
                } else {
                    let k = choose|k: int| 0 <= k < trimmed_ids(ids).len() && trimmed_ids(ids)[k] == y;
                    assert(trimmed_ids(ids) == prev.push(t));
                    if k < prev.len() {
                        assert(prev[k] == y);
                    }
                    assert(trim(ids[ids.len() - 1]) == y);
                }
            }
            if y.len() > 0 && exists|i: int| 0 <= i < ids.len() && trim(ids[i]) == y {
                let i = choose|i: int| 0 <= i < ids.len() && trim(ids[i]) == y;
                if i < ids.len() - 1 {
                    assert(ids.drop_last()[i] == ids[i]);
                    assert(prev.contains(y));
                    let k = choose|k: int| 0 <= k < prev.len() && prev[k] == y;
                    if t.len() > 0 {
                        assert(prev.push(t)[k] == y);
                    }
                } else {
                    assert(t == y);
                    assert(trimmed_ids(ids) == prev.push(t));
                    assert(prev.push(t)[prev.len() as int] == y);
                }
            }
        }
    }
}

/// Normalised ids are strictly sorted (so free of duplicates) and are
/// exactly the trimmed, non-empty input ids.
pub proof fn law_normalized_ids(ids: Seq<Seq<char>>)
    ensures
        crate::sorting::strictly_sorted(normalized_ids(ids)),
        forall|y: Seq<char>| #[trigger] normalized_ids(ids).contains(y) <==> (y.len() > 0 && exists|i: int| 0 <= i
            < ids.len() && trim(ids[i]) == y),
{
    crate::sorting::lemma_sorted_unique(trimmed_ids(ids));
    lemma_trimmed_ids_members(ids);
    assert forall|y: Seq<char>| #[trigger] normalized_ids(ids).contains(y) <==> (y.len() > 0 && exists|i: int| 0
        <= i < ids.len() && trim(ids[i]) == y) by {
        assert(normalized_ids(ids).contains(y) == trimmed_ids(ids).contains(y));
    }
}

} // verus!
