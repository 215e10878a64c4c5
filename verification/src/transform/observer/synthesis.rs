//! Deterministic observer: observation lines, current task, suggested
//! response and evidence computed from the pending messages alone.

use vstd::prelude::*;
use crate::inference::OmPendingMessage;
use crate::model::{ContinuationPolicyV2, OmDeterministicEvidence, OmDeterministicEvidenceKind, OmDeterministicObserverResponseV2};
use crate::transform::helpers::{estimate_text_tokens, estimate_tokens, normalize_whitespace};
use crate::text::{
    chars_to_string, collapse_ws, collapse_ws_exec, lower, opt_string, str_to_chars, take_chars,
    take_chars_exec, to_ascii_lower, trim, trim_exec, views, string_views, seqs_contains,
    contains_char_exec,
};
use crate::transform::observer::signals::{
    LanguageProfile, assistant_or_tool_roles, build_error_recovery_response,
    build_suggested_response, contains_error_signal, detect_language_profile, error_identifier,
    error_recovery_text, error_signal, extract_error_identifier, extract_task_phrase,
    is_assistant_or_tool_role, is_user_role, language_profile, suggested_response_text,
    task_phrase, user_roles,
};

verus! {

// ---------------------------------------------------------------------------
// Messages
// ---------------------------------------------------------------------------

/// Whitespace-normalised, ASCII-lowercased role.
pub open spec fn message_role(m: OmPendingMessage) -> Seq<char> {
    lower(collapse_ws(m.role@))
}

fn message_role_exec(m: &OmPendingMessage) -> (r: Vec<char>)
    ensures
        r@ == message_role(*m),
{
    let v = str_to_chars(m.role.as_str());
    let c = collapse_ws_exec(v.as_slice());
    to_ascii_lower(c.as_slice())
}

pub open spec fn is_user_message(m: OmPendingMessage) -> bool {
    user_roles().contains(message_role(m))
}

/// An assistant or tool message that reports an error.
pub open spec fn is_error_message(m: OmPendingMessage) -> bool {
    assistant_or_tool_roles().contains(message_role(m)) && error_signal(m.text@)
}

/// A user message that asks for work.
pub open spec fn is_task_message(m: OmPendingMessage) -> bool {
    is_user_message(m) && task_phrase(m.text@) is Some
}

/// A message whose text is not blank.
pub open spec fn has_text(m: OmPendingMessage) -> bool {
    collapse_ws(m.text@).len() > 0
}

/// Index of the last message satisfying `p`, or -1.
pub open spec fn last_where(ms: Seq<OmPendingMessage>, p: spec_fn(OmPendingMessage) -> bool) -> int
    decreases ms.len(),
{
    if ms.len() == 0 {
        -1
    } else if p(ms.last()) {
        ms.len() - 1
    } else {
        last_where(ms.drop_last(), p)
    }
}

pub proof fn lemma_last_where_at(ms: Seq<OmPendingMessage>, p: spec_fn(OmPendingMessage) -> bool, i: int)
    requires
        -1 <= i < ms.len(),
        i >= 0 ==> p(ms[i]),
        forall|j: int| i < j < ms.len() ==> !p(#[trigger] ms[j]),
    ensures
        last_where(ms, p) == i,
    decreases ms.len(),
{
    if ms.len() > 0 && i < ms.len() - 1 {
        assert(!p(ms.last()));
        assert forall|j: int| i < j < ms.drop_last().len() implies !p(#[trigger] ms.drop_last()[j]) by {
            assert(ms.drop_last()[j] == ms[j]);
        }
        if i >= 0 {
            assert(ms.drop_last()[i] == ms[i]);
        }
        lemma_last_where_at(ms.drop_last(), p, i);
    }
}

/// `Some(i)` for a found index, `None` for -1.
pub open spec fn found(r: Option<usize>, i: int) -> bool {
    match r {
        Some(k) => k == i,
        None => i == -1,
    }
}

pub fn find_last_user_message(ms: &[OmPendingMessage]) -> (r: Option<usize>)
    ensures
        found(r, last_where(ms@, |m: OmPendingMessage| is_user_message(m))),
        r matches Some(k) ==> k < ms.len(),
{
    let ghost p = |m: OmPendingMessage| is_user_message(m);
    let mut i: usize = ms.len();
    while i > 0
        invariant
            i <= ms.len(),
            p == (|m: OmPendingMessage| is_user_message(m)),
            forall|j: int| i <= j < ms.len() ==> !p(#[trigger] ms@[j]),
        decreases i,
    {
        let role = message_role_exec(&ms[i - 1]);
        if is_user_role(role.as_slice()) {
            proof {
                lemma_last_where_at(ms@, p, i - 1);
            }
            return Some(i - 1);
        }
        i -= 1;
    }
    proof {
        lemma_last_where_at(ms@, p, -1);
    }
    None
}

/// The last user message with a task phrase, and the phrase.
pub fn find_latest_task_signal(ms: &[OmPendingMessage]) -> (r: Option<(usize, String)>)
    ensures
        match r {
            Some((k, task)) => last_where(ms@, |m: OmPendingMessage| is_task_message(m)) == k
                && task_phrase(ms@[k as int].text@) == Some(task@),
            None => last_where(ms@, |m: OmPendingMessage| is_task_message(m)) == -1,
        },
        r matches Some((k, _)) ==> k < ms.len(),
{
    let ghost p = |m: OmPendingMessage| is_task_message(m);
    let mut i: usize = ms.len();
    while i > 0
        invariant
            i <= ms.len(),
            p == (|m: OmPendingMessage| is_task_message(m)),
            forall|j: int| i <= j < ms.len() ==> !p(#[trigger] ms@[j]),
        decreases i,
    {
        let role = message_role_exec(&ms[i - 1]);
        if is_user_role(role.as_slice()) {
            let task = extract_task_phrase(ms[i - 1].text.as_str());
            match task {
                Some(t) => {
                    proof {
                        lemma_last_where_at(ms@, p, i - 1);
                    }
                    return Some((i - 1, t));
                },
                None => {},
            }
        }
        i -= 1;
    }
    proof {
        lemma_last_where_at(ms@, p, -1);
    }
    None
}

/// The last assistant or tool message that reports an error.
pub fn find_latest_error_signal(ms: &[OmPendingMessage]) -> (r: Option<usize>)
    ensures
        found(r, last_where(ms@, |m: OmPendingMessage| is_error_message(m))),
        r matches Some(k) ==> k < ms.len(),
{
    let ghost p = |m: OmPendingMessage| is_error_message(m);
    let mut i: usize = ms.len();
    while i > 0
        invariant
            i <= ms.len(),
            p == (|m: OmPendingMessage| is_error_message(m)),
            forall|j: int| i <= j < ms.len() ==> !p(#[trigger] ms@[j]),
        decreases i,
    {
        let role = message_role_exec(&ms[i - 1]);
        if is_assistant_or_tool_role(role.as_slice()) {
            let text = str_to_chars(ms[i - 1].text.as_str());
            if contains_error_signal(text.as_slice()) {
                proof {
                    lemma_last_where_at(ms@, p, i - 1);
                }
                return Some(i - 1);
            }
        }
        i -= 1;
    }
    proof {
        lemma_last_where_at(ms@, p, -1);
    }
    None
}

/// The last message whose text is not blank.
fn find_last_message_with_text(ms: &[OmPendingMessage]) -> (r: Option<usize>)
    ensures
        found(r, last_where(ms@, |m: OmPendingMessage| has_text(m))),
        r matches Some(k) ==> k < ms.len(),
{
    let ghost p = |m: OmPendingMessage| has_text(m);
    let mut i: usize = ms.len();
    while i > 0
        invariant
            i <= ms.len(),
            p == (|m: OmPendingMessage| has_text(m)),
            forall|j: int| i <= j < ms.len() ==> !p(#[trigger] ms@[j]),
        decreases i,
    {
        let text = str_to_chars(ms[i - 1].text.as_str());
        let n = collapse_ws_exec(text.as_slice());
        if n.len() > 0 {
            proof {
                lemma_last_where_at(ms@, p, i - 1);
            }
            return Some(i - 1);
        }
        i -= 1;
    }
    proof {
        lemma_last_where_at(ms@, p, -1);
    }
    None
}

/// The trimmed id, when it is not empty.
pub open spec fn message_id(id: Seq<char>) -> Option<Seq<char>> {
    if trim(id).len() == 0 {
        None
    } else {
        Some(trim(id))
    }
}

pub fn normalize_message_id(id: &str) -> (r: Option<Vec<char>>)
    ensures
        match r {
            Some(v) => message_id(id@) == Some(v@),
            None => message_id(id@) is None,
        },
{
    let v = str_to_chars(id);
    let t = trim_exec(v.as_slice());
    if t.len() == 0 {
        None
    } else {
        Some(t)
    }
}

/// The normalised text cut to `max_chars` characters.
pub open spec fn excerpt(text: Seq<char>, max_chars: int) -> Seq<char> {
    take_chars(collapse_ws(text), max_chars)
}

pub fn short_excerpt(text: &str, max_chars: usize) -> (r: String)
    ensures
        r@ == excerpt(text@, max_chars as int),
{
    let v = str_to_chars(text);
    let n = collapse_ws_exec(v.as_slice());
    let t = take_chars_exec(n.as_slice(), max_chars);
    chars_to_string(t.as_slice())
}

/// The trimmed non-empty ids of the messages, each kept at its first
/// occurrence.
pub open spec fn observed_ids(ms: Seq<OmPendingMessage>) -> Seq<Seq<char>>
    decreases ms.len(),
{
    if ms.len() == 0 {
        Seq::empty()
    } else {
        let prev = observed_ids(ms.drop_last());
        let id = trim(ms.last().id@);
        if id.len() == 0 || prev.contains(id) {
            prev
        } else {
            prev.push(id)
        }
    }
}

pub fn collect_observed_message_ids(ms: &[OmPendingMessage]) -> (r: Vec<String>)
    ensures
        string_views(r@) == observed_ids(ms@),
{
    let mut ids: Vec<String> = Vec::new();
    let mut seen: Vec<Vec<char>> = Vec::new();
    let mut i: usize = 0;
    while i < ms.len()
        invariant
            i <= ms.len(),
            string_views(ids@) == observed_ids(ms@.take(i as int)),
            views(seen@) == string_views(ids@),
        decreases ms.len() - i,
    {
        proof {
            assert(ms@.take(i + 1).drop_last() =~= ms@.take(i as int));
            assert(ms@.take(i + 1).last() == ms@[i as int]);
        }
        let ghost before = string_views(ids@);
        match normalize_message_id(ms[i].id.as_str()) {
            Some(id) => {
                if !seqs_contains(&seen, id.as_slice()) {
                    ids.push(chars_to_string(id.as_slice()));
                    seen.push(id);
                    assert(string_views(ids@) =~= before.push(trim(ms@[i as int].id@)));
                    assert(views(seen@) =~= string_views(ids@));
                }
            },
            None => {},
        }
        i += 1;
    }
    assert(ms@.take(ms.len() as int) =~= ms@);
    ids
}

// ---------------------------------------------------------------------------
// Confidence and continuation
// ---------------------------------------------------------------------------

/// 600 for a task phrased as a question, 820 for another task, 0 without
/// one; 120 more after an error when there is a task; at least 320 when
/// observations were produced; at most 1000.
pub open spec fn confidence(task: Option<Seq<char>>, has_error: bool, has_observation: bool) -> u16 {
    let base: int = match task {
        Some(t) => if t.contains('?') || t.contains('？') {
            600
        } else {
            820
        },
        None => 0,
    };
    let raised: int = if has_error && base > 0 {
        base + 120
    } else {
        base
    };
    let floored: int = if has_observation && raised < 320 {
        320
    } else {
        raised
    };
    (if floored > 1000 {
        1000
    } else {
        floored
    }) as u16
}

pub fn compute_confidence_milli(task: Option<&[char]>, has_error_signal: bool, has_observation: bool) -> (r: u16)
    ensures
        r == confidence(
            match task {
                Some(t) => Some(t@),
                None => None,
            },
            has_error_signal,
            has_observation,
        ),
{
    let mut c: u16 = match task {
        Some(t) => if contains_char_exec(t, '?') || contains_char_exec(t, '？') {
            600
        } else {
            820
        },
        None => 0,
    };
    if has_error_signal && c > 0 {
        c = c.saturating_add(120);
    }
    if has_observation && c < 320 {
        c = 320;
    }
    if c > 1000 {
        1000
    } else {
        c
    }
}

/// Current task and suggested response: the task phrase of the last user
/// message; the suggestion, in the language of the task (or of that
/// message), answers the task or, after a failed assistant or tool
/// message, recovers from the error, cut to 180 characters.
pub open spec fn continuation(ms: Seq<OmPendingMessage>) -> (Option<Seq<char>>, Option<Seq<char>>) {
    let u = last_where(ms, |m: OmPendingMessage| is_user_message(m));
    let e = last_where(ms, |m: OmPendingMessage| is_error_message(m));
    let task = if u >= 0 {
        task_phrase(ms[u].text@)
    } else {
        None
    };
    let profile = match task {
        Some(t) => language_profile(t),
        None => if u >= 0 {
            language_profile(ms[u].text@)
        } else {
            LanguageProfile::Other
        },
    };
    let suggestion = match task {
        Some(t) => Some(
            take_chars(
                if e >= 0 {
                    error_recovery_text(profile, error_identifier(ms[e].text@), t)
                } else {
                    suggested_response_text(profile, t)
                },
                180,
            ),
        ),
        None => None,
    };
    (task, suggestion)
}

pub fn infer_deterministic_continuation(pending_messages: &[OmPendingMessage]) -> (r: (Option<String>, Option<String>))
    ensures
        opt_string(r.0) == continuation(pending_messages@).0,
        opt_string(r.1) == continuation(pending_messages@).1,
{
    let last_user = find_last_user_message(pending_messages);
    let last_error = find_latest_error_signal(pending_messages);
    let current_task: Option<String> = match last_user {
        Some(u) => extract_task_phrase(pending_messages[u].text.as_str()),
        None => None,
    };
    let task_chars: Option<Vec<char>> = match &current_task {
        Some(t) => Some(str_to_chars(t.as_str())),
        None => None,
    };
    let profile = match &task_chars {
        Some(t) => detect_language_profile(t.as_slice()),
        None => match last_user {
            Some(u) => {
                let text = str_to_chars(pending_messages[u].text.as_str());
                detect_language_profile(text.as_slice())
            },
            None => LanguageProfile::Other,
        },
    };
    let suggested: Option<String> = match &task_chars {
        Some(t) => {
            let full = match last_error {
                Some(e) => {
                    let text = str_to_chars(pending_messages[e].text.as_str());
                    let id = extract_error_identifier(text.as_slice());
                    match &id {
                        Some(i) => build_error_recovery_response(profile, Some(i.as_slice()), t.as_slice()),
                        None => build_error_recovery_response(profile, None, t.as_slice()),
                    }
                },
                None => build_suggested_response(profile, t.as_slice()),
            };
            let cut = take_chars_exec(full.as_slice(), 180);
            Some(chars_to_string(cut.as_slice()))
        },
        None => None,
    };
    (current_task, suggested)
}


// ---------------------------------------------------------------------------
// Observation lines
// ---------------------------------------------------------------------------

/// The observation line of a message: its normalised text, prefixed by
/// `[role] ` when the normalised role is not empty; none for a blank text.
pub open spec fn candidate_line(m: OmPendingMessage) -> Option<Seq<char>> {
    let role = collapse_ws(m.role@);
    let text = collapse_ws(m.text@);
    if text.len() == 0 {
        None
    } else if role.len() == 0 {
        Some(text)
    } else {
        Some("["@ + role + "] "@ + text)
    }
}

fn candidate_line_exec(m: &OmPendingMessage) -> (r: Option<Vec<char>>)
    ensures
        match r {
            Some(v) => candidate_line(*m) == Some(v@),
            None => candidate_line(*m) is None,
        },
{
    let rv = str_to_chars(m.role.as_str());
    let role = collapse_ws_exec(rv.as_slice());
    let tv = str_to_chars(m.text.as_str());
    let text = collapse_ws_exec(tv.as_slice());
    if text.len() == 0 {
        return None;
    }
    if role.len() == 0 {
        return Some(text);
    }
    let mut line: Vec<char> = Vec::new();
    line.push('[');
    crate::text::extend(&mut line, role.as_slice());
    crate::text::extend_str(&mut line, "] ");
    crate::text::extend(&mut line, text.as_slice());
    proof {
        reveal_strlit("[");
        assert(seq!['['] =~= "["@);
    }
    Some(line)
}

/// Lines kept so far and their normalised forms: a line is kept unless its
/// normalised form is empty, already among the active observation lines, or
/// already kept.
pub open spec fn kept_lines(existing: Seq<Seq<char>>, ms: Seq<OmPendingMessage>) -> (Seq<Seq<char>>, Seq<Seq<char>>)
    decreases ms.len(),
{
    if ms.len() == 0 {
        (Seq::empty(), Seq::empty())
    } else {
        let (seen, out) = kept_lines(existing, ms.drop_last());
        match candidate_line(ms.last()) {
            None => (seen, out),
            Some(line) => {
                let n = collapse_ws(line);
                if n.len() == 0 || existing.contains(n) || seen.contains(n) {
                    (seen, out)
                } else {
                    (seen.push(n), out.push(line))
                }
            },
        }
    }
}

/// The line of the first message that has one.
pub open spec fn first_candidate(ms: Seq<OmPendingMessage>) -> Option<Seq<char>>
    decreases ms.len(),
{
    if ms.len() == 0 {
        None
    } else {
        match candidate_line(ms[0]) {
            Some(l) => Some(l),
            None => first_candidate(ms.drop_first()),
        }
    }
}

/// New observation lines for the pending messages, joined by newlines and
/// cut to `max_chars` characters; when every line was a duplicate, the
/// first line alone keeps the observer moving.
pub open spec fn synthesized_observations(active: Seq<char>, ms: Seq<OmPendingMessage>, max_chars: int) -> Seq<char> {
    let existing = crate::text::lines(active).map_values(|l: Seq<char>| collapse_ws(l));
    let out = kept_lines(existing, ms).1;
    let chosen = if out.len() == 0 {
        match first_candidate(ms) {
            Some(l) => seq![l],
            None => Seq::empty(),
        }
    } else {
        out
    };
    take_chars(crate::text::join(chosen, "\n"@), max_chars)
}

/// Normalised forms of the active observation lines.
fn existing_lines(active: &str) -> (r: Vec<Vec<char>>)
    ensures
        views(r@) == crate::text::lines(active@).map_values(|l: Seq<char>| collapse_ws(l)),
{
    let v = str_to_chars(active);
    let ls = crate::text::lines_exec(v.as_slice());
    let ghost lv = ls@.map_values(|l: Vec<char>| l@);
    let mut r: Vec<Vec<char>> = Vec::new();
    let mut i: usize = 0;
    while i < ls.len()
        invariant
            i <= ls.len(),
            lv == ls@.map_values(|l: Vec<char>| l@),
            views(r@) == lv.take(i as int).map_values(|l: Seq<char>| collapse_ws(l)),
        decreases ls.len() - i,
    {
        let ghost before = views(r@);
        let n = collapse_ws_exec(ls[i].as_slice());
        r.push(n);
        proof {
            assert(lv[i as int] == ls@[i as int]@);
            assert(lv.take(i + 1) =~= lv.take(i as int).push(lv[i as int]));
            assert(views(r@) =~= before.push(n@));
            assert(lv.take(i + 1).map_values(|l: Seq<char>| collapse_ws(l)) =~= lv.take(i as int).map_values(
                |l: Seq<char>| collapse_ws(l),
            ).push(collapse_ws(lv[i as int])));
        }
        i += 1;
    }
    assert(lv.take(ls.len() as int) =~= lv);
    r
}

/// Line of the first message that has one.
fn first_candidate_exec(ms: &[OmPendingMessage]) -> (r: Option<Vec<char>>)
    ensures
        match r {
            Some(v) => first_candidate(ms@) == Some(v@),
            None => first_candidate(ms@) is None,
        },
{
    let mut i: usize = 0;
    assert(ms@.skip(0) =~= ms@);
    while i < ms.len()
        invariant
            i <= ms.len(),
            first_candidate(ms@.skip(i as int)) == first_candidate(ms@),
        decreases ms.len() - i,
    {
        proof {
            assert(ms@.skip(i as int)[0] == ms@[i as int]);
            assert(ms@.skip(i as int).drop_first() =~= ms@.skip(i + 1));
        }
        match candidate_line_exec(&ms[i]) {
            Some(l) => {
                return Some(l);
            },
            None => {},
        }
        i += 1;
    }
    assert(ms@.skip(i as int) =~= Seq::<OmPendingMessage>::empty());
    None
}

pub fn synthesize_observer_observations(active_observations: &str, pending_messages: &[OmPendingMessage], max_chars: usize) -> (r: String)
    ensures
        r@ == synthesized_observations(active_observations@, pending_messages@, max_chars as int),
{
    if max_chars == 0 {
        let r = String::new();
        proof {
            let x = synthesized_observations(active_observations@, pending_messages@, 0);
            assert(x =~= Seq::<char>::empty());
        }
        return r;
    }
    let existing = existing_lines(active_observations);
    let ghost ev = views(existing@);
    let mut seen: Vec<Vec<char>> = Vec::new();
    let mut out: Vec<Vec<char>> = Vec::new();
    let mut i: usize = 0;
    while i < pending_messages.len()
        invariant
            i <= pending_messages.len(),
            ev == views(existing@),
            (views(seen@), views(out@)) == kept_lines(ev, pending_messages@.take(i as int)),
        decreases pending_messages.len() - i,
    {
        proof {
            let t = pending_messages@.take(i + 1);
            assert(t.drop_last() =~= pending_messages@.take(i as int));
            assert(t.last() == pending_messages@[i as int]);
        }
        let ghost seen0 = views(seen@);
        let ghost out0 = views(out@);
        match candidate_line_exec(&pending_messages[i]) {
            Some(line) => {
                let n = collapse_ws_exec(line.as_slice());
                if n.len() > 0 && !seqs_contains(&existing, n.as_slice()) && !seqs_contains(&seen, n.as_slice()) {
                    seen.push(n);
                    out.push(line);
                    assert(views(seen@) =~= seen0.push(n@));
                    assert(views(out@) =~= out0.push(line@));
                }
            },
            None => {},
        }
        i += 1;
    }
    assert(pending_messages@.take(pending_messages.len() as int) =~= pending_messages@);
    if out.len() == 0 {
        match first_candidate_exec(pending_messages) {
            Some(l) => {
                out.push(l);
                assert(views(out@) =~= seq![l@]);
            },
            None => {},
        }
    }
    let mut sep: Vec<char> = Vec::new();
    sep.push('\n');
    let joined = crate::text::join_exec(&out, sep.as_slice());
    proof {
        reveal_strlit("\n");
        assert(sep@ =~= "\n"@);
        assert(out@.map_values(|p: Vec<char>| p@) =~= views(out@));
    }
    let cut = take_chars_exec(joined.as_slice(), max_chars);
    chars_to_string(cut.as_slice())
}


// ---------------------------------------------------------------------------
// Deterministic observer response
// ---------------------------------------------------------------------------

/// Message id, normalised role, kind and excerpt of one evidence item.
pub open spec fn evidence_view(e: OmDeterministicEvidence) -> (Seq<char>, Seq<char>, OmDeterministicEvidenceKind, Seq<char>) {
    (e.message_id@, e.role@, e.kind, e.excerpt@)
}

/// The evidence item for message `i`, when there is such a message and its
/// id is not blank.
pub open spec fn evidence_at(ms: Seq<OmPendingMessage>, i: int, kind: OmDeterministicEvidenceKind) -> Seq<(Seq<char>, Seq<char>, OmDeterministicEvidenceKind, Seq<char>)> {
    if 0 <= i < ms.len() && message_id(ms[i].id@) is Some {
        seq![(trim(ms[i].id@), collapse_ws(ms[i].role@), kind, excerpt(ms[i].text@, 120))]
    } else {
        Seq::empty()
    }
}

/// Evidence for the latest task request, the latest error report and the
/// latest message with text, in that order.
pub open spec fn deterministic_evidence(ms: Seq<OmPendingMessage>) -> Seq<(Seq<char>, Seq<char>, OmDeterministicEvidenceKind, Seq<char>)> {
    evidence_at(ms, last_where(ms, |m: OmPendingMessage| is_task_message(m)), OmDeterministicEvidenceKind::TaskSignal)
        + evidence_at(ms, last_where(ms, |m: OmPendingMessage| is_error_message(m)), OmDeterministicEvidenceKind::ErrorSignal)
        + evidence_at(ms, last_where(ms, |m: OmPendingMessage| has_text(m)), OmDeterministicEvidenceKind::ObservationLine)
}

/// Confidence of the deterministic observer.
pub open spec fn deterministic_confidence(active: Seq<char>, ms: Seq<OmPendingMessage>, max_chars: int) -> u16 {
    let t = last_where(ms, |m: OmPendingMessage| is_task_message(m));
    confidence(
        if t >= 0 {
            task_phrase(ms[t].text@)
        } else {
            None
        },
        last_where(ms, |m: OmPendingMessage| is_error_message(m)) >= 0,
        trim(synthesized_observations(active, ms, max_chars)).len() > 0,
    )
}

fn evidence_entry(m: &OmPendingMessage, kind: OmDeterministicEvidenceKind) -> (r: Option<OmDeterministicEvidence>)
    ensures
        match r {
            Some(e) => message_id(m.id@) is Some && evidence_view(e) == (trim(m.id@), collapse_ws(m.role@), kind, excerpt(m.text@, 120)),
            None => message_id(m.id@) is None,
        },
{
    match normalize_message_id(m.id.as_str()) {
        Some(id) => Some(
            OmDeterministicEvidence {
                message_id: chars_to_string(id.as_slice()),
                role: normalize_whitespace(m.role.as_str()),
                kind,
                excerpt: short_excerpt(m.text.as_str(), 120),
            },
        ),
        None => None,
    }
}

fn push_evidence(evidence: &mut Vec<OmDeterministicEvidence>, ms: &[OmPendingMessage], at: Option<usize>, kind: OmDeterministicEvidenceKind)
    requires
        at matches Some(k) ==> k < ms.len(),
    ensures
        final(evidence)@.map_values(|e: OmDeterministicEvidence| evidence_view(e)) == old(evidence)@.map_values(
            |e: OmDeterministicEvidence| evidence_view(e),
        ) + evidence_at(
            ms@,
            match at {
                Some(k) => k as int,
                None => -1,
            },
            kind,
        ),
{
    let ghost before = evidence@.map_values(|e: OmDeterministicEvidence| evidence_view(e));
    match at {
        Some(k) => match evidence_entry(&ms[k], kind) {
            Some(e) => {
                evidence.push(e);
                assert(evidence@.map_values(|e: OmDeterministicEvidence| evidence_view(e)) =~= before
                    + evidence_at(ms@, k as int, kind));
            },
            None => {
                assert(before + evidence_at(ms@, k as int, kind) =~= before);
            },
        },
        None => {
            assert(before + evidence_at(ms@, -1, kind) =~= before);
        },
    }
}

pub fn infer_deterministic_observer_response(active_observations: &str, pending_messages: &[OmPendingMessage], max_chars: usize) -> (r: OmDeterministicObserverResponseV2)
    ensures
        r.observations@ == synthesized_observations(active_observations@, pending_messages@, max_chars as int),
        r.observation_token_count == estimate_tokens(r.observations@),
        string_views(r.observed_message_ids@) == observed_ids(pending_messages@),
        r.confidence_milli == deterministic_confidence(active_observations@, pending_messages@, max_chars as int),
        opt_string(r.current_task) == if r.confidence_milli < ContinuationPolicyV2::default_policy().min_confidence_milli_for_task {
            None
        } else {
            continuation(pending_messages@).0
        },
        opt_string(r.suggested_response) == if r.confidence_milli
            < ContinuationPolicyV2::default_policy().min_confidence_milli_for_suggested_response {
            None
        } else {
            continuation(pending_messages@).1
        },
        r.evidence@.map_values(|e: OmDeterministicEvidence| evidence_view(e)) == deterministic_evidence(pending_messages@),
{
    let observations = synthesize_observer_observations(active_observations, pending_messages, max_chars);
    let observation_token_count = estimate_text_tokens(observations.as_str());
    let observed_message_ids = collect_observed_message_ids(pending_messages);
    let task_signal = find_latest_task_signal(pending_messages);
    let error_signal = find_latest_error_signal(pending_messages);
    let (mut current_task, mut suggested_response) = infer_deterministic_continuation(pending_messages);
    let obs_chars = str_to_chars(observations.as_str());
    let has_observation = !crate::text::is_blank(obs_chars.as_slice());
    let confidence_milli = match &task_signal {
        Some((_, task)) => {
            let t = str_to_chars(task.as_str());
            compute_confidence_milli(Some(t.as_slice()), error_signal.is_some(), has_observation)
        },
        None => compute_confidence_milli(None, error_signal.is_some(), has_observation),
    };
    let policy = ContinuationPolicyV2::default();
    if confidence_milli < policy.min_confidence_milli_for_task {
        current_task = None;
    }
    if confidence_milli < policy.min_confidence_milli_for_suggested_response {
        suggested_response = None;
    }
    let task_at: Option<usize> = match &task_signal {
        Some((k, _)) => Some(*k),
        None => None,
    };
    proof {
        let p = |m: OmPendingMessage| is_task_message(m);
        let t = last_where(pending_messages@, p);
        if t >= 0 {
            assert(task_at matches Some(k) && k == t);
        }
    }
    let mut evidence: Vec<OmDeterministicEvidence> = Vec::new();
    assert(evidence@.map_values(|e: OmDeterministicEvidence| evidence_view(e)) =~= Seq::empty());
    push_evidence(&mut evidence, pending_messages, task_at, OmDeterministicEvidenceKind::TaskSignal);
    push_evidence(&mut evidence, pending_messages, error_signal, OmDeterministicEvidenceKind::ErrorSignal);
    let text_at = find_last_message_with_text(pending_messages);
    push_evidence(&mut evidence, pending_messages, text_at, OmDeterministicEvidenceKind::ObservationLine);
    OmDeterministicObserverResponseV2 {
        observations,
        observation_token_count,
        observed_message_ids,
        current_task,
        suggested_response,
        confidence_milli,
        evidence,
    }
}


// ---------------------------------------------------------------------------
// Laws
// ---------------------------------------------------------------------------

/// The synthesized observations never exceed `max_chars` characters.
pub proof fn law_synthesis_within_budget(active: Seq<char>, ms: Seq<OmPendingMessage>, max_chars: int)
    requires
        max_chars >= 0,
    ensures
        synthesized_observations(active, ms, max_chars).len() <= max_chars,
{
}

proof fn lemma_candidate_line_nonempty(m: OmPendingMessage)
    ensures
        candidate_line(m) matches Some(l) ==> l.len() > 0,
{
}

proof fn lemma_kept_lines_nonempty(existing: Seq<Seq<char>>, ms: Seq<OmPendingMessage>)
    ensures
        forall|i: int| 0 <= i < kept_lines(existing, ms).1.len() ==> #[trigger] kept_lines(existing, ms).1[i].len() > 0,
    decreases ms.len(),
{
    if ms.len() > 0 {
        lemma_kept_lines_nonempty(existing, ms.drop_last());
        lemma_candidate_line_nonempty(ms.last());
        let out = kept_lines(existing, ms.drop_last()).1;
        let r = kept_lines(existing, ms).1;
        assert(r == out || (candidate_line(ms.last()) is Some && r == out.push(candidate_line(ms.last())->0)));
        assert forall|i: int| 0 <= i < r.len() implies #[trigger] r[i].len() > 0 by {
            if i < out.len() {
                assert(r[i] == out[i]);
            }
        }
    }
}

proof fn lemma_first_candidate_found(ms: Seq<OmPendingMessage>, i: int)
    requires
        0 <= i < ms.len(),
        has_text(ms[i]),
    ensures
        first_candidate(ms) matches Some(l) && l.len() > 0,
    decreases ms.len(),
{
    lemma_candidate_line_nonempty(ms[0]);
    if candidate_line(ms[0]) is None {
        assert(ms.drop_first()[i - 1] == ms[i]);
        lemma_first_candidate_found(ms.drop_first(), i - 1);
    }
}

/// Forward progress: with a positive budget and a pending message that has
/// text, the observer always produces something, even when every line was a
/// duplicate.
pub proof fn law_synthesis_forward_progress(active: Seq<char>, ms: Seq<OmPendingMessage>, max_chars: int, i: int)
    requires
        max_chars > 0,
        0 <= i < ms.len(),
        has_text(ms[i]),
    ensures
        synthesized_observations(active, ms, max_chars).len() > 0,
{
    let existing = crate::text::lines(active).map_values(|l: Seq<char>| collapse_ws(l));
    let out = kept_lines(existing, ms).1;
    lemma_kept_lines_nonempty(existing, ms);
    lemma_first_candidate_found(ms, i);
    let chosen = if out.len() == 0 {
        seq![first_candidate(ms)->0]
    } else {
        out
    };
    assert(chosen[0].len() > 0);
    crate::text::lemma_join_first_len(chosen, "\n"@);
}

/// The deterministic confidence never exceeds 1000.
pub proof fn law_confidence_bounded(task: Option<Seq<char>>, has_error: bool, has_observation: bool)
    ensures
        confidence(task, has_error, has_observation) <= 1000,
        task is None && !has_observation ==> confidence(task, has_error, has_observation) == 0,
{
}


/// What the kept lines carry: each kept line's normalised form, pairwise
/// different and none among the active lines; each kept line is the line of
/// some message; and every message line whose normalised form is new has
/// that form kept.
proof fn lemma_kept_lines_facts(existing: Seq<Seq<char>>, ms: Seq<OmPendingMessage>)
    ensures
        ({
            let (seen, out) = kept_lines(existing, ms);
            &&& seen.len() == out.len()
            &&& forall|i: int| 0 <= i < out.len() ==> #[trigger] seen[i] == collapse_ws(out[i])
            &&& seen.no_duplicates()
            &&& forall|i: int| 0 <= i < seen.len() ==> !existing.contains(#[trigger] seen[i])
            &&& forall|i: int| #![trigger out[i]] 0 <= i < out.len() ==> exists|k: int| 0 <= k < ms.len() && candidate_line(#[trigger] ms[k]) == Some(out[i])
            &&& forall|k: int| 0 <= k < ms.len() && (#[trigger] candidate_line(ms[k])) is Some
                && collapse_ws(candidate_line(ms[k])->0).len() > 0 && !existing.contains(collapse_ws(candidate_line(ms[k])->0))
                ==> seen.contains(collapse_ws(candidate_line(ms[k])->0))
        }),
    decreases ms.len(),
{
    if ms.len() > 0 {
        let u = ms.drop_last();
        lemma_kept_lines_facts(existing, u);
        let (seen0, out0) = kept_lines(existing, u);
        let (seen, out) = kept_lines(existing, ms);
        let last = ms.last();
        assert forall|k: int| 0 <= k < u.len() implies #[trigger] u[k] == ms[k] by {}
        assert forall|i: int| #![trigger out[i]] 0 <= i < out.len() implies exists|k: int| 0 <= k < ms.len() && candidate_line(#[trigger] ms[k]) == Some(out[i]) by {
            if i < out0.len() {
                assert(out[i] == out0[i]);
                let k = choose|k: int| 0 <= k < u.len() && candidate_line(#[trigger] u[k]) == Some(out0[i]);
                assert(candidate_line(ms[k]) == Some(out[i]));
            } else {
                assert(candidate_line(ms[ms.len() - 1]) == Some(out[i]));
            }
        }
        assert forall|k: int| 0 <= k < ms.len() && (#[trigger] candidate_line(ms[k])) is Some
            && collapse_ws(candidate_line(ms[k])->0).len() > 0 && !existing.contains(collapse_ws(candidate_line(ms[k])->0))
            implies seen.contains(collapse_ws(candidate_line(ms[k])->0)) by {
            let n = collapse_ws(candidate_line(ms[k])->0);
            if k < u.len() {
                assert(candidate_line(u[k]) == candidate_line(ms[k]));
                assert(seen0.contains(n));
                let w = choose|w: int| 0 <= w < seen0.len() && seen0[w] == n;
                assert(seen[w] == n);
            } else {
                if !seen0.contains(n) {
                    assert(seen[seen.len() - 1] == n);
                } else {
                    let w = choose|w: int| 0 <= w < seen0.len() && seen0[w] == n;
                    assert(seen[w] == n);
                }
            }
        }
        if seen.len() > seen0.len() {
            let n = seen[seen.len() - 1];
            assert(!seen0.contains(n));
            assert forall|i: int, j: int| 0 <= i < seen.len() && 0 <= j < seen.len() && i != j implies seen[i] != seen[j] by {
                if i == seen0.len() {
                    assert(seen0.contains(seen0[j]));
                } else if j == seen0.len() {
                    assert(seen0.contains(seen0[i]));
                } else {
                    assert(seen[i] == seen0[i] && seen[j] == seen0[j]);
                }
            }
        }
    }
}

/// The kept lines come from the messages in their order.
proof fn lemma_kept_lines_order(existing: Seq<Seq<char>>, ms: Seq<OmPendingMessage>) -> (idx: Seq<int>)
    ensures
        idx.len() == kept_lines(existing, ms).1.len(),
        forall|i: int| 0 <= i < idx.len() ==> 0 <= #[trigger] idx[i] < ms.len()
            && candidate_line(ms[idx[i]]) == Some(kept_lines(existing, ms).1[i]),
        forall|a: int, b: int| 0 <= a < b < idx.len() ==> #[trigger] idx[a] < #[trigger] idx[b],
    decreases ms.len(),
{
    if ms.len() == 0 {
        Seq::empty()
    } else {
        let u = ms.drop_last();
        let prev = lemma_kept_lines_order(existing, u);
        let out0 = kept_lines(existing, u).1;
        let out = kept_lines(existing, ms).1;
        if out.len() > out0.len() {
            let idx = prev.push(ms.len() - 1);
            assert forall|i: int| 0 <= i < idx.len() implies 0 <= #[trigger] idx[i] < ms.len()
                && candidate_line(ms[idx[i]]) == Some(out[i]) by {
                if i < prev.len() {
                    assert(idx[i] == prev[i]);
                    assert(ms[prev[i]] == u[prev[i]]);
                    assert(out[i] == out0[i]);
                }
            }
            assert forall|a: int, b: int| 0 <= a < b < idx.len() implies #[trigger] idx[a] < #[trigger] idx[b] by {
                assert(idx[a] == prev[a]);
                if b < prev.len() {
                    assert(idx[b] == prev[b]);
                }
            }
            idx
        } else {
            assert forall|i: int| 0 <= i < prev.len() implies 0 <= #[trigger] prev[i] < ms.len()
                && candidate_line(ms[prev[i]]) == Some(out[i]) by {
                assert(ms[prev[i]] == u[prev[i]]);
            }
            prev
        }
    }
}

proof fn lemma_first_candidate_is_line(ms: Seq<OmPendingMessage>)
    ensures
        first_candidate(ms) matches Some(l) ==> exists|k: int| 0 <= k < ms.len() && candidate_line(#[trigger] ms[k]) == Some(l)
            && (forall|i: int| 0 <= i < k ==> (#[trigger] candidate_line(ms[i])) is None),
    decreases ms.len(),
{
    if ms.len() > 0 {
        if candidate_line(ms[0]) is None {
            lemma_first_candidate_is_line(ms.drop_first());
            if first_candidate(ms) is Some {
                let k = choose|k: int| 0 <= k < ms.drop_first().len() && candidate_line(#[trigger] ms.drop_first()[k]) == first_candidate(ms)
                    && (forall|i: int| 0 <= i < k ==> (#[trigger] candidate_line(ms.drop_first()[i])) is None);
                assert(ms[k + 1] == ms.drop_first()[k]);
                assert forall|i: int| 0 <= i < k + 1 implies (#[trigger] candidate_line(ms[i])) is None by {
                    if i > 0 {
                        assert(ms[i] == ms.drop_first()[i - 1]);
                    }
                }
            }
        } else {
            assert(candidate_line(ms[0]) == first_candidate(ms));
        }
    }
}

/// The normalised forms of the active observation lines.
pub open spec fn active_line_forms(active: Seq<char>) -> Seq<Seq<char>> {
    crate::text::lines(active).map_values(|l: Seq<char>| collapse_ws(l))
}

/// The synthesized observations are lines of the pending messages, in
/// message order, joined by newlines and cut to `max_chars`: no two of the lines have the same
/// whitespace-normalised form; every message line whose normalised form is
/// not already an active observation line appears; and unless a single line
/// stands in for a batch of nothing but repeats, none of them repeats an
/// active observation line; such a stand-in is the line of the first message
/// that has one.
pub proof fn law_synthesis_deduplicates(active: Seq<char>, ms: Seq<OmPendingMessage>, max_chars: int)
    ensures
        exists|ls: Seq<Seq<char>>| {
            &&& synthesized_observations(active, ms, max_chars) == take_chars(crate::text::join(ls, "\n"@), max_chars)
            &&& forall|i: int, j: int| 0 <= i < j < ls.len() ==> collapse_ws(#[trigger] ls[i]) != collapse_ws(#[trigger] ls[j])
            &&& forall|i: int| #![trigger ls[i]] 0 <= i < ls.len() ==> exists|k: int| 0 <= k < ms.len() && candidate_line(#[trigger] ms[k]) == Some(ls[i])
            &&& forall|k: int| 0 <= k < ms.len() && (#[trigger] candidate_line(ms[k])) is Some
                && collapse_ws(candidate_line(ms[k])->0).len() > 0
                && !active_line_forms(active).contains(collapse_ws(candidate_line(ms[k])->0))
                ==> exists|i: int| 0 <= i < ls.len() && collapse_ws(#[trigger] ls[i]) == collapse_ws(candidate_line(ms[k])->0)
            &&& ls.len() > 1 ==> forall|i: int| 0 <= i < ls.len() ==> !active_line_forms(active).contains(collapse_ws(#[trigger] ls[i]))
            &&& exists|idx: Seq<int>| idx.len() == ls.len()
                && (forall|i: int| 0 <= i < idx.len() ==> 0 <= #[trigger] idx[i] < ms.len() && candidate_line(ms[idx[i]]) == Some(ls[i]))
                && (forall|a: int, b: int| 0 <= a < b < idx.len() ==> #[trigger] idx[a] < #[trigger] idx[b])
            &&& (ls.len() == 1 && active_line_forms(active).contains(collapse_ws(ls[0]))) ==> exists|k: int|
                0 <= k < ms.len() && candidate_line(#[trigger] ms[k]) == Some(ls[0])
                && (forall|i: int| 0 <= i < k ==> (#[trigger] candidate_line(ms[i])) is None)
        },
{
    let existing = active_line_forms(active);
    lemma_kept_lines_facts(existing, ms);
    lemma_first_candidate_is_line(ms);
    let (seen, out) = kept_lines(existing, ms);
    let order = lemma_kept_lines_order(existing, ms);
    let ls = if out.len() == 0 {
        match first_candidate(ms) {
            Some(l) => seq![l],
            None => Seq::empty(),
        }
    } else {
        out
    };
    if out.len() > 0 {
        assert(order.len() == ls.len() && (forall|i: int| 0 <= i < order.len() ==> 0 <= #[trigger] order[i] < ms.len()
            && candidate_line(ms[order[i]]) == Some(ls[i])));
        assert forall|i: int, j: int| 0 <= i < j < ls.len() implies collapse_ws(#[trigger] ls[i]) != collapse_ws(#[trigger] ls[j]) by {
            assert(seen[i] == collapse_ws(out[i]) && seen[j] == collapse_ws(out[j]));
        }
        assert forall|k: int| 0 <= k < ms.len() && (#[trigger] candidate_line(ms[k])) is Some
            && collapse_ws(candidate_line(ms[k])->0).len() > 0
            && !existing.contains(collapse_ws(candidate_line(ms[k])->0))
            implies exists|i: int| 0 <= i < ls.len() && collapse_ws(#[trigger] ls[i]) == collapse_ws(candidate_line(ms[k])->0) by {
            let n = collapse_ws(candidate_line(ms[k])->0);
            assert(seen.contains(n));
            let w = choose|w: int| 0 <= w < seen.len() && seen[w] == n;
            assert(collapse_ws(ls[w]) == n);
        }
        assert forall|i: int| 0 <= i < ls.len() implies !existing.contains(collapse_ws(#[trigger] ls[i])) by {
            assert(seen[i] == collapse_ws(out[i]));
        }
    } else {
        assert forall|k: int| 0 <= k < ms.len() && (#[trigger] candidate_line(ms[k])) is Some
            && collapse_ws(candidate_line(ms[k])->0).len() > 0
            && !existing.contains(collapse_ws(candidate_line(ms[k])->0))
            implies exists|i: int| 0 <= i < ls.len() && collapse_ws(#[trigger] ls[i]) == collapse_ws(candidate_line(ms[k])->0) by {
            assert(seen.contains(collapse_ws(candidate_line(ms[k])->0)));
        }
        if first_candidate(ms) is Some {
            let k = choose|k: int| 0 <= k < ms.len() && candidate_line(#[trigger] ms[k]) == first_candidate(ms)
                && (forall|i: int| 0 <= i < k ==> (#[trigger] candidate_line(ms[i])) is None);
            let idx = seq![k];
            assert(idx.len() == ls.len() && (forall|i: int| 0 <= i < idx.len() ==> 0 <= #[trigger] idx[i] < ms.len()
                && candidate_line(ms[idx[i]]) == Some(ls[i])));
            assert forall|i: int| #![trigger ls[i]] 0 <= i < ls.len() implies exists|k: int| 0 <= k < ms.len() && candidate_line(#[trigger] ms[k]) == Some(ls[i]) by {
                assert(ls[i] == first_candidate(ms)->0);
            }
        }
    }
    assert(synthesized_observations(active, ms, max_chars) == take_chars(crate::text::join(ls, "\n"@), max_chars));
}

} // verus!
