//! Choosing the messages the observer reads.

use vstd::prelude::*;
use crate::sorting::{chars_less, chars_lt, lemma_chars_lt_irreflexive, lemma_chars_lt_total, lemma_chars_lt_transitive};
use crate::text::{
    chars_eq, chars_of_string_slice, opt_string, str_to_chars, string_chars, string_views, trim,
    trim_exec, views, seqs_contains,
};
use crate::transform::types::OmObserverMessageCandidate;

verus! {

/// A message candidate with its texts as sequences.
pub struct CandidateView {
    pub id: Seq<char>,
    pub role: Seq<char>,
    pub text: Seq<char>,
    pub created_at: i128,
    pub source_thread_id: Option<Seq<char>>,
    pub source_session_id: Option<Seq<char>>,
}

pub open spec fn candidate_view(c: OmObserverMessageCandidate) -> CandidateView {
    CandidateView {
        id: c.id@,
        role: c.role@,
        text: c.text@,
        created_at: c.created_at,
        source_thread_id: opt_string(c.source_thread_id),
        source_session_id: opt_string(c.source_session_id),
    }
}

pub open spec fn candidate_views(cs: Seq<OmObserverMessageCandidate>) -> Seq<CandidateView> {
    cs.map_values(|c: OmObserverMessageCandidate| candidate_view(c))
}

pub fn copy_candidate(c: &OmObserverMessageCandidate) -> (r: OmObserverMessageCandidate)
    ensures
        candidate_view(r) == candidate_view(*c),
{
    OmObserverMessageCandidate {
        id: c.id.clone(),
        role: c.role.clone(),
        text: c.text.clone(),
        created_at: c.created_at,
        source_thread_id: match &c.source_thread_id {
            Some(s) => Some(s.clone()),
            None => None,
        },
        source_session_id: match &c.source_session_id {
            Some(s) => Some(s.clone()),
            None => None,
        },
    }
}

/// `Option<String>` order: none first, then by text.
pub open spec fn opt_chars_lt(a: Option<Seq<char>>, b: Option<Seq<char>>) -> bool {
    match (a, b) {
        (None, Some(_)) => true,
        (Some(x), Some(y)) => chars_lt(x, y),
        _ => false,
    }
}

/// `a` sorts strictly before `b`: by creation time, then (when asked) by
/// source session, then by id.
pub open spec fn candidate_before(a: CandidateView, b: CandidateView, by_session: bool) -> bool {
    if a.created_at != b.created_at {
        a.created_at < b.created_at
    } else if by_session && a.source_session_id != b.source_session_id {
        opt_chars_lt(a.source_session_id, b.source_session_id)
    } else {
        chars_lt(a.id, b.id)
    }
}

fn opt_eq(a: &Option<String>, b: &Option<String>) -> (r: bool)
    ensures
        r == (opt_string(*a) == opt_string(*b)),
{
    match (a, b) {
        (Some(x), Some(y)) => {
            let xc = string_chars(x);
            let yc = string_chars(y);
            chars_eq(xc.as_slice(), yc.as_slice())
        },
        (None, None) => true,
        _ => false,
    }
}

fn opt_less(a: &Option<String>, b: &Option<String>) -> (r: bool)
    ensures
        r == opt_chars_lt(opt_string(*a), opt_string(*b)),
{
    match (a, b) {
        (None, Some(_)) => true,
        (Some(x), Some(y)) => {
            let xc = string_chars(x);
            let yc = string_chars(y);
            chars_less(xc.as_slice(), yc.as_slice())
        },
        _ => false,
    }
}

fn candidate_before_exec(a: &OmObserverMessageCandidate, b: &OmObserverMessageCandidate, by_session: bool) -> (r: bool)
    ensures
        r == candidate_before(candidate_view(*a), candidate_view(*b), by_session),
{
    if a.created_at != b.created_at {
        a.created_at < b.created_at
    } else if by_session && !opt_eq(&a.source_session_id, &b.source_session_id) {
        opt_less(&a.source_session_id, &b.source_session_id)
    } else {
        let ai = string_chars(&a.id);
        let bi = string_chars(&b.id);
        chars_less(ai.as_slice(), bi.as_slice())
    }
}

/// Inserts `x` after every candidate that does not sort strictly after it.
pub open spec fn insert_candidate(t: Seq<CandidateView>, x: CandidateView, by_session: bool) -> Seq<CandidateView>
    decreases t.len(),
{
    if t.len() > 0 && candidate_before(x, t.last(), by_session) {
        insert_candidate(t.drop_last(), x, by_session).push(t.last())
    } else {
        t.push(x)
    }
}

/// Stable sort of the candidates (`sort_by`).
pub open spec fn sort_candidates(s: Seq<CandidateView>, by_session: bool) -> Seq<CandidateView>
    decreases s.len(),
{
    if s.len() == 0 {
        Seq::empty()
    } else {
        insert_candidate(sort_candidates(s.drop_last(), by_session), s.last(), by_session)
    }
}

proof fn lemma_insert_candidate_at(t: Seq<CandidateView>, x: CandidateView, by_session: bool, k: int)
    requires
        0 <= k <= t.len(),
        forall|j: int| k <= j < t.len() ==> candidate_before(x, #[trigger] t[j], by_session),
        k > 0 ==> !candidate_before(x, t[k - 1], by_session),
    ensures
        insert_candidate(t, x, by_session) == t.insert(k, x),
    decreases t.len(),
{
    if k == t.len() {
        assert(t.push(x) =~= t.insert(k, x));
    } else {
        assert(candidate_before(x, t[t.len() - 1], by_session));
        let u = t.drop_last();
        assert forall|j: int| k <= j < u.len() implies candidate_before(x, #[trigger] u[j], by_session) by {
            assert(u[j] == t[j]);
        }
        if k > 0 {
            assert(u[k - 1] == t[k - 1]);
        }
        lemma_insert_candidate_at(u, x, by_session, k);
        assert(u.insert(k, x).push(t.last()) =~= t.insert(k, x));
    }
}

/// Sorts the candidates, consuming them.
pub fn sort_candidates_exec(items: Vec<OmObserverMessageCandidate>, by_session: bool) -> (r: Vec<OmObserverMessageCandidate>)
    ensures
        candidate_views(r@) == sort_candidates(candidate_views(items@), by_session),
{
    let ghost s = candidate_views(items@);
    let mut rest = items;
    let mut out: Vec<OmObserverMessageCandidate> = Vec::new();
    let ghost mut i: int = 0;
    assert(s.skip(0) =~= s);
    while rest.len() > 0
        invariant
            0 <= i <= s.len(),
            candidate_views(rest@) == s.skip(i),
            candidate_views(out@) == sort_candidates(s.take(i), by_session),
        decreases rest.len(),
    {
        let ghost old_rest = rest@;
        let ghost rv = candidate_views(rest@);
        let x = rest.remove(0);
        proof {
            assert(x == old_rest[0]);
            assert(rv[0] == candidate_view(old_rest[0]));
            assert(rest@ =~= old_rest.skip(1));
            assert(candidate_views(rest@) =~= rv.skip(1));
            assert(rv[0] == s[i]);
            assert(candidate_views(rest@) =~= s.skip(i + 1));
            assert(s.take(i + 1).drop_last() =~= s.take(i));
            assert(s.take(i + 1).last() == s[i]);
        }
        let ghost t = candidate_views(out@);
        let mut k: usize = out.len();
        while k > 0 && candidate_before_exec(&x, &out[k - 1], by_session)
            invariant
                k <= out.len(),
                t == candidate_views(out@),
                forall|j: int| k <= j < t.len() ==> candidate_before(candidate_view(x), #[trigger] t[j], by_session),
            decreases k,
        {
            k -= 1;
        }
        proof {
            lemma_insert_candidate_at(t, candidate_view(x), by_session, k as int);
        }
        let ghost xv = candidate_view(x);
        out.insert(k, x);
        assert(candidate_views(out@) =~= t.insert(k as int, xv));
        proof {
            i = i + 1;
        }
    }
    assert(s.take(i) =~= s);
    out
}

/// The candidates satisfying `p`, in order.
pub open spec fn keep_candidates(s: Seq<CandidateView>, p: spec_fn(CandidateView) -> bool) -> Seq<CandidateView>
    decreases s.len(),
{
    if s.len() == 0 {
        Seq::empty()
    } else if p(s.last()) {
        keep_candidates(s.drop_last(), p).push(s.last())
    } else {
        keep_candidates(s.drop_last(), p)
    }
}

/// Candidates with a non-blank id not among the observed ids, sorted by
/// time, source session and id, the latest `max_messages` of them.
pub open spec fn observer_selection(s: Seq<CandidateView>, observed: Seq<Seq<char>>, max_messages: usize) -> Seq<CandidateView> {
    let sorted = sort_candidates(
        keep_candidates(s, |c: CandidateView| trim(c.id).len() > 0 && !observed.contains(c.id)),
        true,
    );
    if max_messages == 0 {
        Seq::empty()
    } else if sorted.len() > max_messages {
        sorted.skip(sorted.len() - max_messages)
    } else {
        sorted
    }
}

pub fn select_observer_message_candidates(candidates: &[OmObserverMessageCandidate], observed_message_ids: &[String], max_messages: usize) -> (r: Vec<OmObserverMessageCandidate>)
    ensures
        candidate_views(r@) == observer_selection(candidate_views(candidates@), string_views(observed_message_ids@), max_messages),
{
    if max_messages == 0 {
        let r: Vec<OmObserverMessageCandidate> = Vec::new();
        assert(candidate_views(r@) =~= Seq::<CandidateView>::empty());
        return r;
    }
    let observed = chars_of_string_slice(observed_message_ids);
    let ghost s = candidate_views(candidates@);
    let ghost ov = string_views(observed_message_ids@);
    assert(views(observed@) == ov);
    let ghost p = |c: CandidateView| trim(c.id).len() > 0 && !ov.contains(c.id);
    let mut filtered: Vec<OmObserverMessageCandidate> = Vec::new();
    let mut i: usize = 0;
    while i < candidates.len()
        invariant
            i <= candidates.len(),
            s == candidate_views(candidates@),
            views(observed@) == ov,
            p == (|c: CandidateView| trim(c.id).len() > 0 && !ov.contains(c.id)),
            candidate_views(filtered@) == keep_candidates(s.take(i as int), p),
        decreases candidates.len() - i,
    {
        proof {
            assert(s.take(i + 1).drop_last() =~= s.take(i as int));
            assert(s.take(i + 1).last() == s[i as int]);
            assert(s[i as int] == candidate_view(candidates@[i as int]));
        }
        let ghost before = candidate_views(filtered@);
        let id = string_chars(&candidates[i].id);
        let t = trim_exec(id.as_slice());
        if t.len() > 0 && !seqs_contains(&observed, id.as_slice()) {
            filtered.push(copy_candidate(&candidates[i]));
            assert(candidate_views(filtered@) =~= before.push(s[i as int]));
        }
        i += 1;
    }
    assert(s.take(candidates.len() as int) =~= s);
    let mut sorted = sort_candidates_exec(filtered, true);
    if sorted.len() > max_messages {
        let ghost sv = candidate_views(sorted@);
        let tail = sorted.split_off(sorted.len() - max_messages);
        assert(candidate_views(tail@) =~= sv.skip(sv.len() - max_messages));
        return tail;
    }
    sorted
}

/// Candidates created at or after the cutoff; all of them without one.
pub fn filter_observer_candidates_by_last_observed_at(candidates: &[OmObserverMessageCandidate], last_observed_at: Option<i128>) -> (r: Vec<OmObserverMessageCandidate>)
    ensures
        candidate_views(r@) == match last_observed_at {
            Some(cutoff) => keep_candidates(candidate_views(candidates@), |c: CandidateView| c.created_at >= cutoff),
            None => candidate_views(candidates@),
        },
{
    let ghost s = candidate_views(candidates@);
    let ghost p = match last_observed_at {
        Some(cutoff) => |c: CandidateView| c.created_at >= cutoff,
        None => |c: CandidateView| true,
    };
    let mut out: Vec<OmObserverMessageCandidate> = Vec::new();
    let mut i: usize = 0;
    while i < candidates.len()
        invariant
            i <= candidates.len(),
            s == candidate_views(candidates@),
            p == (match last_observed_at {
                Some(cutoff) => |c: CandidateView| c.created_at >= cutoff,
                None => |c: CandidateView| true,
            }),
            candidate_views(out@) == keep_candidates(s.take(i as int), p),
        decreases candidates.len() - i,
    {
        proof {
            assert(s.take(i + 1).drop_last() =~= s.take(i as int));
            assert(s.take(i + 1).last() == s[i as int]);
            assert(s[i as int] == candidate_view(candidates@[i as int]));
        }
        let ghost before = candidate_views(out@);
        let keep = match last_observed_at {
            Some(cutoff) => candidates[i].created_at >= cutoff,
            None => true,
        };
        if keep {
            out.push(copy_candidate(&candidates[i]));
            assert(candidate_views(out@) =~= before.push(s[i as int]));
        }
        i += 1;
    }
    assert(s.take(candidates.len() as int) =~= s);
    proof {
        if last_observed_at is None {
            lemma_keep_all(s);
        }
    }
    out
}

proof fn lemma_keep_all(s: Seq<CandidateView>)
    ensures
        keep_candidates(s, |c: CandidateView| true) == s,
    decreases s.len(),
{
    if s.len() > 0 {
        lemma_keep_all(s.drop_last());
        assert(s.drop_last().push(s.last()) =~= s);
    }
}

/// Trimmed non-empty session id.
pub open spec fn session_ident(o: Option<Seq<char>>) -> Option<Seq<char>> {
    match o {
        Some(t) => if trim(t).len() == 0 {
            None
        } else {
            Some(trim(t))
        },
        None => None,
    }
}

/// A candidate belongs to the current conversation unless both it and the
/// current session have a (trimmed, non-empty) session id and they differ.
pub open spec fn is_pending_candidate(c: CandidateView, current: Option<Seq<char>>) -> bool {
    match (session_ident(current), session_ident(c.source_session_id)) {
        (Some(cur), Some(src)) => src == cur,
        _ => true,
    }
}

fn session_ident_exec(o: Option<&str>) -> (r: Option<Vec<char>>)
    ensures
        match r {
            Some(v) => session_ident(
                match o {
                    Some(s) => Some(s@),
                    None => None,
                },
            ) == Some(v@),
            None => session_ident(
                match o {
                    Some(s) => Some(s@),
                    None => None,
                },
            ) is None,
        },
{
    match o {
        Some(s) => {
            let c = str_to_chars(s);
            let t = trim_exec(c.as_slice());
            if t.len() == 0 {
                None
            } else {
                Some(t)
            }
        },
        None => None,
    }
}

pub open spec fn opt_str_view(o: Option<&str>) -> Option<Seq<char>> {
    match o {
        Some(s) => Some(s@),
        None => None,
    }
}

pub fn split_pending_and_other_conversation_candidates(candidates: &[OmObserverMessageCandidate], current_session_id: Option<&str>) -> (r: (Vec<OmObserverMessageCandidate>, Vec<OmObserverMessageCandidate>))
    ensures
        candidate_views(r.0@) == keep_candidates(
            candidate_views(candidates@),
            |c: CandidateView| is_pending_candidate(c, opt_str_view(current_session_id)),
        ),
        candidate_views(r.1@) == keep_candidates(
            candidate_views(candidates@),
            |c: CandidateView| !is_pending_candidate(c, opt_str_view(current_session_id)),
        ),
{
    let ghost s = candidate_views(candidates@);
    let ghost cur = opt_str_view(current_session_id);
    let ghost p = |c: CandidateView| is_pending_candidate(c, cur);
    let ghost q = |c: CandidateView| !is_pending_candidate(c, cur);
    let current = session_ident_exec(current_session_id);
    let mut pending: Vec<OmObserverMessageCandidate> = Vec::new();
    let mut others: Vec<OmObserverMessageCandidate> = Vec::new();
    let mut i: usize = 0;
    while i < candidates.len()
        invariant
            i <= candidates.len(),
            s == candidate_views(candidates@),
            p == (|c: CandidateView| is_pending_candidate(c, cur)),
            q == (|c: CandidateView| !is_pending_candidate(c, cur)),
            match current {
                Some(v) => session_ident(cur) == Some(v@),
                None => session_ident(cur) is None,
            },
            candidate_views(pending@) == keep_candidates(s.take(i as int), p),
            candidate_views(others@) == keep_candidates(s.take(i as int), q),
        decreases candidates.len() - i,
    {
        proof {
            assert(s.take(i + 1).drop_last() =~= s.take(i as int));
            assert(s.take(i + 1).last() == s[i as int]);
            assert(s[i as int] == candidate_view(candidates@[i as int]));
        }
        let ghost before_p = candidate_views(pending@);
        let ghost before_o = candidate_views(others@);
        let source = match &candidates[i].source_session_id {
            Some(src) => session_ident_exec(Some(src.as_str())),
            None => session_ident_exec(None),
        };
        let is_pending = match (&current, &source) {
            (Some(c), Some(src)) => chars_eq(src.as_slice(), c.as_slice()),
            _ => true,
        };
        if is_pending {
            pending.push(copy_candidate(&candidates[i]));
            assert(candidate_views(pending@) =~= before_p.push(s[i as int]));
        } else {
            others.push(copy_candidate(&candidates[i]));
            assert(candidate_views(others@) =~= before_o.push(s[i as int]));
        }
        i += 1;
    }
    assert(s.take(candidates.len() as int) =~= s);
    (pending, others)
}

/// Candidates whose id is one of the observed ids; all of them when no id
/// was observed.
pub fn select_observed_message_candidates(candidates: &[OmObserverMessageCandidate], observed_message_ids: &[String]) -> (r: Vec<OmObserverMessageCandidate>)
    ensures
        candidate_views(r@) == if observed_message_ids.len() == 0 {
            candidate_views(candidates@)
        } else {
            keep_candidates(
                candidate_views(candidates@),
                |c: CandidateView| string_views(observed_message_ids@).contains(c.id),
            )
        },
{
    let observed = chars_of_string_slice(observed_message_ids);
    let ghost s = candidate_views(candidates@);
    let ghost ov = string_views(observed_message_ids@);
    let empty = observed_message_ids.len() == 0;
    let ghost p = if empty {
        |c: CandidateView| true
    } else {
        |c: CandidateView| ov.contains(c.id)
    };
    let mut out: Vec<OmObserverMessageCandidate> = Vec::new();
    let mut i: usize = 0;
    while i < candidates.len()
        invariant
            i <= candidates.len(),
            s == candidate_views(candidates@),
            views(observed@) == ov,
            p == (if empty {
                |c: CandidateView| true
            } else {
                |c: CandidateView| ov.contains(c.id)
            }),
            candidate_views(out@) == keep_candidates(s.take(i as int), p),
        decreases candidates.len() - i,
    {
        proof {
            assert(s.take(i + 1).drop_last() =~= s.take(i as int));
            assert(s.take(i + 1).last() == s[i as int]);
            assert(s[i as int] == candidate_view(candidates@[i as int]));
        }
        let ghost before = candidate_views(out@);
        let keep = if empty {
            true
        } else {
            let id = string_chars(&candidates[i].id);
            seqs_contains(&observed, id.as_slice())
        };
        if keep {
            out.push(copy_candidate(&candidates[i]));
            assert(candidate_views(out@) =~= before.push(s[i as int]));
        }
        i += 1;
    }
    assert(s.take(candidates.len() as int) =~= s);
    proof {
        if empty {
            lemma_keep_all(s);
        }
    }
    out
}


// ---------------------------------------------------------------------------
// Order and contents of the selection
// ---------------------------------------------------------------------------

/// No candidate sorts strictly before an earlier one.
pub open spec fn candidates_sorted(s: Seq<CandidateView>, by_session: bool) -> bool {
    forall|i: int, j: int| 0 <= i < j < s.len() ==> !candidate_before(#[trigger] s[j], #[trigger] s[i], by_session)
}

proof fn lemma_chars_order(a: Seq<char>, b: Seq<char>, c: Seq<char>)
    ensures
        !chars_lt(a, a),
        a != b ==> (chars_lt(a, b) || chars_lt(b, a)),
        !(chars_lt(a, b) && chars_lt(b, a)),
        chars_lt(a, b) && chars_lt(b, c) ==> chars_lt(a, c),
{
    lemma_chars_lt_irreflexive(a);
    lemma_chars_lt_total(a, b);
    if chars_lt(a, b) && chars_lt(b, c) {
        lemma_chars_lt_transitive(a, b, c);
    }
}

proof fn lemma_opt_order(a: Option<Seq<char>>, b: Option<Seq<char>>, c: Option<Seq<char>>)
    ensures
        !opt_chars_lt(a, a),
        a != b ==> (opt_chars_lt(a, b) || opt_chars_lt(b, a)),
        !(opt_chars_lt(a, b) && opt_chars_lt(b, a)),
        opt_chars_lt(a, b) && opt_chars_lt(b, c) ==> opt_chars_lt(a, c),
{
    match (a, b, c) {
        (Some(x), Some(y), Some(z)) => lemma_chars_order(x, y, z),
        (Some(x), Some(y), None) => lemma_chars_order(x, y, x),
        (Some(x), None, _) => lemma_chars_order(x, x, x),
        (None, Some(y), _) => lemma_chars_order(y, y, y),
        _ => {},
    }
}

/// `candidate_before` is a strict weak order: irreflexive, asymmetric,
/// and its negation is transitive.
proof fn lemma_candidate_before_order(a: CandidateView, b: CandidateView, c: CandidateView, by_session: bool)
    ensures
        !candidate_before(a, a, by_session),
        candidate_before(a, b, by_session) ==> !candidate_before(b, a, by_session),
        !candidate_before(a, b, by_session) && !candidate_before(b, c, by_session) ==> !candidate_before(a, c, by_session),
{
    let (sa, sb, sc) = (a.source_session_id, b.source_session_id, c.source_session_id);
    let (ia, ib, ic) = (a.id, b.id, c.id);
    lemma_opt_order(sa, sb, sc);
    lemma_opt_order(sb, sc, sa);
    lemma_opt_order(sc, sa, sb);
    lemma_opt_order(sa, sc, sb);
    lemma_opt_order(sb, sa, sc);
    lemma_opt_order(sc, sb, sa);
    lemma_chars_order(ia, ib, ic);
    lemma_chars_order(ib, ic, ia);
    lemma_chars_order(ic, ia, ib);
    lemma_chars_order(ia, ic, ib);
    lemma_chars_order(ib, ia, ic);
    lemma_chars_order(ic, ib, ia);
}

proof fn lemma_insert_candidate_index(t: Seq<CandidateView>, x: CandidateView, by_session: bool) -> (k: int)
    ensures
        0 <= k <= t.len(),
        insert_candidate(t, x, by_session) == t.insert(k, x),
    decreases t.len(),
{
    if t.len() > 0 && candidate_before(x, t.last(), by_session) {
        let u = t.drop_last();
        let k = lemma_insert_candidate_index(u, x, by_session);
        assert(u.insert(k, x).push(t.last()) =~= t.insert(k, x));
        k
    } else {
        assert(t.push(x) =~= t.insert(t.len() as int, x));
        t.len() as int
    }
}

proof fn lemma_insert_candidate_sorted(t: Seq<CandidateView>, x: CandidateView, by_session: bool)
    requires
        candidates_sorted(t, by_session),
    ensures
        candidates_sorted(insert_candidate(t, x, by_session), by_session),
        insert_candidate(t, x, by_session).to_multiset() =~= t.to_multiset().insert(x),
    decreases t.len(),
{
    broadcast use vstd::seq_lib::group_to_multiset_ensures;
    let r = insert_candidate(t, x, by_session);
    if t.len() > 0 && candidate_before(x, t.last(), by_session) {
        let u = t.drop_last();
        let last = t.last();
        lemma_insert_candidate_sorted(u, x, by_session);
        let ui = insert_candidate(u, x, by_session);
        let k = lemma_insert_candidate_index(u, x, by_session);
        assert forall|i: int, j: int| 0 <= i < j < r.len() implies !candidate_before(#[trigger] r[j], #[trigger] r[i], by_session) by {
            if j == r.len() - 1 {
                assert(r[j] == last);
                if i == k {
                    assert(r[i] == x);
                    lemma_candidate_before_order(x, last, last, by_session);
                } else if i < k {
                    assert(r[i] == t[i]);
                } else {
                    assert(r[i] == t[i - 1]);
                }
            } else {
                assert(r[i] == ui[i] && r[j] == ui[j]);
            }
        }
        assert(t =~= u.push(last));
        assert(r == ui.push(last));
    } else {
        assert forall|i: int, j: int| 0 <= i < j < r.len() implies !candidate_before(#[trigger] r[j], #[trigger] r[i], by_session) by {
            if j == r.len() - 1 {
                assert(r[j] == x);
                if t.len() > 0 {
                    let last = t.last();
                    if i < t.len() - 1 {
                        assert(!candidate_before(t[t.len() - 1], t[i], by_session));
                        lemma_candidate_before_order(x, last, t[i], by_session);
                    }
                }
            } else {
                assert(r[i] == t[i] && r[j] == t[j]);
            }
        }
    }
}

/// Sorting the candidates orders them and keeps every candidate, as often
/// as it occurs.
pub proof fn law_sort_candidates(s: Seq<CandidateView>, by_session: bool)
    ensures
        candidates_sorted(sort_candidates(s, by_session), by_session),
        sort_candidates(s, by_session).to_multiset() =~= s.to_multiset(),
    decreases s.len(),
{
    broadcast use vstd::seq_lib::group_to_multiset_ensures;
    if s.len() > 0 {
        law_sort_candidates(s.drop_last(), by_session);
        lemma_insert_candidate_sorted(sort_candidates(s.drop_last(), by_session), s.last(), by_session);
        assert(s =~= s.drop_last().push(s.last()));
    }
}

proof fn lemma_keep_candidates(s: Seq<CandidateView>, p: spec_fn(CandidateView) -> bool)
    ensures
        forall|c: CandidateView| #[trigger] keep_candidates(s, p).contains(c) <==> (s.contains(c) && p(c)),
    decreases s.len(),
{
    if s.len() > 0 {
        let u = s.drop_last();
        let last = s.last();
        lemma_keep_candidates(u, p);
        let ku = keep_candidates(u, p);
        let k = keep_candidates(s, p);
        assert(s =~= u.push(last));
        assert forall|c: CandidateView| #[trigger] k.contains(c) implies s.contains(c) && p(c) by {
            let idx = choose|i: int| 0 <= i < k.len() && k[i] == c;
            if p(last) && idx == k.len() - 1 {
                assert(s[s.len() - 1] == c);
            } else {
                assert(ku[idx] == c);
                assert(ku.contains(c));
                let j = choose|j: int| 0 <= j < u.len() && u[j] == c;
                assert(s[j] == c);
            }
        }
        assert forall|c: CandidateView| s.contains(c) && p(c) implies #[trigger] k.contains(c) by {
            let j = choose|j: int| 0 <= j < s.len() && s[j] == c;
            if j == s.len() - 1 {
                assert(k[k.len() - 1] == c);
            } else {
                assert(u[j] == c);
                assert(ku.contains(c));
                let idx = choose|i: int| 0 <= i < ku.len() && ku[i] == c;
                assert(k[idx] == c);
            }
        }
    }
}

/// The observer reads at most `max_messages` candidates, in order of time,
/// source session and id; each is one of the given candidates, with a
/// non-blank id that was not observed yet.
pub proof fn law_observer_selection(s: Seq<CandidateView>, observed: Seq<Seq<char>>, max_messages: usize)
    ensures
        ({
            let r = observer_selection(s, observed, max_messages);
            &&& r.len() <= max_messages
            &&& candidates_sorted(r, true)
            &&& forall|c: CandidateView| #[trigger] r.contains(c) ==> s.contains(c) && trim(c.id).len() > 0 && !observed.contains(c.id)
        }),
{
    broadcast use vstd::seq_lib::group_to_multiset_ensures;
    let p = |c: CandidateView| trim(c.id).len() > 0 && !observed.contains(c.id);
    let kept = keep_candidates(s, p);
    let sorted = sort_candidates(kept, true);
    law_sort_candidates(kept, true);
    lemma_keep_candidates(s, p);
    let r = observer_selection(s, observed, max_messages);
    assert forall|c: CandidateView| #[trigger] r.contains(c) implies s.contains(c) && trim(c.id).len() > 0 && !observed.contains(c.id) by {
        let idx = choose|i: int| 0 <= i < r.len() && r[i] == c;
        if max_messages > 0 && sorted.len() > max_messages {
            assert(sorted[sorted.len() - max_messages + idx] == c);
        } else {
            assert(sorted[idx] == c);
        }
        assert(sorted.contains(c));
        assert(sorted.to_multiset().count(c) > 0);
        assert(kept.contains(c));
        assert(p(c));
    }
    if max_messages > 0 && sorted.len() > max_messages {
        let off = sorted.len() - max_messages;
        assert forall|i: int, j: int| 0 <= i < j < r.len() implies !candidate_before(#[trigger] r[j], #[trigger] r[i], true) by {
            assert(r[i] == sorted[off + i] && r[j] == sorted[off + j]);
        }
    }
}

} // verus!
