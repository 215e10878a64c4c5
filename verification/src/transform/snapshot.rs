//! The search-visible snapshot of a scope's memory and its rendered hint.

use vstd::prelude::*;
use crate::model::{
    OM_SEARCH_VISIBLE_SNAPSHOT_V2_VERSION, OmContinuationStateV2, OmHintPolicyV2,
    OmObservationEntryV2, OmObservationOriginKind, OmObservationPriority, OmSearchVisibleSnapshotV2,
};
use crate::sorting::{chars_less, chars_lt, lemma_chars_lt_irreflexive, lemma_chars_lt_total, lemma_chars_lt_transitive};
use crate::text::{
    chars_eq, chars_of_strings, chars_to_string, collapse_ws, collapse_ws_exec, opt_string,
    seqs_contains, str_to_chars, string_chars, string_views, strings_from, take_chars,
    take_chars_exec, views,
};

verus! {

// ---------------------------------------------------------------------------
// Entries
// ---------------------------------------------------------------------------

/// An observation entry with its texts as character sequences.
pub struct EntryView {
    pub entry_id: Seq<char>,
    pub scope_key: Seq<char>,
    pub thread_id: Seq<char>,
    pub priority: OmObservationPriority,
    pub text: Seq<char>,
    pub source_message_ids: Seq<Seq<char>>,
    pub origin_kind: OmObservationOriginKind,
    pub created_at_rfc3339: Seq<char>,
    pub superseded_by: Option<Seq<char>>,
}

pub open spec fn entry_view(e: OmObservationEntryV2) -> EntryView {
    EntryView {
        entry_id: e.entry_id@,
        scope_key: e.scope_key@,
        thread_id: e.thread_id@,
        priority: e.priority,
        text: e.text@,
        source_message_ids: string_views(e.source_message_ids@),
        origin_kind: e.origin_kind,
        created_at_rfc3339: e.created_at_rfc3339@,
        superseded_by: opt_string(e.superseded_by),
    }
}

pub open spec fn entry_views(es: Seq<OmObservationEntryV2>) -> Seq<EntryView> {
    es.map_values(|e: OmObservationEntryV2| entry_view(e))
}

pub fn copy_entry(e: &OmObservationEntryV2) -> (r: OmObservationEntryV2)
    ensures
        entry_view(r) == entry_view(*e),
{
    let ids = chars_of_strings(&e.source_message_ids);
    OmObservationEntryV2 {
        entry_id: e.entry_id.clone(),
        scope_key: e.scope_key.clone(),
        thread_id: e.thread_id.clone(),
        priority: e.priority,
        text: e.text.clone(),
        source_message_ids: strings_from(&ids),
        origin_kind: e.origin_kind,
        created_at_rfc3339: e.created_at_rfc3339.clone(),
        superseded_by: match &e.superseded_by {
            Some(s) => Some(s.clone()),
            None => None,
        },
    }
}

/// Whitespace-normalised text, or none when blank.
pub open spec fn norm(s: Seq<char>) -> Option<Seq<char>> {
    if collapse_ws(s).len() == 0 {
        None
    } else {
        Some(collapse_ws(s))
    }
}

pub fn normalize_text(value: &str) -> (r: Option<Vec<char>>)
    ensures
        match r {
            Some(v) => norm(value@) == Some(v@),
            None => norm(value@) is None,
        },
{
    let c = str_to_chars(value);
    let n = collapse_ws_exec(c.as_slice());
    if n.len() == 0 {
        None
    } else {
        Some(n)
    }
}

/// `a` sorts strictly before `b`: by creation time (newest first when
/// asked), then by entry id.
pub open spec fn entry_before(a: EntryView, b: EntryView, newest_first: bool) -> bool {
    if a.created_at_rfc3339 != b.created_at_rfc3339 {
        if newest_first {
            chars_lt(b.created_at_rfc3339, a.created_at_rfc3339)
        } else {
            chars_lt(a.created_at_rfc3339, b.created_at_rfc3339)
        }
    } else {
        chars_lt(a.entry_id, b.entry_id)
    }
}

fn entry_before_exec(a: &OmObservationEntryV2, b: &OmObservationEntryV2, newest_first: bool) -> (r: bool)
    ensures
        r == entry_before(entry_view(*a), entry_view(*b), newest_first),
{
    let ac = string_chars(&a.created_at_rfc3339);
    let bc = string_chars(&b.created_at_rfc3339);
    if !chars_eq(ac.as_slice(), bc.as_slice()) {
        if newest_first {
            chars_less(bc.as_slice(), ac.as_slice())
        } else {
            chars_less(ac.as_slice(), bc.as_slice())
        }
    } else {
        let ai = string_chars(&a.entry_id);
        let bi = string_chars(&b.entry_id);
        chars_less(ai.as_slice(), bi.as_slice())
    }
}

/// Inserts `x` after every element that does not sort strictly after it.
pub open spec fn insert_entry(t: Seq<EntryView>, x: EntryView, newest_first: bool) -> Seq<EntryView>
    decreases t.len(),
{
    if t.len() > 0 && entry_before(x, t.last(), newest_first) {
        insert_entry(t.drop_last(), x, newest_first).push(t.last())
    } else {
        t.push(x)
    }
}

/// Stable sort of the entries (`sort_by`, which keeps the order of entries
/// that compare equal).
pub open spec fn sort_entries(s: Seq<EntryView>, newest_first: bool) -> Seq<EntryView>
    decreases s.len(),
{
    if s.len() == 0 {
        Seq::empty()
    } else {
        insert_entry(sort_entries(s.drop_last(), newest_first), s.last(), newest_first)
    }
}

proof fn lemma_insert_entry_at(t: Seq<EntryView>, x: EntryView, newest_first: bool, k: int)
    requires
        0 <= k <= t.len(),
        forall|j: int| k <= j < t.len() ==> entry_before(x, #[trigger] t[j], newest_first),
        k > 0 ==> !entry_before(x, t[k - 1], newest_first),
    ensures
        insert_entry(t, x, newest_first) == t.insert(k, x),
    decreases t.len(),
{
    if k == t.len() {
        assert(t.push(x) =~= t.insert(k, x));
    } else {
        assert(entry_before(x, t[t.len() - 1], newest_first));
        let u = t.drop_last();
        assert forall|j: int| k <= j < u.len() implies entry_before(x, #[trigger] u[j], newest_first) by {
            assert(u[j] == t[j]);
        }
        if k > 0 {
            assert(u[k - 1] == t[k - 1]);
        }
        lemma_insert_entry_at(u, x, newest_first, k);
        assert(u.insert(k, x).push(t.last()) =~= t.insert(k, x));
    }
}

/// Sorts the entries, consuming them.
fn sort_entries_exec(items: Vec<OmObservationEntryV2>, newest_first: bool) -> (r: Vec<OmObservationEntryV2>)
    ensures
        entry_views(r@) == sort_entries(entry_views(items@), newest_first),
{
    let ghost s = entry_views(items@);
    let mut rest = items;
    let mut out: Vec<OmObservationEntryV2> = Vec::new();
    let ghost mut i: int = 0;
    assert(s.skip(0) =~= s);
    while rest.len() > 0
        invariant
            0 <= i <= s.len(),
            entry_views(rest@) == s.skip(i),
            entry_views(out@) == sort_entries(s.take(i), newest_first),
        decreases rest.len(),
    {
        let ghost old_rest = rest@;
        let ghost rv = entry_views(rest@);
        let x = rest.remove(0);
        proof {
            assert(x == old_rest[0]);
            assert(rv[0] == entry_view(old_rest[0]));
            assert(rest@ =~= old_rest.skip(1));
            assert(entry_views(rest@) =~= rv.skip(1));
            assert(rv[0] == s[i]);
            assert(entry_views(rest@) =~= s.skip(i + 1));
            assert(s.take(i + 1).drop_last() =~= s.take(i));
            assert(s.take(i + 1).last() == s[i]);
        }
        let ghost t = entry_views(out@);
        let mut k: usize = out.len();
        while k > 0 && entry_before_exec(&x, &out[k - 1], newest_first)
            invariant
                k <= out.len(),
                t == entry_views(out@),
                forall|j: int| k <= j < t.len() ==> entry_before(entry_view(x), #[trigger] t[j], newest_first),
            decreases k,
        {
            k -= 1;
        }
        proof {
            lemma_insert_entry_at(t, entry_view(x), newest_first, k as int);
        }
        let ghost xv = entry_view(x);
        out.insert(k, x);
        assert(entry_views(out@) =~= t.insert(k as int, xv));
        proof {
            i = i + 1;
        }
    }
    assert(s.take(i) =~= s);
    out
}

/// The entries whose normalised id is not blank, each id kept at its first
/// occurrence.
pub open spec fn dedup_entries(es: Seq<EntryView>) -> Seq<EntryView>
    decreases es.len(),
{
    if es.len() == 0 {
        Seq::empty()
    } else {
        let prev = dedup_entries(es.drop_last());
        let e = es.last();
        match norm(e.entry_id) {
            Some(id) => if entry_ids(prev).contains(id) {
                prev
            } else {
                prev.push(e)
            },
            None => prev,
        }
    }
}

/// Normalised ids of the entries whose id is not blank.
pub open spec fn entry_ids(es: Seq<EntryView>) -> Seq<Seq<char>>
    decreases es.len(),
{
    if es.len() == 0 {
        Seq::empty()
    } else {
        let prev = entry_ids(es.drop_last());
        match norm(es.last().entry_id) {
            Some(id) => prev.push(id),
            None => prev,
        }
    }
}

fn dedup_entries_by_id(entries: &[OmObservationEntryV2]) -> (r: Vec<OmObservationEntryV2>)
    ensures
        entry_views(r@) == dedup_entries(entry_views(entries@)),
{
    let ghost s = entry_views(entries@);
    let mut seen: Vec<Vec<char>> = Vec::new();
    let mut out: Vec<OmObservationEntryV2> = Vec::new();
    let mut i: usize = 0;
    while i < entries.len()
        invariant
            i <= entries.len(),
            s == entry_views(entries@),
            entry_views(out@) == dedup_entries(s.take(i as int)),
            views(seen@) == entry_ids(entry_views(out@)),
        decreases entries.len() - i,
    {
        proof {
            assert(s.take(i + 1).drop_last() =~= s.take(i as int));
            assert(s.take(i + 1).last() == s[i as int]);
            assert(s[i as int] == entry_view(entries@[i as int]));
        }
        let ghost before = entry_views(out@);
        match normalize_text(entries[i].entry_id.as_str()) {
            Some(id) => {
                if !seqs_contains(&seen, id.as_slice()) {
                    let e = copy_entry(&entries[i]);
                    out.push(e);
                    seen.push(id);
                    proof {
                        assert(entry_views(out@) =~= before.push(s[i as int]));
                        assert(entry_views(out@).drop_last() =~= before);
                    }
                }
            },
            None => {},
        }
        i += 1;
    }
    assert(s.take(entries.len() as int) =~= s);
    out
}

/// Normalised ids of the entries, blank ones left out.
fn collect_entry_ids(entries: &Vec<OmObservationEntryV2>) -> (r: Vec<String>)
    ensures
        string_views(r@) == entry_ids(entry_views(entries@)),
{
    let ghost s = entry_views(entries@);
    let mut out: Vec<String> = Vec::new();
    let mut i: usize = 0;
    while i < entries.len()
        invariant
            i <= entries.len(),
            s == entry_views(entries@),
            string_views(out@) == entry_ids(s.take(i as int)),
        decreases entries.len() - i,
    {
        proof {
            assert(s.take(i + 1).drop_last() =~= s.take(i as int));
            assert(s.take(i + 1).last() == s[i as int]);
            assert(s[i as int] == entry_view(entries@[i as int]));
        }
        let ghost before = string_views(out@);
        match normalize_text(entries[i].entry_id.as_str()) {
            Some(id) => {
                out.push(chars_to_string(id.as_slice()));
                assert(string_views(out@) =~= before.push(id@));
            },
            None => {},
        }
        i += 1;
    }
    assert(s.take(entries.len() as int) =~= s);
    out
}


// ---------------------------------------------------------------------------
// Search hint
// ---------------------------------------------------------------------------

/// Adds `line` unless the list is full or already holds it; says whether it
/// was added.
pub open spec fn push_line(sel: Seq<Seq<char>>, line: Seq<char>, max_lines: usize) -> (Seq<Seq<char>>, bool) {
    if sel.len() >= max_lines || sel.contains(line) {
        (sel, false)
    } else {
        (sel.push(line), true)
    }
}

fn push_line_exec(sel: &mut Vec<Vec<char>>, line: Vec<char>, max_lines: usize) -> (r: bool)
    ensures
        (views(final(sel)@), r) == push_line(views(old(sel)@), line@, max_lines),
{
    if sel.len() >= max_lines || seqs_contains(sel, line.as_slice()) {
        return false;
    }
    let ghost before = views(sel@);
    let ghost lv = line@;
    sel.push(line);
    assert(views(sel@) =~= before.push(lv));
    true
}

/// Entries that are not superseded by a non-blank id.
pub open spec fn not_superseded(es: Seq<EntryView>) -> Seq<EntryView>
    decreases es.len(),
{
    if es.len() == 0 {
        Seq::empty()
    } else {
        let prev = not_superseded(es.drop_last());
        let e = es.last();
        let superseded = match e.superseded_by {
            Some(s) => norm(s) is Some,
            None => false,
        };
        if superseded {
            prev
        } else {
            prev.push(e)
        }
    }
}

/// The first pass: high-priority entries while lines and high-priority
/// slots remain; counts the entries it added.
pub open spec fn high_pass(sel: Seq<Seq<char>>, es: Seq<EntryView>, policy: OmHintPolicyV2) -> (Seq<Seq<char>>, int)
    decreases es.len(),
{
    if es.len() == 0 {
        (sel, 0)
    } else {
        let (s, added) = high_pass(sel, es.drop_last(), policy);
        let e = es.last();
        if e.priority != OmObservationPriority::High || s.len() >= policy.max_lines || added
            >= policy.high_priority_slots {
            (s, added)
        } else {
            match norm(e.text) {
                Some(t) => {
                    let (s2, ok) = push_line(s, t, policy.max_lines);
                    (
                        s2,
                        if ok {
                            added + 1
                        } else {
                            added
                        },
                    )
                },
                None => (s, added),
            }
        }
    }
}

/// The second pass: every entry while lines remain, high-priority ones
/// skipped when the first pass added any.
pub open spec fn fill_pass(sel: Seq<Seq<char>>, es: Seq<EntryView>, policy: OmHintPolicyV2, added_high: int) -> Seq<Seq<char>>
    decreases es.len(),
{
    if es.len() == 0 {
        sel
    } else {
        let s = fill_pass(sel, es.drop_last(), policy, added_high);
        let e = es.last();
        if s.len() >= policy.max_lines || (e.priority == OmObservationPriority::High && added_high > 0) {
            s
        } else {
            match norm(e.text) {
                Some(t) => push_line(s, t, policy.max_lines).0,
                None => s,
            }
        }
    }
}

/// The lines reserved for the current task and the suggested response.
pub open spec fn reserved_lines(task: Option<Seq<char>>, suggested: Option<Seq<char>>, policy: OmHintPolicyV2) -> Seq<Seq<char>> {
    let s0 = Seq::<Seq<char>>::empty();
    let s1 = match task {
        Some(t) => if policy.reserve_current_task_line && norm(t) is Some {
            push_line(s0, "current-task: "@ + norm(t)->0, policy.max_lines).0
        } else {
            s0
        },
        None => s0,
    };
    match suggested {
        Some(t) => if policy.reserve_suggested_response_line && norm(t) is Some {
            push_line(s1, "suggested-response: "@ + norm(t)->0, policy.max_lines).0
        } else {
            s1
        },
        None => s1,
    }
}

/// The hint: reserved lines, then the newest entries (high-priority ones
/// first), at most `max_lines` distinct lines joined by ` | `, cut to
/// `max_chars` and prefixed `om: `; without any line, the existing rendered
/// hint, normalised, cut and prefixed unless it already starts with `om:`.
pub open spec fn search_hint(task: Option<Seq<char>>, suggested: Option<Seq<char>>, rendered: Option<Seq<char>>, entries: Seq<EntryView>, policy: OmHintPolicyV2) -> Option<Seq<char>> {
    if policy.max_lines == 0 || policy.max_chars == 0 {
        None
    } else {
        let cands = sort_entries(not_superseded(entries), true);
        let reserved = reserved_lines(task, suggested, policy);
        let (after_high, added) = high_pass(reserved, cands, policy);
        let sel = fill_pass(after_high, cands, policy, added);
        if sel.len() == 0 {
            match rendered {
                Some(h) => match norm(h) {
                    Some(n) => {
                        let c = take_chars(n, policy.max_chars as int);
                        Some(
                            if crate::text::starts_with(c, "om:"@) {
                                c
                            } else {
                                "om: "@ + c
                            },
                        )
                    },
                    None => None,
                },
                None => None,
            }
        } else {
            let c = take_chars(crate::text::join(sel, " | "@), policy.max_chars as int);
            if c.len() == 0 {
                None
            } else {
                Some("om: "@ + c)
            }
        }
    }
}

fn not_superseded_exec(entries: &Vec<OmObservationEntryV2>) -> (r: Vec<OmObservationEntryV2>)
    ensures
        entry_views(r@) == not_superseded(entry_views(entries@)),
{
    let ghost s = entry_views(entries@);
    let mut out: Vec<OmObservationEntryV2> = Vec::new();
    let mut i: usize = 0;
    while i < entries.len()
        invariant
            i <= entries.len(),
            s == entry_views(entries@),
            entry_views(out@) == not_superseded(s.take(i as int)),
        decreases entries.len() - i,
    {
        proof {
            assert(s.take(i + 1).drop_last() =~= s.take(i as int));
            assert(s.take(i + 1).last() == s[i as int]);
            assert(s[i as int] == entry_view(entries@[i as int]));
        }
        let ghost before = entry_views(out@);
        let superseded = match &entries[i].superseded_by {
            Some(sup) => normalize_text(sup.as_str()).is_some(),
            None => false,
        };
        if !superseded {
            let e = copy_entry(&entries[i]);
            out.push(e);
            assert(entry_views(out@) =~= before.push(s[i as int]));
        }
        i += 1;
    }
    assert(s.take(entries.len() as int) =~= s);
    out
}

fn prefixed_line(prefix: &str, text: &[char]) -> (r: Vec<char>)
    ensures
        r@ == prefix@ + text@,
{
    let mut v = str_to_chars(prefix);
    crate::text::extend(&mut v, text);
    v
}

pub fn render_search_hint(snapshot: &OmSearchVisibleSnapshotV2, policy: OmHintPolicyV2) -> (r: Option<String>)
    ensures
        opt_string(r) == search_hint(
            opt_string(snapshot.current_task),
            opt_string(snapshot.suggested_response),
            opt_string(snapshot.rendered_hint),
            entry_views(snapshot.visible_entries@),
            policy,
        ),
{
    if policy.max_lines == 0 || policy.max_chars == 0 {
        return None;
    }
    let mut selected: Vec<Vec<char>> = Vec::new();
    let ghost s0 = views(selected@);
    assert(s0 =~= Seq::<Seq<char>>::empty());
    if policy.reserve_current_task_line {
        match &snapshot.current_task {
            Some(task) => match normalize_text(task.as_str()) {
                Some(t) => {
                    let line = prefixed_line("current-task: ", t.as_slice());
                    let _ = push_line_exec(&mut selected, line, policy.max_lines);
                },
                None => {},
            },
            None => {},
        }
    }
    if policy.reserve_suggested_response_line {
        match &snapshot.suggested_response {
            Some(sugg) => match normalize_text(sugg.as_str()) {
                Some(t) => {
                    let line = prefixed_line("suggested-response: ", t.as_slice());
                    let _ = push_line_exec(&mut selected, line, policy.max_lines);
                },
                None => {},
            },
            None => {},
        }
    }
    let ghost reserved = views(selected@);
    assert(reserved == reserved_lines(
        opt_string(snapshot.current_task),
        opt_string(snapshot.suggested_response),
        policy,
    ));
    let filtered = not_superseded_exec(&snapshot.visible_entries);
    let candidates = sort_entries_exec(filtered, true);
    let ghost cv = entry_views(candidates@);
    let mut added_high: usize = 0;
    let mut i: usize = 0;
    while i < candidates.len()
        invariant
            i <= candidates.len(),
            cv == entry_views(candidates@),
            (views(selected@), added_high as int) == high_pass(reserved, cv.take(i as int), policy),
            added_high <= i,
        decreases candidates.len() - i,
    {
        proof {
            assert(cv.take(i + 1).drop_last() =~= cv.take(i as int));
            assert(cv.take(i + 1).last() == cv[i as int]);
            assert(cv[i as int] == entry_view(candidates@[i as int]));
        }
        let e = &candidates[i];
        if e.priority == OmObservationPriority::High && selected.len() < policy.max_lines && added_high
            < policy.high_priority_slots {
            match normalize_text(e.text.as_str()) {
                Some(t) => {
                    if push_line_exec(&mut selected, t, policy.max_lines) {
                        added_high += 1;
                    }
                },
                None => {},
            }
        }
        i += 1;
    }
    assert(cv.take(candidates.len() as int) =~= cv);
    let ghost after_high = views(selected@);
    let mut j: usize = 0;
    while j < candidates.len()
        invariant
            j <= candidates.len(),
            cv == entry_views(candidates@),
            views(selected@) == fill_pass(after_high, cv.take(j as int), policy, added_high as int),
        decreases candidates.len() - j,
    {
        proof {
            assert(cv.take(j + 1).drop_last() =~= cv.take(j as int));
            assert(cv.take(j + 1).last() == cv[j as int]);
            assert(cv[j as int] == entry_view(candidates@[j as int]));
        }
        let e = &candidates[j];
        if selected.len() < policy.max_lines && !(e.priority == OmObservationPriority::High && added_high > 0) {
            match normalize_text(e.text.as_str()) {
                Some(t) => {
                    let _ = push_line_exec(&mut selected, t, policy.max_lines);
                },
                None => {},
            }
        }
        j += 1;
    }
    if selected.len() == 0 {
        return match &snapshot.rendered_hint {
            Some(h) => match normalize_text(h.as_str()) {
                Some(n) => {
                    let c = take_chars_exec(n.as_slice(), policy.max_chars);
                    if crate::text::starts_with_str(c.as_slice(), "om:") {
                        Some(chars_to_string(c.as_slice()))
                    } else {
                        let line = prefixed_line("om: ", c.as_slice());
                        Some(chars_to_string(line.as_slice()))
                    }
                },
                None => None,
            },
            None => None,
        };
    }
    let sep = str_to_chars(" | ");
    let joined = crate::text::join_exec(&selected, sep.as_slice());
    assert(selected@.map_values(|p: Vec<char>| p@) =~= views(selected@));
    let c = take_chars_exec(joined.as_slice(), policy.max_chars);
    if c.len() == 0 {
        return None;
    }
    let line = prefixed_line("om: ", c.as_slice());
    Some(chars_to_string(line.as_slice()))
}


// ---------------------------------------------------------------------------
// Materialisation
// ---------------------------------------------------------------------------

/// The activated entries, then each buffered entry whose normalised id is
/// neither blank nor already present.
pub open spec fn merge_visible(activated: Seq<EntryView>, buffered: Seq<EntryView>) -> Seq<EntryView>
    decreases buffered.len(),
{
    if buffered.len() == 0 {
        activated
    } else {
        let prev = merge_visible(activated, buffered.drop_last());
        let e = buffered.last();
        match norm(e.entry_id) {
            Some(id) => if entry_ids(prev).contains(id) {
                prev
            } else {
                prev.push(e)
            },
            None => prev,
        }
    }
}

/// Normalised optional text.
pub open spec fn norm_opt(o: Option<Seq<char>>) -> Option<Seq<char>> {
    match o {
        Some(t) => norm(t),
        None => None,
    }
}

fn normalize_optional(value: &Option<String>) -> (r: Option<String>)
    ensures
        opt_string(r) == norm_opt(opt_string(*value)),
{
    match value {
        Some(v) => match normalize_text(v.as_str()) {
            Some(n) => Some(chars_to_string(n.as_slice())),
            None => None,
        },
        None => None,
    }
}

/// The snapshot's texts and entries as sequences.
pub struct SnapshotView {
    pub scope_key: Seq<char>,
    pub activated_entry_ids: Seq<Seq<char>>,
    pub buffered_entry_ids: Seq<Seq<char>>,
    pub current_task: Option<Seq<char>>,
    pub suggested_response: Option<Seq<char>>,
    pub rendered_hint: Option<Seq<char>>,
    pub materialized_at_rfc3339: Seq<char>,
    pub snapshot_version: Seq<char>,
    pub visible_entries: Seq<EntryView>,
}

pub open spec fn snapshot_view(s: OmSearchVisibleSnapshotV2) -> SnapshotView {
    SnapshotView {
        scope_key: s.scope_key@,
        activated_entry_ids: string_views(s.activated_entry_ids@),
        buffered_entry_ids: string_views(s.buffered_entry_ids@),
        current_task: opt_string(s.current_task),
        suggested_response: opt_string(s.suggested_response),
        rendered_hint: opt_string(s.rendered_hint),
        materialized_at_rfc3339: s.materialized_at_rfc3339@,
        snapshot_version: s.snapshot_version@,
        visible_entries: entry_views(s.visible_entries@),
    }
}

/// The snapshot of the given entries: each list deduplicated by normalised
/// id and sorted by creation time then id; the visible entries are the
/// activated ones plus, when the policy includes them, the buffered ones not
/// already activated; the continuation's task and suggestion normalised; the
/// hint rendered from all of it.
pub open spec fn materialized_snapshot(scope_key: Seq<char>, activated_entries: Seq<EntryView>, buffered_entries: Seq<EntryView>, continuation: Option<OmContinuationStateV2>, materialized_at: Seq<char>, policy: OmHintPolicyV2) -> SnapshotView {
    let activated = sort_entries(dedup_entries(activated_entries), false);
    let buffered = sort_entries(dedup_entries(buffered_entries), false);
    let visible = sort_entries(
        if policy.include_buffered_entries {
            merge_visible(activated, buffered)
        } else {
            activated
        },
        false,
    );
    let task = match continuation {
        Some(c) => norm_opt(opt_string(c.current_task)),
        None => None,
    };
    let suggested = match continuation {
        Some(c) => norm_opt(opt_string(c.suggested_response)),
        None => None,
    };
    SnapshotView {
        scope_key: collapse_ws(scope_key),
        activated_entry_ids: entry_ids(activated),
        buffered_entry_ids: entry_ids(buffered),
        current_task: task,
        suggested_response: suggested,
        rendered_hint: search_hint(task, suggested, None, visible, policy),
        materialized_at_rfc3339: collapse_ws(materialized_at),
        snapshot_version: OM_SEARCH_VISIBLE_SNAPSHOT_V2_VERSION@,
        visible_entries: visible,
    }
}

fn normalized_or_empty(value: &str) -> (r: String)
    ensures
        r@ == collapse_ws(value@),
{
    match normalize_text(value) {
        Some(n) => chars_to_string(n.as_slice()),
        None => String::new(),
    }
}

pub fn materialize_search_visible_snapshot(scope_key: &str, activated_entries: &[OmObservationEntryV2], buffered_entries: &[OmObservationEntryV2], continuation: Option<&OmContinuationStateV2>, materialized_at_rfc3339: &str, policy: OmHintPolicyV2) -> (r: OmSearchVisibleSnapshotV2)
    ensures
        snapshot_view(r) == materialized_snapshot(
            scope_key@,
            entry_views(activated_entries@),
            entry_views(buffered_entries@),
            match continuation {
                Some(c) => Some(*c),
                None => None,
            },
            materialized_at_rfc3339@,
            policy,
        ),
{
    let normalized_scope_key = normalized_or_empty(scope_key);
    let normalized_materialized_at = normalized_or_empty(materialized_at_rfc3339);
    let activated_d = dedup_entries_by_id(activated_entries);
    let activated = sort_entries_exec(activated_d, false);
    let activated_entry_ids = collect_entry_ids(&activated);
    let buffered_d = dedup_entries_by_id(buffered_entries);
    let buffered = sort_entries_exec(buffered_d, false);
    let buffered_entry_ids = collect_entry_ids(&buffered);
    let ghost av = entry_views(activated@);
    let ghost bv = entry_views(buffered@);
    let mut visible: Vec<OmObservationEntryV2> = Vec::new();
    let mut k: usize = 0;
    while k < activated.len()
        invariant
            k <= activated.len(),
            av == entry_views(activated@),
            entry_views(visible@) == av.take(k as int),
        decreases activated.len() - k,
    {
        let ghost before = entry_views(visible@);
        let e = copy_entry(&activated[k]);
        visible.push(e);
        proof {
            assert(av[k as int] == entry_view(activated@[k as int]));
            assert(entry_views(visible@) =~= before.push(av[k as int]));
            assert(av.take(k + 1) =~= av.take(k as int).push(av[k as int]));
        }
        k += 1;
    }
    assert(av.take(activated.len() as int) =~= av);
    if policy.include_buffered_entries {
        let mut seen = chars_of_strings(&activated_entry_ids);
        assert(views(seen@) == entry_ids(merge_visible(av, bv.take(0))));
        let mut i: usize = 0;
        while i < buffered.len()
            invariant
                i <= buffered.len(),
                bv == entry_views(buffered@),
                entry_views(visible@) == merge_visible(av, bv.take(i as int)),
                views(seen@) == entry_ids(entry_views(visible@)),
            decreases buffered.len() - i,
        {
            proof {
                assert(bv.take(i + 1).drop_last() =~= bv.take(i as int));
                assert(bv.take(i + 1).last() == bv[i as int]);
                assert(bv[i as int] == entry_view(buffered@[i as int]));
            }
            let ghost before = entry_views(visible@);
            match normalize_text(buffered[i].entry_id.as_str()) {
                Some(id) => {
                    if !seqs_contains(&seen, id.as_slice()) {
                        let e = copy_entry(&buffered[i]);
                        visible.push(e);
                        seen.push(id);
                        proof {
                            assert(entry_views(visible@) =~= before.push(bv[i as int]));
                            assert(entry_views(visible@).drop_last() =~= before);
                        }
                    }
                },
                None => {},
            }
            i += 1;
        }
        assert(bv.take(buffered.len() as int) =~= bv);
    }
    let visible_entries = sort_entries_exec(visible, false);
    let (current_task, suggested_response) = match continuation {
        Some(state) => (normalize_optional(&state.current_task), normalize_optional(&state.suggested_response)),
        None => (None, None),
    };
    let mut snapshot = OmSearchVisibleSnapshotV2 {
        scope_key: normalized_scope_key,
        activated_entry_ids,
        buffered_entry_ids,
        current_task,
        suggested_response,
        rendered_hint: None,
        materialized_at_rfc3339: normalized_materialized_at,
        snapshot_version: OM_SEARCH_VISIBLE_SNAPSHOT_V2_VERSION.to_string(),
        visible_entries,
    };
    let hint = render_search_hint(&snapshot, policy);
    snapshot.rendered_hint = hint;
    snapshot
}


/// A copy of every entry.
pub fn copy_entries(entries: &[OmObservationEntryV2]) -> (r: Vec<OmObservationEntryV2>)
    ensures
        entry_views(r@) == entry_views(entries@),
{
    let ghost s = entry_views(entries@);
    let mut out: Vec<OmObservationEntryV2> = Vec::new();
    let mut i: usize = 0;
    while i < entries.len()
        invariant
            i <= entries.len(),
            s == entry_views(entries@),
            entry_views(out@) == s.take(i as int),
        decreases entries.len() - i,
    {
        let ghost before = entry_views(out@);
        out.push(copy_entry(&entries[i]));
        proof {
            assert(s[i as int] == entry_view(entries@[i as int]));
            assert(entry_views(out@) =~= before.push(s[i as int]));
            assert(s.take(i + 1) =~= s.take(i as int).push(s[i as int]));
        }
        i += 1;
    }
    assert(s.take(entries.len() as int) =~= s);
    out
}


/// A rendered search hint always carries the `om:` prefix.
pub proof fn law_search_hint_prefix(task: Option<Seq<char>>, suggested: Option<Seq<char>>, rendered: Option<Seq<char>>, entries: Seq<EntryView>, policy: OmHintPolicyV2)
    ensures
        search_hint(task, suggested, rendered, entries, policy) matches Some(h) ==> crate::text::starts_with(h, "om:"@),
{
    reveal_strlit("om:");
    reveal_strlit("om: ");
    match search_hint(task, suggested, rendered, entries, policy) {
        Some(h) => {
            if !crate::text::starts_with(h, "om:"@) {
                let c = h.skip(4);
                assert(h =~= "om: "@ + c);
                assert(h.subrange(0, 3) =~= "om:"@);
            }
        },
        None => {},
    }
}


// ---------------------------------------------------------------------------
// Order of the sorted entries
// ---------------------------------------------------------------------------

/// No entry sorts strictly before an earlier one.
pub open spec fn entries_sorted(s: Seq<EntryView>, newest_first: bool) -> bool {
    forall|i: int, j: int| 0 <= i < j < s.len() ==> !entry_before(#[trigger] s[j], #[trigger] s[i], newest_first)
}

/// The time comparison that `entry_before` makes.
pub open spec fn time_before(a: Seq<char>, b: Seq<char>, newest_first: bool) -> bool {
    if newest_first {
        chars_lt(b, a)
    } else {
        chars_lt(a, b)
    }
}

proof fn lemma_time_order(a: Seq<char>, b: Seq<char>, c: Seq<char>, newest_first: bool)
    ensures
        !time_before(a, a, newest_first),
        a != b ==> (time_before(a, b, newest_first) || time_before(b, a, newest_first)),
        !(time_before(a, b, newest_first) && time_before(b, a, newest_first)),
        time_before(a, b, newest_first) && time_before(b, c, newest_first) ==> time_before(a, c, newest_first),
{
    lemma_chars_lt_irreflexive(a);
    lemma_chars_lt_total(a, b);
    if newest_first {
        if chars_lt(b, a) && chars_lt(c, b) {
            lemma_chars_lt_transitive(c, b, a);
        }
    } else {
        if chars_lt(a, b) && chars_lt(b, c) {
            lemma_chars_lt_transitive(a, b, c);
        }
    }
}

/// `entry_before` is a strict weak order: irreflexive, asymmetric,
/// transitive, and its negation is transitive.
proof fn lemma_entry_before_order(a: EntryView, b: EntryView, c: EntryView, newest_first: bool)
    ensures
        !entry_before(a, a, newest_first),
        entry_before(a, b, newest_first) ==> !entry_before(b, a, newest_first),
        !entry_before(a, b, newest_first) && !entry_before(b, c, newest_first) ==> !entry_before(a, c, newest_first),
{
    let (ta, tb, tc) = (a.created_at_rfc3339, b.created_at_rfc3339, c.created_at_rfc3339);
    let (ia, ib, ic) = (a.entry_id, b.entry_id, c.entry_id);
    lemma_time_order(ta, tb, tc, newest_first);
    lemma_time_order(tb, tc, ta, newest_first);
    lemma_time_order(tc, ta, tb, newest_first);
    lemma_time_order(ta, tc, tb, newest_first);
    lemma_time_order(tb, ta, tc, newest_first);
    lemma_time_order(tc, tb, ta, newest_first);
    lemma_chars_lt_irreflexive(ia);
    lemma_chars_lt_total(ia, ib);
    lemma_chars_lt_total(ib, ic);
    lemma_chars_lt_total(ia, ic);
    assert(entry_before(a, b, newest_first) == (if ta != tb { time_before(ta, tb, newest_first) } else { chars_lt(ia, ib) }));
    assert(entry_before(b, a, newest_first) == (if tb != ta { time_before(tb, ta, newest_first) } else { chars_lt(ib, ia) }));
    assert(entry_before(b, c, newest_first) == (if tb != tc { time_before(tb, tc, newest_first) } else { chars_lt(ib, ic) }));
    assert(entry_before(a, c, newest_first) == (if ta != tc { time_before(ta, tc, newest_first) } else { chars_lt(ia, ic) }));
    if entry_before(a, c, newest_first) && !entry_before(a, b, newest_first) {
        // a before c, and b not after a: then b is before c.
        if ta == tb {
            if tb == tc {
                if ib != ia {
                    lemma_chars_lt_transitive(ib, ia, ic);
                }
            }
        }
        if ia != ib && ib != ic && ia != ic && chars_lt(ib, ia) && chars_lt(ia, ic) {
            lemma_chars_lt_transitive(ib, ia, ic);
        }
    }
}

/// Inserting into sorted entries puts the new one at some position.
proof fn lemma_insert_entry_index(t: Seq<EntryView>, x: EntryView, newest_first: bool) -> (k: int)
    ensures
        0 <= k <= t.len(),
        insert_entry(t, x, newest_first) == t.insert(k, x),
    decreases t.len(),
{
    if t.len() > 0 && entry_before(x, t.last(), newest_first) {
        let u = t.drop_last();
        let k = lemma_insert_entry_index(u, x, newest_first);
        assert(u.insert(k, x).push(t.last()) =~= t.insert(k, x));
        k
    } else {
        assert(t.push(x) =~= t.insert(t.len() as int, x));
        t.len() as int
    }
}

proof fn lemma_insert_entry_sorted(t: Seq<EntryView>, x: EntryView, newest_first: bool)
    requires
        entries_sorted(t, newest_first),
    ensures
        entries_sorted(insert_entry(t, x, newest_first), newest_first),
        insert_entry(t, x, newest_first).to_multiset() =~= t.to_multiset().insert(x),
    decreases t.len(),
{
    broadcast use vstd::seq_lib::group_to_multiset_ensures;
    let r = insert_entry(t, x, newest_first);
    if t.len() > 0 && entry_before(x, t.last(), newest_first) {
        let u = t.drop_last();
        let last = t.last();
        lemma_insert_entry_sorted(u, x, newest_first);
        let ui = insert_entry(u, x, newest_first);
        let k = lemma_insert_entry_index(u, x, newest_first);
        assert forall|i: int, j: int| 0 <= i < j < r.len() implies !entry_before(#[trigger] r[j], #[trigger] r[i], newest_first) by {
            if j == r.len() - 1 {
                assert(r[j] == last);
                if i == k {
                    assert(r[i] == x);
                    lemma_entry_before_order(x, last, last, newest_first);
                } else if i < k {
                    assert(r[i] == t[i]);
                } else {
                    assert(r[i] == t[i - 1]);
                }
            } else {
                assert(r[i] == ui[i] && r[j] == ui[j]);
            }
        }
        assert(t =~= u.push(last));
        assert(r == ui.push(last));
    } else {
        assert forall|i: int, j: int| 0 <= i < j < r.len() implies !entry_before(#[trigger] r[j], #[trigger] r[i], newest_first) by {
            if j == r.len() - 1 {
                assert(r[j] == x);
                if t.len() > 0 {
                    let last = t.last();
                    if i < t.len() - 1 {
                        assert(!entry_before(t[t.len() - 1], t[i], newest_first));
                        lemma_entry_before_order(x, last, t[i], newest_first);
                    }
                }
            } else {
                assert(r[i] == t[i] && r[j] == t[j]);
            }
        }
    }
}

/// Sorting the entries orders them and keeps every entry, as often as it
/// occurs.
pub proof fn law_sort_entries(s: Seq<EntryView>, newest_first: bool)
    ensures
        entries_sorted(sort_entries(s, newest_first), newest_first),
        sort_entries(s, newest_first).to_multiset() =~= s.to_multiset(),
    decreases s.len(),
{
    broadcast use vstd::seq_lib::group_to_multiset_ensures;
    if s.len() > 0 {
        law_sort_entries(s.drop_last(), newest_first);
        lemma_insert_entry_sorted(sort_entries(s.drop_last(), newest_first), s.last(), newest_first);
        assert(s =~= s.drop_last().push(s.last()));
    }
}

/// The visible entries of a materialised snapshot are ordered oldest first,
/// entries of one time by id, and so are its activated entries.
pub proof fn law_snapshot_entries_ordered(scope_key: Seq<char>, activated_entries: Seq<EntryView>, buffered_entries: Seq<EntryView>, continuation: Option<OmContinuationStateV2>, materialized_at: Seq<char>, policy: OmHintPolicyV2)
    ensures
        entries_sorted(materialized_snapshot(scope_key, activated_entries, buffered_entries, continuation, materialized_at, policy).visible_entries, false),
        entries_sorted(sort_entries(dedup_entries(activated_entries), false), false),
{
    let activated = sort_entries(dedup_entries(activated_entries), false);
    let buffered = sort_entries(dedup_entries(buffered_entries), false);
    law_sort_entries(dedup_entries(activated_entries), false);
    law_sort_entries(if policy.include_buffered_entries { merge_visible(activated, buffered) } else { activated }, false);
}


// ---------------------------------------------------------------------------
// Ids of the materialised entries
// ---------------------------------------------------------------------------

/// Every entry has a non-blank id.
pub open spec fn all_have_ids(s: Seq<EntryView>) -> bool {
    forall|i: int| 0 <= i < s.len() ==> (#[trigger] norm(s[i].entry_id)) is Some
}

/// The normalised id of an entry that has one.
pub open spec fn id_of(e: EntryView) -> Seq<char> {
    norm(e.entry_id)->Some_0
}

proof fn lemma_entry_ids_push(s: Seq<EntryView>, e: EntryView)
    ensures
        entry_ids(s.push(e)) == match norm(e.entry_id) {
            Some(id) => entry_ids(s).push(id),
            None => entry_ids(s),
        },
{
    assert(s.push(e).drop_last() =~= s);
}

proof fn lemma_entry_ids_map(s: Seq<EntryView>)
    requires
        all_have_ids(s),
    ensures
        entry_ids(s) == s.map_values(|e: EntryView| id_of(e)),
    decreases s.len(),
{
    if s.len() > 0 {
        let u = s.drop_last();
        assert forall|i: int| 0 <= i < u.len() implies (#[trigger] norm(u[i].entry_id)) is Some by {
            assert(u[i] == s[i]);
            assert(norm(s[i].entry_id) is Some);
        }
        lemma_entry_ids_map(u);
        assert(norm(s[s.len() - 1].entry_id) is Some);
        assert(s.map_values(|e: EntryView| id_of(e)) =~= u.map_values(|e: EntryView| id_of(e)).push(id_of(s.last())));
    } else {
        assert(s.map_values(|e: EntryView| id_of(e)) =~= Seq::<Seq<char>>::empty());
    }
}

proof fn lemma_push_no_duplicates(q: Seq<Seq<char>>, y: Seq<char>)
    requires
        q.no_duplicates(),
        !q.contains(y),
    ensures
        q.push(y).no_duplicates(),
{
    let r = q.push(y);
    assert forall|i: int, j: int| 0 <= i < r.len() && 0 <= j < r.len() && i != j implies r[i] != r[j] by {
        if i == q.len() {
            assert(r[j] == q[j]);
        } else if j == q.len() {
            assert(r[i] == q[i]);
        } else {
            assert(r[i] == q[i] && r[j] == q[j]);
        }
    }
}

proof fn lemma_insert_no_duplicates(q: Seq<Seq<char>>, k: int, y: Seq<char>)
    requires
        q.no_duplicates(),
        !q.contains(y),
        0 <= k <= q.len(),
    ensures
        q.insert(k, y).no_duplicates(),
        q.insert(k, y).to_set() =~= q.to_set().insert(y),
{
    let r = q.insert(k, y);
    assert forall|i: int| 0 <= i < r.len() implies #[trigger] r[i] == (if i < k { q[i] } else if i == k { y } else { q[i - 1] }) by {}
    assert forall|i: int, j: int| 0 <= i < r.len() && 0 <= j < r.len() && i != j implies r[i] != r[j] by {
        if i == k {
            if j < k { assert(q.contains(q[j])); } else { assert(q.contains(q[j - 1])); }
        } else if j == k {
            if i < k { assert(q.contains(q[i])); } else { assert(q.contains(q[i - 1])); }
        }
    }
    assert forall|x: Seq<char>| r.contains(x) <==> q.to_set().insert(y).contains(x) by {
        if r.contains(x) {
            let i = choose|i: int| 0 <= i < r.len() && r[i] == x;
            if i < k { assert(q[i] == x); } else if i > k { assert(q[i - 1] == x); }
        }
        if q.contains(x) {
            let i = choose|i: int| 0 <= i < q.len() && q[i] == x;
            if i < k { assert(r[i] == x); } else { assert(r[i + 1] == x); }
        }
        if x == y {
            assert(r[k] == y);
        }
    }
}

/// Adding entries to a list with distinct ids keeps the ids distinct, and
/// collects the ids of both.
proof fn lemma_merge_visible_ids(a: Seq<EntryView>, b: Seq<EntryView>)
    requires
        all_have_ids(a),
        entry_ids(a).no_duplicates(),
    ensures
        all_have_ids(merge_visible(a, b)),
        entry_ids(merge_visible(a, b)).no_duplicates(),
        entry_ids(merge_visible(a, b)).to_set() =~= entry_ids(a).to_set() + entry_ids(b).to_set(),
    decreases b.len(),
{
    if b.len() > 0 {
        let u = b.drop_last();
        let e = b.last();
        lemma_merge_visible_ids(a, u);
        let prev = merge_visible(a, u);
        lemma_entry_ids_push(u, e);
        assert(b =~= u.push(e));
        match norm(e.entry_id) {
            Some(id) => {
                if !entry_ids(prev).contains(id) {
                    lemma_entry_ids_push(prev, e);
                    lemma_push_no_duplicates(entry_ids(prev), id);
                    assert forall|i: int| 0 <= i < prev.push(e).len() implies (#[trigger] norm(prev.push(e)[i].entry_id)) is Some by {
                        if i < prev.len() {
                            assert(prev.push(e)[i] == prev[i]);
                        }
                    }
                    entry_ids(prev).lemma_push_to_set_commute(id);
                }
                entry_ids(u).lemma_push_to_set_commute(id);
            },
            None => {},
        }
    } else {
        assert(entry_ids(b) =~= Seq::<Seq<char>>::empty());
    }
}

/// Deduplicated entries have distinct ids, the same ids as before.
proof fn lemma_dedup_ids(es: Seq<EntryView>)
    ensures
        all_have_ids(dedup_entries(es)),
        entry_ids(dedup_entries(es)).no_duplicates(),
        entry_ids(dedup_entries(es)).to_set() =~= entry_ids(es).to_set(),
    decreases es.len(),
{
    if es.len() > 0 {
        let u = es.drop_last();
        let e = es.last();
        lemma_dedup_ids(u);
        let prev = dedup_entries(u);
        lemma_entry_ids_push(u, e);
        assert(es =~= u.push(e));
        match norm(e.entry_id) {
            Some(id) => {
                if !entry_ids(prev).contains(id) {
                    lemma_entry_ids_push(prev, e);
                    lemma_push_no_duplicates(entry_ids(prev), id);
                    assert forall|i: int| 0 <= i < prev.push(e).len() implies (#[trigger] norm(prev.push(e)[i].entry_id)) is Some by {
                        if i < prev.len() {
                            assert(prev.push(e)[i] == prev[i]);
                        }
                    }
                    entry_ids(prev).lemma_push_to_set_commute(id);
                } else {
                    assert(entry_ids(prev).to_set().contains(id));
                }
                entry_ids(u).lemma_push_to_set_commute(id);
            },
            None => {},
        }
    } else {
        assert(entry_ids(es) =~= Seq::<Seq<char>>::empty());
    }
}

/// Sorting entries with distinct ids keeps them distinct and keeps the ids.
proof fn lemma_sort_ids(s: Seq<EntryView>, newest_first: bool)
    requires
        all_have_ids(s),
        entry_ids(s).no_duplicates(),
    ensures
        all_have_ids(sort_entries(s, newest_first)),
        entry_ids(sort_entries(s, newest_first)).no_duplicates(),
        entry_ids(sort_entries(s, newest_first)).to_set() =~= entry_ids(s).to_set(),
    decreases s.len(),
{
    if s.len() > 0 {
        let u = s.drop_last();
        let x = s.last();
        assert(s =~= u.push(x));
        assert forall|i: int| 0 <= i < u.len() implies (#[trigger] norm(u[i].entry_id)) is Some by {
            assert(u[i] == s[i]);
            assert(norm(s[i].entry_id) is Some);
        }
        assert(norm(s[s.len() - 1].entry_id) is Some);
        lemma_entry_ids_push(u, x);
        let q = entry_ids(u);
        assert(entry_ids(s) == q.push(id_of(x)));
        assert(q.no_duplicates()) by {
            assert forall|i: int, j: int| 0 <= i < q.len() && 0 <= j < q.len() && i != j implies q[i] != q[j] by {
                assert(entry_ids(s)[i] == q[i] && entry_ids(s)[j] == q[j]);
            }
        }
        assert(!q.contains(id_of(x))) by {
            if q.contains(id_of(x)) {
                let i = choose|i: int| 0 <= i < q.len() && q[i] == id_of(x);
                assert(entry_ids(s)[i] == entry_ids(s)[q.len() as int]);
            }
        }
        lemma_sort_ids(u, newest_first);
        let t = sort_entries(u, newest_first);
        let k = lemma_insert_entry_index(t, x, newest_first);
        let r = t.insert(k, x);
        assert(sort_entries(s, newest_first) == r);
        lemma_entry_ids_map(t);
        assert forall|i: int| 0 <= i < r.len() implies (#[trigger] norm(r[i].entry_id)) is Some by {
            if i < k { assert(r[i] == t[i]); } else if i > k { assert(r[i] == t[i - 1]); }
        }
        lemma_entry_ids_map(r);
        let mt = t.map_values(|e: EntryView| id_of(e));
        assert(r.map_values(|e: EntryView| id_of(e)) =~= mt.insert(k, id_of(x)));
        assert(mt.to_set() =~= q.to_set());
        assert(!mt.contains(id_of(x))) by {
            if mt.contains(id_of(x)) {
                assert(mt.to_set().contains(id_of(x)));
            }
        }
        lemma_insert_no_duplicates(mt, k, id_of(x));
        q.lemma_push_to_set_commute(id_of(x));
    }
}

/// A materialised snapshot shows each entry id once; the ids it shows are
/// those of the activated entries and, when the policy includes them, of the
/// buffered ones; and its hint is the one its own task, suggestion and
/// entries render to.
pub proof fn law_snapshot_ids(scope_key: Seq<char>, activated_entries: Seq<EntryView>, buffered_entries: Seq<EntryView>, continuation: Option<OmContinuationStateV2>, materialized_at: Seq<char>, policy: OmHintPolicyV2)
    ensures
        ({
            let r = materialized_snapshot(scope_key, activated_entries, buffered_entries, continuation, materialized_at, policy);
            &&& all_have_ids(r.visible_entries)
            &&& entry_ids(r.visible_entries).no_duplicates()
            &&& entry_ids(r.visible_entries).to_set() == if policy.include_buffered_entries {
                entry_ids(activated_entries).to_set() + entry_ids(buffered_entries).to_set()
            } else {
                entry_ids(activated_entries).to_set()
            }
            &&& r.rendered_hint == search_hint(r.current_task, r.suggested_response, None, r.visible_entries, policy)
        }),
{
    let da = dedup_entries(activated_entries);
    let db = dedup_entries(buffered_entries);
    lemma_dedup_ids(activated_entries);
    lemma_dedup_ids(buffered_entries);
    lemma_sort_ids(da, false);
    lemma_sort_ids(db, false);
    let activated = sort_entries(da, false);
    let buffered = sort_entries(db, false);
    lemma_merge_visible_ids(activated, buffered);
    let pre = if policy.include_buffered_entries { merge_visible(activated, buffered) } else { activated };
    lemma_sort_ids(pre, false);
}


// ---------------------------------------------------------------------------
// Where the lines of a search hint come from
// ---------------------------------------------------------------------------

/// The entry is superseded by a non-blank id.
pub open spec fn is_superseded(e: EntryView) -> bool {
    e.superseded_by matches Some(s) && norm(s) is Some
}

/// A hint line is the current-task line, the suggested-response line, or the
/// normalised text of an entry that is not superseded.
pub open spec fn hint_line_source(line: Seq<char>, task: Option<Seq<char>>, suggested: Option<Seq<char>>, entries: Seq<EntryView>) -> bool {
    ||| (task matches Some(t) && norm(t) matches Some(n) && line == "current-task: "@ + n)
    ||| (suggested matches Some(t) && norm(t) matches Some(n) && line == "suggested-response: "@ + n)
    ||| exists|e: EntryView| #[trigger] entries.contains(e) && !is_superseded(e) && norm(e.text) == Some(line)
}

proof fn lemma_not_superseded_members(es: Seq<EntryView>)
    ensures
        forall|e: EntryView| #[trigger] not_superseded(es).contains(e) ==> es.contains(e) && !is_superseded(e),
    decreases es.len(),
{
    if es.len() > 0 {
        let u = es.drop_last();
        lemma_not_superseded_members(u);
        let prev = not_superseded(u);
        let r = not_superseded(es);
        assert forall|e: EntryView| #[trigger] r.contains(e) implies es.contains(e) && !is_superseded(e) by {
            let i = choose|i: int| 0 <= i < r.len() && r[i] == e;
            if i < prev.len() {
                assert(prev[i] == e);
                assert(prev.contains(e));
                let k = choose|k: int| 0 <= k < u.len() && u[k] == e;
                assert(es[k] == e);
            } else {
                assert(e == es.last());
                assert(es[es.len() - 1] == e);
            }
        }
    }
}

proof fn lemma_push_line_sources(sel: Seq<Seq<char>>, line: Seq<char>, max_lines: usize, task: Option<Seq<char>>, suggested: Option<Seq<char>>, entries: Seq<EntryView>)
    requires
        forall|i: int| 0 <= i < sel.len() ==> hint_line_source(#[trigger] sel[i], task, suggested, entries),
        hint_line_source(line, task, suggested, entries),
    ensures
        forall|i: int| 0 <= i < push_line(sel, line, max_lines).0.len()
            ==> hint_line_source(#[trigger] push_line(sel, line, max_lines).0[i], task, suggested, entries),
{
    let r = push_line(sel, line, max_lines).0;
    assert forall|i: int| 0 <= i < r.len() implies hint_line_source(#[trigger] r[i], task, suggested, entries) by {
        if i < sel.len() {
            assert(r[i] == sel[i]);
        }
    }
}

proof fn lemma_high_pass_sources(sel: Seq<Seq<char>>, es: Seq<EntryView>, policy: OmHintPolicyV2, task: Option<Seq<char>>, suggested: Option<Seq<char>>, entries: Seq<EntryView>)
    requires
        forall|i: int| 0 <= i < sel.len() ==> hint_line_source(#[trigger] sel[i], task, suggested, entries),
        forall|i: int| 0 <= i < es.len() ==> entries.contains(#[trigger] es[i]) && !is_superseded(es[i]),
    ensures
        forall|i: int| 0 <= i < high_pass(sel, es, policy).0.len()
            ==> hint_line_source(#[trigger] high_pass(sel, es, policy).0[i], task, suggested, entries),
    decreases es.len(),
{
    if es.len() > 0 {
        let u = es.drop_last();
        assert forall|i: int| 0 <= i < u.len() implies entries.contains(#[trigger] u[i]) && !is_superseded(u[i]) by {
            assert(u[i] == es[i]);
        }
        lemma_high_pass_sources(sel, u, policy, task, suggested, entries);
        let e = es.last();
        assert(entries.contains(es[es.len() - 1]));
        if let Some(t) = norm(e.text) {
            assert(hint_line_source(t, task, suggested, entries));
            lemma_push_line_sources(high_pass(sel, u, policy).0, t, policy.max_lines, task, suggested, entries);
        }
    }
}

proof fn lemma_fill_pass_sources(sel: Seq<Seq<char>>, es: Seq<EntryView>, policy: OmHintPolicyV2, added: int, task: Option<Seq<char>>, suggested: Option<Seq<char>>, entries: Seq<EntryView>)
    requires
        forall|i: int| 0 <= i < sel.len() ==> hint_line_source(#[trigger] sel[i], task, suggested, entries),
        forall|i: int| 0 <= i < es.len() ==> entries.contains(#[trigger] es[i]) && !is_superseded(es[i]),
    ensures
        forall|i: int| 0 <= i < fill_pass(sel, es, policy, added).len()
            ==> hint_line_source(#[trigger] fill_pass(sel, es, policy, added)[i], task, suggested, entries),
    decreases es.len(),
{
    if es.len() > 0 {
        let u = es.drop_last();
        assert forall|i: int| 0 <= i < u.len() implies entries.contains(#[trigger] u[i]) && !is_superseded(u[i]) by {
            assert(u[i] == es[i]);
        }
        lemma_fill_pass_sources(sel, u, policy, added, task, suggested, entries);
        let e = es.last();
        assert(entries.contains(es[es.len() - 1]));
        if let Some(t) = norm(e.text) {
            assert(hint_line_source(t, task, suggested, entries));
            lemma_push_line_sources(fill_pass(sel, u, policy, added), t, policy.max_lines, task, suggested, entries);
        }
    }
}

proof fn lemma_reserved_sources(task: Option<Seq<char>>, suggested: Option<Seq<char>>, policy: OmHintPolicyV2, entries: Seq<EntryView>)
    ensures
        forall|i: int| 0 <= i < reserved_lines(task, suggested, policy).len()
            ==> hint_line_source(#[trigger] reserved_lines(task, suggested, policy)[i], task, suggested, entries),
{
    let s0 = Seq::<Seq<char>>::empty();
    let s1 = match task {
        Some(t) => if policy.reserve_current_task_line && norm(t) is Some {
            push_line(s0, "current-task: "@ + norm(t)->0, policy.max_lines).0
        } else {
            s0
        },
        None => s0,
    };
    if let Some(t) = task {
        if policy.reserve_current_task_line && norm(t) is Some {
            lemma_push_line_sources(s0, "current-task: "@ + norm(t)->0, policy.max_lines, task, suggested, entries);
        }
    }
    if let Some(t) = suggested {
        if policy.reserve_suggested_response_line && norm(t) is Some {
            lemma_push_line_sources(s1, "suggested-response: "@ + norm(t)->0, policy.max_lines, task, suggested, entries);
        }
    }
}

/// What a pass keeps of the lines it starts from: they stay in front; the
/// lines stay pairwise different and within the line limit.
pub open spec fn extends_lines(before: Seq<Seq<char>>, after: Seq<Seq<char>>, max_lines: usize) -> bool {
    &&& before.len() <= after.len()
    &&& after.take(before.len() as int) == before
    &&& (before.len() <= max_lines ==> after.len() <= max_lines)
    &&& (before.no_duplicates() ==> after.no_duplicates())
}

proof fn lemma_push_line_extends(sel: Seq<Seq<char>>, line: Seq<char>, max_lines: usize)
    ensures
        extends_lines(sel, push_line(sel, line, max_lines).0, max_lines),
{
    let r = push_line(sel, line, max_lines).0;
    if r.len() > sel.len() {
        assert(r.take(sel.len() as int) =~= sel);
        if sel.no_duplicates() {
            assert forall|i: int, j: int| 0 <= i < r.len() && 0 <= j < r.len() && i != j implies r[i] != r[j] by {
                if i == sel.len() {
                    assert(sel.contains(sel[j]));
                } else if j == sel.len() {
                    assert(sel.contains(sel[i]));
                } else {
                    assert(r[i] == sel[i] && r[j] == sel[j]);
                }
            }
        }
    } else {
        assert(r.take(sel.len() as int) =~= sel);
    }
}

proof fn lemma_extends_trans(a: Seq<Seq<char>>, b: Seq<Seq<char>>, c: Seq<Seq<char>>, max_lines: usize)
    requires
        extends_lines(a, b, max_lines),
        extends_lines(b, c, max_lines),
    ensures
        extends_lines(a, c, max_lines),
{
    assert(c.take(a.len() as int) =~= c.take(b.len() as int).take(a.len() as int));
}

proof fn lemma_high_pass_extends(sel: Seq<Seq<char>>, es: Seq<EntryView>, policy: OmHintPolicyV2)
    ensures
        extends_lines(sel, high_pass(sel, es, policy).0, policy.max_lines),
    decreases es.len(),
{
    if es.len() == 0 {
        assert(sel.take(sel.len() as int) =~= sel);
    } else {
        lemma_high_pass_extends(sel, es.drop_last(), policy);
        let s1 = high_pass(sel, es.drop_last(), policy).0;
        if let Some(t) = norm(es.last().text) {
            lemma_push_line_extends(s1, t, policy.max_lines);
            lemma_extends_trans(sel, s1, push_line(s1, t, policy.max_lines).0, policy.max_lines);
        }
    }
}

proof fn lemma_fill_pass_extends(sel: Seq<Seq<char>>, es: Seq<EntryView>, policy: OmHintPolicyV2, added: int)
    ensures
        extends_lines(sel, fill_pass(sel, es, policy, added), policy.max_lines),
    decreases es.len(),
{
    if es.len() == 0 {
        assert(sel.take(sel.len() as int) =~= sel);
    } else {
        lemma_fill_pass_extends(sel, es.drop_last(), policy, added);
        let s1 = fill_pass(sel, es.drop_last(), policy, added);
        if let Some(t) = norm(es.last().text) {
            lemma_push_line_extends(s1, t, policy.max_lines);
            lemma_extends_trans(sel, s1, push_line(s1, t, policy.max_lines).0, policy.max_lines);
        }
    }
}

/// Every line of a search hint is the current-task line, the
/// suggested-response line, or the text of a visible entry that is not
/// superseded; the lines are at most the policy's line limit, pairwise
/// different, and a reserved current-task line comes first; a hint with no such line is the stored hint, normalised and
/// cut, with the `om: ` prefix when it lacks `om:`.
pub proof fn law_search_hint_sources(task: Option<Seq<char>>, suggested: Option<Seq<char>>, rendered: Option<Seq<char>>, entries: Seq<EntryView>, policy: OmHintPolicyV2)
    ensures
        search_hint(task, suggested, rendered, entries, policy) matches Some(h) ==> {
            ||| exists|sel: Seq<Seq<char>>| {
                &&& sel.len() > 0
                &&& sel.len() <= policy.max_lines
                &&& sel.no_duplicates()
                &&& h == "om: "@ + take_chars(crate::text::join(sel, " | "@), policy.max_chars as int)
                &&& forall|i: int| 0 <= i < sel.len() ==> hint_line_source(#[trigger] sel[i], task, suggested, entries)
                &&& (policy.reserve_current_task_line && task is Some && norm(task->0) is Some)
                    ==> sel[0] == "current-task: "@ + norm(task->0)->0
            }
            ||| (rendered matches Some(r) && norm(r) matches Some(n) && (h == take_chars(n, policy.max_chars as int)
                || h == "om: "@ + take_chars(n, policy.max_chars as int)))
        },
{
    broadcast use vstd::seq_lib::group_to_multiset_ensures;
    if policy.max_lines > 0 && policy.max_chars > 0 {
        let ns = not_superseded(entries);
        let cands = sort_entries(ns, true);
        lemma_not_superseded_members(entries);
        law_sort_entries(ns, true);
        assert forall|i: int| 0 <= i < cands.len() implies entries.contains(#[trigger] cands[i]) && !is_superseded(cands[i]) by {
            assert(cands.contains(cands[i]));
            assert(cands.to_multiset().count(cands[i]) > 0);
            assert(ns.contains(cands[i]));
        }
        let reserved = reserved_lines(task, suggested, policy);
        lemma_reserved_sources(task, suggested, policy, entries);
        lemma_high_pass_sources(reserved, cands, policy, task, suggested, entries);
        let (after_high, added) = high_pass(reserved, cands, policy);
        lemma_fill_pass_sources(after_high, cands, policy, added, task, suggested, entries);
        let sel = fill_pass(after_high, cands, policy, added);
        let s0 = Seq::<Seq<char>>::empty();
        let s1 = match task {
            Some(t) => if policy.reserve_current_task_line && norm(t) is Some {
                push_line(s0, "current-task: "@ + norm(t)->0, policy.max_lines).0
            } else {
                s0
            },
            None => s0,
        };
        assert(s0.no_duplicates());
        if let Some(t) = task {
            if policy.reserve_current_task_line && norm(t) is Some {
                lemma_push_line_extends(s0, "current-task: "@ + norm(t)->0, policy.max_lines);
            }
        }
        assert(extends_lines(s0, s1, policy.max_lines)) by {
            assert(s1.take(0) =~= s0);
        }
        if let Some(t) = suggested {
            if policy.reserve_suggested_response_line && norm(t) is Some {
                lemma_push_line_extends(s1, "suggested-response: "@ + norm(t)->0, policy.max_lines);
            } else {
                assert(reserved.take(s1.len() as int) =~= s1);
            }
        } else {
            assert(reserved.take(s1.len() as int) =~= s1);
        }
        assert(extends_lines(s1, reserved, policy.max_lines));
        lemma_high_pass_extends(reserved, cands, policy);
        lemma_fill_pass_extends(after_high, cands, policy, added);
        lemma_extends_trans(s1, reserved, after_high, policy.max_lines);
        lemma_extends_trans(s1, after_high, sel, policy.max_lines);
        if policy.reserve_current_task_line && task is Some && norm(task->0) is Some {
            assert(s1.len() == 1);
            assert(sel[0] == sel.take(1)[0]);
        }
        if sel.len() > 0 {
            if let Some(h) = search_hint(task, suggested, rendered, entries, policy) {
                assert(h == "om: "@ + take_chars(crate::text::join(sel, " | "@), policy.max_chars as int));
            }
        }
    }
}

} // verus!
