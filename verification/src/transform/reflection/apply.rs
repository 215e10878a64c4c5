//! Applying a reflection to the observation entries it covers.

use vstd::prelude::*;
use crate::model::{OmObservationEntryV2, OmObservationOriginKind, OmObservationPriority, OmReflectionResponseV2};
use crate::sorting::{sort_unique, sorted_unique};
use crate::text::{
    chars_eq, chars_of_strings, chars_to_string, seqs_contains, str_to_chars, string_chars,
    string_views, strings_from, trim, trim_exec, views,
};
use crate::transform::observer::continuation::{normalize_ids, normalized_ids, trimmed_ids};
use crate::transform::snapshot::{EntryView, copy_entries, copy_entry, entry_view, entry_views};

verus! {

/// The source ids of the covered entries, in order.
pub open spec fn covered_sources(es: Seq<EntryView>, covered: Seq<Seq<char>>) -> Seq<Seq<char>>
    decreases es.len(),
{
    if es.len() == 0 {
        Seq::empty()
    } else {
        let prev = covered_sources(es.drop_last(), covered);
        let e = es.last();
        if covered.contains(e.entry_id) {
            prev + e.source_message_ids
        } else {
            prev
        }
    }
}

/// The entry marked as superseded by `id`.
pub open spec fn superseded(e: EntryView, id: Seq<char>) -> EntryView {
    EntryView {
        entry_id: e.entry_id,
        scope_key: e.scope_key,
        thread_id: e.thread_id,
        priority: e.priority,
        text: e.text,
        source_message_ids: e.source_message_ids,
        origin_kind: e.origin_kind,
        created_at_rfc3339: e.created_at_rfc3339,
        superseded_by: Some(id),
    }
}

/// The entries, covered ones marked as superseded by `id`.
pub open spec fn mark_covered(es: Seq<EntryView>, covered: Seq<Seq<char>>, id: Seq<char>) -> Seq<EntryView> {
    es.map_values(
        |e: EntryView|
            if covered.contains(e.entry_id) {
                superseded(e, id)
            } else {
                e
            },
    )
}

/// Index of the first entry with the given id, or the number of entries.
pub open spec fn first_with_id(es: Seq<EntryView>, id: Seq<char>) -> int
    decreases es.len(),
{
    if es.len() == 0 {
        0
    } else if es[0].entry_id == id {
        0
    } else {
        1 + first_with_id(es.drop_first(), id)
    }
}

/// The trimmed text, or `fallback` when it is blank.
pub open spec fn or_trimmed(value: Seq<char>, fallback: Seq<char>) -> Seq<char> {
    if trim(value).len() == 0 {
        fallback
    } else {
        trim(value)
    }
}

/// Entries after applying a reflection: when the reflection id and text are
/// not blank and it covers at least one present entry, the covered entries
/// are marked superseded by the reflection, and the reflection entry
/// (updated in place when one with its id exists, appended otherwise)
/// carries the text, medium priority, reflection origin and the sorted
/// distinct source ids of the covered entries. Otherwise the entries are
/// returned unchanged.
pub open spec fn applied_reflection(entries: Seq<EntryView>, covers: Seq<Seq<char>>, reflection_text: Seq<char>, reflection_id: Seq<char>, scope_key: Seq<char>, thread_id: Seq<char>, created_at: Seq<char>) -> Seq<EntryView> {
    let id = trim(reflection_id);
    let text = trim(reflection_text);
    let covered = normalized_ids(covers);
    let matched = exists|i: int| 0 <= i < entries.len() && covered.contains(#[trigger] entries[i].entry_id);
    if id.len() == 0 || text.len() == 0 || covered.len() == 0 || !matched {
        entries
    } else {
        let marked = mark_covered(entries, covered, id);
        let sources = sorted_unique(trimmed_ids(covered_sources(entries, covered)));
        let j = first_with_id(marked, id);
        if j < marked.len() {
            let e = marked[j];
            marked.update(
                j,
                EntryView {
                    entry_id: e.entry_id,
                    scope_key: or_trimmed(scope_key, e.scope_key),
                    thread_id: or_trimmed(thread_id, e.thread_id),
                    priority: OmObservationPriority::Medium,
                    text: text,
                    source_message_ids: sources,
                    origin_kind: OmObservationOriginKind::Reflection,
                    created_at_rfc3339: or_trimmed(created_at, e.created_at_rfc3339),
                    superseded_by: None,
                },
            )
        } else {
            marked.push(
                EntryView {
                    entry_id: id,
                    scope_key: trim(scope_key),
                    thread_id: trim(thread_id),
                    priority: OmObservationPriority::Medium,
                    text: text,
                    source_message_ids: sources,
                    origin_kind: OmObservationOriginKind::Reflection,
                    created_at_rfc3339: trim(created_at),
                    superseded_by: None,
                },
            )
        }
    }
}

fn trimmed_or(value: &str, fallback: &String) -> (r: String)
    ensures
        r@ == or_trimmed(value@, fallback@),
{
    let c = str_to_chars(value);
    let t = trim_exec(c.as_slice());
    if t.len() == 0 {
        fallback.clone()
    } else {
        chars_to_string(t.as_slice())
    }
}

fn trimmed_string(value: &str) -> (r: String)
    ensures
        r@ == trim(value@),
{
    let c = str_to_chars(value);
    let t = trim_exec(c.as_slice());
    chars_to_string(t.as_slice())
}

pub fn apply_reflection_response_v2(entries: &[OmObservationEntryV2], response: &OmReflectionResponseV2, reflection_entry_id: &str, scope_key: &str, thread_id: &str, created_at_rfc3339: &str) -> (r: Vec<OmObservationEntryV2>)
    ensures
        entry_views(r@) == applied_reflection(
            entry_views(entries@),
            string_views(response.covers_entry_ids@),
            response.reflection_text@,
            reflection_entry_id@,
            scope_key@,
            thread_id@,
            created_at_rfc3339@,
        ),
{
    let ghost s = entry_views(entries@);
    let idc = str_to_chars(reflection_entry_id);
    let id = trim_exec(idc.as_slice());
    let tc = string_chars(&response.reflection_text);
    let text = trim_exec(tc.as_slice());
    if id.len() == 0 || text.len() == 0 {
        return copy_entries(entries);
    }
    let covered_s = normalize_ids(response.covers_entry_ids.as_slice());
    let covered = chars_of_strings(&covered_s);
    let ghost cv = views(covered@);
    if covered.len() == 0 {
        return copy_entries(entries);
    }
    let id_string = chars_to_string(id.as_slice());
    let mut next: Vec<OmObservationEntryV2> = Vec::new();
    let mut raw_sources: Vec<Vec<char>> = Vec::new();
    let mut matched = false;
    let mut i: usize = 0;
    while i < entries.len()
        invariant
            i <= entries.len(),
            s == entry_views(entries@),
            cv == views(covered@),
            id_string@ == id@,
            entry_views(next@) == mark_covered(s.take(i as int), cv, id@),
            views(raw_sources@) == covered_sources(s.take(i as int), cv),
            matched == exists|k: int| 0 <= k < i && cv.contains(#[trigger] s[k].entry_id),
        decreases entries.len() - i,
    {
        proof {
            assert(s.take(i + 1).drop_last() =~= s.take(i as int));
            assert(s.take(i + 1).last() == s[i as int]);
            assert(s[i as int] == entry_view(entries@[i as int]));
        }
        let ghost before = entry_views(next@);
        let ghost before_sources = views(raw_sources@);
        let mut e = copy_entry(&entries[i]);
        let eid = string_chars(&entries[i].entry_id);
        if seqs_contains(&covered, eid.as_slice()) {
            matched = true;
            e.superseded_by = Some(id_string.clone());
            let ids = chars_of_strings(&entries[i].source_message_ids);
            let mut k: usize = 0;
            while k < ids.len()
                invariant
                    k <= ids.len(),
                    views(raw_sources@) == before_sources + views(ids@).take(k as int),
                decreases ids.len() - k,
            {
                let ghost b = views(raw_sources@);
                let x = crate::text::copy_range(ids[k].as_slice(), 0, ids[k].len());
                assert(x@ =~= views(ids@)[k as int]);
                raw_sources.push(x);
                proof {
                    assert(views(raw_sources@) =~= b.push(views(ids@)[k as int]));
                    assert(views(ids@).take(k + 1) =~= views(ids@).take(k as int).push(views(ids@)[k as int]));
                }
                k += 1;
            }
            assert(views(ids@).take(ids.len() as int) =~= views(ids@));
        }
        next.push(e);
        proof {
            assert(entry_views(next@) =~= before.push(entry_views(next@).last()));
            assert(mark_covered(s.take(i + 1), cv, id@) =~= mark_covered(s.take(i as int), cv, id@).push(
                mark_covered(s.take(i + 1), cv, id@)[i as int],
            ));
        }
        i += 1;
    }
    assert(s.take(entries.len() as int) =~= s);
    if !matched {
        return copy_entries(entries);
    }
    // Trimmed, non-empty source ids, sorted and without duplicates.
    let ghost rs = views(raw_sources@);
    let mut trimmed: Vec<Vec<char>> = Vec::new();
    let mut k: usize = 0;
    while k < raw_sources.len()
        invariant
            k <= raw_sources.len(),
            rs == views(raw_sources@),
            views(trimmed@) == trimmed_ids(rs.take(k as int)),
        decreases raw_sources.len() - k,
    {
        proof {
            assert(rs.take(k + 1).drop_last() =~= rs.take(k as int));
            assert(rs.take(k + 1).last() == rs[k as int]);
        }
        let ghost b = views(trimmed@);
        let t = trim_exec(raw_sources[k].as_slice());
        if t.len() > 0 {
            trimmed.push(t);
            assert(views(trimmed@) =~= b.push(trim(rs[k as int])));
        }
        k += 1;
    }
    assert(rs.take(raw_sources.len() as int) =~= rs);
    let sorted = sort_unique(&trimmed);
    let sources = strings_from(&sorted);
    let ghost marked = entry_views(next@);
    // Find the reflection entry.
    let mut j: usize = 0;
    while j < next.len() && !chars_eq(string_chars(&next[j].entry_id).as_slice(), id.as_slice())
        invariant
            j <= next.len(),
            marked == entry_views(next@),
            forall|m: int| 0 <= m < j ==> marked[m].entry_id != id@,
        decreases next.len() - j,
    {
        assert(marked[j as int] == entry_view(next@[j as int]));
        j += 1;
    }
    proof {
        lemma_first_with_id_at(marked, id@, j as int);
    }
    if j < next.len() {
        let existing = &next[j];
        let updated = OmObservationEntryV2 {
            entry_id: existing.entry_id.clone(),
            scope_key: trimmed_or(scope_key, &existing.scope_key),
            thread_id: trimmed_or(thread_id, &existing.thread_id),
            priority: OmObservationPriority::Medium,
            text: chars_to_string(text.as_slice()),
            source_message_ids: sources,
            origin_kind: OmObservationOriginKind::Reflection,
            created_at_rfc3339: trimmed_or(created_at_rfc3339, &existing.created_at_rfc3339),
            superseded_by: None,
        };
        proof {
            assert(marked[j as int] == entry_view(next@[j as int]));
        }
        let ghost uv = entry_view(updated);
        next.set(j, updated);
        assert(entry_views(next@) =~= marked.update(j as int, uv));
        return next;
    }
    let ghost before = entry_views(next@);
    let fresh = OmObservationEntryV2 {
        entry_id: id_string,
        scope_key: trimmed_string(scope_key),
        thread_id: trimmed_string(thread_id),
        priority: OmObservationPriority::Medium,
        text: chars_to_string(text.as_slice()),
        source_message_ids: sources,
        origin_kind: OmObservationOriginKind::Reflection,
        created_at_rfc3339: trimmed_string(created_at_rfc3339),
        superseded_by: None,
    };
    next.push(fresh);
    assert(entry_views(next@) =~= before.push(entry_views(next@).last()));
    next
}

proof fn lemma_first_with_id_at(es: Seq<EntryView>, id: Seq<char>, j: int)
    requires
        0 <= j <= es.len(),
        j < es.len() ==> es[j].entry_id == id,
        forall|m: int| 0 <= m < j ==> es[m].entry_id != id,
    ensures
        first_with_id(es, id) == j,
    decreases es.len(),
{
    if es.len() > 0 && j > 0 {
        assert forall|m: int| 0 <= m < j - 1 implies es.drop_first()[m].entry_id != id by {
            assert(es.drop_first()[m] == es[m + 1]);
        }
        if j - 1 < es.drop_first().len() {
            assert(es.drop_first()[j - 1] == es[j]);
        }
        lemma_first_with_id_at(es.drop_first(), id, j - 1);
    }
}

} // verus!
