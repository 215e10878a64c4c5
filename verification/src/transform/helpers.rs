//! Token estimates, id merging and whitespace normalisation.

use vstd::prelude::*;
use crate::model::blank;
use crate::text::{chars_to_string, collapse_ws, collapse_ws_exec, str_to_chars, string_chars, string_views, is_blank, chars_eq, views, seqs_contains};

verus! {

/// Rough token estimate: a quarter of the character count, rounded up and
/// capped at `u32::MAX`.
pub open spec fn estimate_tokens(s: Seq<char>) -> u32 {
    if s.len() == 0 {
        0
    } else if (s.len() + 3) / 4 > u32::MAX {
        u32::MAX
    } else {
        ((s.len() + 3) / 4) as u32
    }
}

pub fn estimate_text_tokens(text: &str) -> (r: u32)
    ensures
        r == estimate_tokens(text@),
{
    let v = str_to_chars(text);
    estimate_chars_tokens(v.as_slice())
}

pub fn estimate_chars_tokens(v: &[char]) -> (r: u32)
    ensures
        r == estimate_tokens(v@),
{
    let n = v.len() as u64;
    if n == 0 {
        return 0;
    }
    let t = n / 4 + if n % 4 == 0 { 0 } else { 1 };
    assert(t == (n + 3) / 4);
    if t > u32::MAX as u64 {
        u32::MAX
    } else {
        t as u32
    }
}

/// The non-blank ids of `ids`, each kept at its first occurrence.
pub open spec fn dedup_non_blank(ids: Seq<Seq<char>>) -> Seq<Seq<char>>
    decreases ids.len(),
{
    if ids.len() == 0 {
        Seq::empty()
    } else {
        let prev = dedup_non_blank(ids.drop_last());
        let x = ids.last();
        if blank(x) || prev.contains(x) {
            prev
        } else {
            prev.push(x)
        }
    }
}

/// Appends the non-blank ids of `ids` that `out` does not hold yet.
pub fn push_new_ids(out: &mut Vec<String>, seen: &mut Vec<Vec<char>>, ids: &[String])
    requires
        views(old(seen)@) == string_views(old(out)@),
    ensures
        views(final(seen)@) == string_views(final(out)@),
        forall|p: Seq<Seq<char>>| string_views(old(out)@) == dedup_non_blank(p) ==> string_views(final(out)@)
            == dedup_non_blank(p + string_views(ids@)),
{
    let mut i: usize = 0;
    while i < ids.len()
        invariant
            i <= ids.len(),
            views(seen@) == string_views(out@),
            forall|p: Seq<Seq<char>>| string_views(old(out)@) == dedup_non_blank(p) ==> string_views(out@)
                == dedup_non_blank(p + string_views(ids@).take(i as int)),
        decreases ids.len() - i,
    {
        let c = string_chars(&ids[i]);
        let ghost before = string_views(out@);
        proof {
            assert forall|p: Seq<Seq<char>>| string_views(old(out)@) == dedup_non_blank(p) implies (p + string_views(ids@).take(i + 1)).drop_last() == p + string_views(ids@).take(i as int)
                && (p + string_views(ids@).take(i + 1)).last() == c@ by {
                assert((p + string_views(ids@).take(i + 1)).drop_last() =~= p + string_views(ids@).take(i as int));
            }
        }
        if !is_blank(c.as_slice()) && !seqs_contains(seen, c.as_slice()) {
            out.push(chars_to_string(c.as_slice()));
            seen.push(c);
            assert(string_views(out@) =~= before.push(c@));
            assert(views(seen@) =~= string_views(out@));
        }
        i += 1;
    }
    assert(string_views(ids@).take(ids.len() as int) =~= string_views(ids@));
}

/// The ids of `existing` then `activated`, blanks dropped, each kept once
/// at its first occurrence.
pub fn merge_activated_message_ids(existing: &[String], activated: &[String]) -> (r: Vec<String>)
    ensures
        string_views(r@) == dedup_non_blank(string_views(existing@) + string_views(activated@)),
{
    let mut out: Vec<String> = Vec::new();
    let mut seen: Vec<Vec<char>> = Vec::new();
    let ghost empty = Seq::<Seq<char>>::empty();
    assert(string_views(out@) =~= dedup_non_blank(empty));
    assert(views(seen@) =~= string_views(out@));
    push_new_ids(&mut out, &mut seen, existing);
    assert(empty + string_views(existing@) =~= string_views(existing@));
    push_new_ids(&mut out, &mut seen, activated);
    out
}

/// `text.split_whitespace()` joined by single spaces.
pub fn normalize_whitespace(text: &str) -> (r: String)
    ensures
        r@ == collapse_ws(text@),
{
    let v = str_to_chars(text);
    let c = collapse_ws_exec(v.as_slice());
    chars_to_string(c.as_slice())
}


/// The merged ids hold no blank id and no id twice, and hold exactly the
/// non-blank ids of the input.
pub proof fn law_dedup_non_blank(ids: Seq<Seq<char>>)
    ensures
        forall|i: int| 0 <= i < dedup_non_blank(ids).len() ==> !blank(#[trigger] dedup_non_blank(ids)[i]),
        forall|i: int, j: int|
            0 <= i < j < dedup_non_blank(ids).len() ==> #[trigger] dedup_non_blank(ids)[i]
                != #[trigger] dedup_non_blank(ids)[j],
        forall|y: Seq<char>| #[trigger] dedup_non_blank(ids).contains(y) <==> (!blank(y) && ids.contains(y)),
    decreases ids.len(),
{
    if ids.len() > 0 {
        law_dedup_non_blank(ids.drop_last());
        let prev = dedup_non_blank(ids.drop_last());
        let x = ids.last();
        let r = dedup_non_blank(ids);
        if !(blank(x) || prev.contains(x)) {
            assert(r == prev.push(x));
            assert forall|i: int, j: int| 0 <= i < j < r.len() implies #[trigger] r[i] != #[trigger] r[j] by {
                if j == prev.len() {
                    assert(r[i] == prev[i]);
                    if r[i] == x {
                        assert(prev.contains(x));
                    }
                } else {
                    assert(r[i] == prev[i] && r[j] == prev[j]);
                }
            }
            assert forall|i: int| 0 <= i < r.len() implies !blank(#[trigger] r[i]) by {
                if i < prev.len() {
                    assert(r[i] == prev[i]);
                }
            }
        }
        assert forall|y: Seq<char>| #[trigger] r.contains(y) <==> (!blank(y) && ids.contains(y)) by {
            if r.contains(y) {
                let k = choose|k: int| 0 <= k < r.len() && r[k] == y;
                if k < prev.len() && r[k] == prev[k] {
                    assert(prev.contains(y));
                    let m = choose|m: int| 0 <= m < ids.drop_last().len() && ids.drop_last()[m] == y;
                    assert(ids[m] == y);
                } else {
                    assert(ids[ids.len() - 1] == y);
                }
            }
            if !blank(y) && ids.contains(y) {
                let m = choose|m: int| 0 <= m < ids.len() && ids[m] == y;
                if m < ids.len() - 1 {
                    assert(ids.drop_last()[m] == y);
                    assert(prev.contains(y));
                    let k = choose|k: int| 0 <= k < prev.len() && prev[k] == y;
                    if !(blank(x) || prev.contains(x)) {
                        assert(r[k] == y);
                    }
                } else {
                    if !(blank(x) || prev.contains(x)) {
                        assert(r[prev.len() as int] == y);
                    }
                }
            }
        }
    }
}

} // verus!
