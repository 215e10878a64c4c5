//! A short hint line drawn from the active observations.

use vstd::prelude::*;
use crate::text::{collapse_ws, collapse_ws_exec, contains, contains_char_exec, contains_str, join, join_exec, lines, lines_exec, lower, starts_with, starts_with_str, str_to_chars, take_chars, take_chars_exec, to_ascii_lower, trim, trim_exec, views, seqs_contains, chars_to_string, extend};

verus! {

/// Prefix of every observation hint.
pub const OBSERVATION_HINT_PREFIX: &'static str = "om:";

/// Lines of the text, whitespace-collapsed, empty ones dropped.
pub open spec fn compact_lines(ls: Seq<Seq<char>>) -> Seq<Seq<char>>
    decreases ls.len(),
{
    if ls.len() == 0 {
        Seq::empty()
    } else {
        let c = collapse_ws(ls.last());
        compact_lines(ls.drop_last()) + if c.len() > 0 {
            seq![c]
        } else {
            Seq::empty()
        }
    }
}

/// A line that carries continuation state (task or suggested reply).
pub open spec fn is_continuation_reservation(line: Seq<char>) -> bool {
    let l = lower(line);
    ||| contains(l, "<current-task>"@)
    ||| contains(l, "<suggested-response>"@)
    ||| starts_with(l, "current-task:"@)
    ||| starts_with(l, "suggested-response:"@)
    ||| starts_with(l, "next:"@)
}

/// A line marked as high priority.
pub open spec fn is_high_priority(line: Seq<char>) -> bool {
    let l = lower(line);
    ||| line.contains('🔴')
    ||| starts_with(l, "high:"@)
    ||| starts_with(l, "[high]"@)
    ||| starts_with(l, "priority:high"@)
    ||| contains(l, " priority:high"@)
}

/// Selection pass `kind`: continuation lines (0), high-priority lines (1),
/// any line (2).
pub open spec fn qualifies(kind: u8, line: Seq<char>) -> bool {
    if kind == 0 {
        is_continuation_reservation(line)
    } else if kind == 1 {
        is_high_priority(line)
    } else {
        true
    }
}

/// State of the selection: chosen line indices, how many, and the texts seen.
pub struct Picks {
    pub chosen: Set<int>,
    pub count: nat,
    pub seen: Seq<Seq<char>>,
}

/// One step of a pass: index `idx` is chosen when room remains, the line
/// qualifies for the pass, and no equal line was seen before.
pub open spec fn pick_step(ls: Seq<Seq<char>>, kind: u8, max: nat, st: Picks, idx: int) -> Picks {
    if st.count < max && qualifies(kind, ls[idx]) && !st.seen.contains(ls[idx]) {
        Picks { chosen: st.chosen.insert(idx), count: st.count + 1, seen: st.seen.push(ls[idx]) }
    } else {
        st
    }
}

/// A pass over the last `k` lines, from the last one backwards.
pub open spec fn pick_pass(ls: Seq<Seq<char>>, kind: u8, max: nat, st: Picks, k: int) -> Picks
    decreases k,
{
    if k <= 0 {
        st
    } else {
        pick_step(ls, kind, max, pick_pass(ls, kind, max, st, k - 1), ls.len() - k)
    }
}

/// The three passes in order.
pub open spec fn picks(ls: Seq<Seq<char>>, max: nat) -> Picks {
    let n = ls.len() as int;
    let p0 = pick_pass(ls, 0, max, Picks { chosen: Set::empty(), count: 0, seen: Seq::empty() }, n);
    let p1 = pick_pass(ls, 1, max, p0, n);
    pick_pass(ls, 2, max, p1, n)
}

/// The first `k` lines that are chosen, in their original order.
pub open spec fn chosen_lines(ls: Seq<Seq<char>>, chosen: Set<int>, k: int) -> Seq<Seq<char>>
    decreases k,
{
    if k <= 0 {
        Seq::empty()
    } else {
        chosen_lines(ls, chosen, k - 1) + if chosen.contains(k - 1) {
            seq![ls[k - 1]]
        } else {
            Seq::empty()
        }
    }
}

/// The hint: the chosen lines joined by spaces, cut to `max_chars`
/// characters, trimmed, after `"om: "`.
pub open spec fn bounded_hint(text: Seq<char>, max_lines: nat, max_chars: nat) -> Option<Seq<char>> {
    let ls = compact_lines(lines(text));
    let sel = chosen_lines(ls, picks(ls, max_lines).chosen, ls.len() as int);
    let b = trim(take_chars(join(sel, seq![' ']), max_chars as int));
    if max_lines == 0 || max_chars == 0 || ls.len() == 0 || sel.len() == 0 || b.len() == 0 {
        None
    } else {
        Some("om:"@ + seq![' '] + b)
    }
}

fn is_continuation_reservation_exec(line: &[char]) -> (r: bool)
    ensures
        r == is_continuation_reservation(line@),
{
    let l = to_ascii_lower(line);
    contains_str(l.as_slice(), "<current-task>") || contains_str(l.as_slice(), "<suggested-response>")
        || starts_with_str(l.as_slice(), "current-task:") || starts_with_str(l.as_slice(), "suggested-response:")
        || starts_with_str(l.as_slice(), "next:")
}

fn is_high_priority_exec(line: &[char]) -> (r: bool)
    ensures
        r == is_high_priority(line@),
{
    let l = to_ascii_lower(line);
    contains_char_exec(line, '🔴') || starts_with_str(l.as_slice(), "high:") || starts_with_str(l.as_slice(), "[high]")
        || starts_with_str(l.as_slice(), "priority:high") || contains_str(l.as_slice(), " priority:high")
}

fn qualifies_exec(kind: u8, line: &[char]) -> (r: bool)
    ensures
        r == qualifies(kind, line@),
{
    if kind == 0 {
        is_continuation_reservation_exec(line)
    } else if kind == 1 {
        is_high_priority_exec(line)
    } else {
        true
    }
}

/// The non-empty, whitespace-collapsed lines of `text`.
fn compact_lines_exec(text: &[char]) -> (r: Vec<Vec<char>>)
    ensures
        views(r@) == compact_lines(lines(text@)),
{
    let raw = lines_exec(text);
    let ghost ls = views(raw@);
    assert(ls == lines(text@));
    let mut out: Vec<Vec<char>> = Vec::new();
    let mut i: usize = 0;
    while i < raw.len()
        invariant
            i <= raw.len(),
            ls == views(raw@),
            views(out@) == compact_lines(ls.take(i as int)),
        decreases raw.len() - i,
    {
        let c = collapse_ws_exec(raw[i].as_slice());
        proof {
            assert(ls.take(i + 1).drop_last() =~= ls.take(i as int));
            assert(ls.take(i + 1).last() == raw@[i as int]@);
        }
        if c.len() > 0 {
            out.push(c);
        }
        proof {
            assert(views(out@) =~= compact_lines(ls.take(i + 1)));
        }
        i += 1;
    }
    assert(ls.take(raw.len() as int) =~= ls);
    out
}

/// Runs one selection pass over all lines.
fn pick_pass_exec(
    ls: &Vec<Vec<char>>,
    kind: u8,
    max: usize,
    chosen: &mut Vec<bool>,
    count: &mut usize,
    seen: &mut Vec<Vec<char>>,
    Ghost(st): Ghost<Picks>,
) -> (res: Ghost<Picks>)
    requires
        old(chosen)@.len() == ls@.len(),
        forall|i: int| 0 <= i < ls@.len() ==> (old(chosen)@[i] <==> st.chosen.contains(i)),
        *old(count) == st.count,
        views(old(seen)@) == st.seen,
        st.count <= max,
    ensures
        res@ == pick_pass(views(ls@), kind, max as nat, st, ls@.len() as int),
        final(chosen)@.len() == ls@.len(),
        forall|i: int| 0 <= i < ls@.len() ==> (final(chosen)@[i] <==> res@.chosen.contains(i)),
        *final(count) == res@.count,
        views(final(seen)@) == res@.seen,
        res@.count <= max,
{
    let ghost lv = views(ls@);
    let n = ls.len();
    let mut idx = n;
    let ghost mut cur = st;
    while idx > 0
        invariant
            n == ls@.len(),
            lv == views(ls@),
            idx <= n,
            cur == pick_pass(lv, kind, max as nat, st, (n - idx) as int),
            chosen@.len() == n,
            forall|i: int| 0 <= i < n ==> (chosen@[i] <==> cur.chosen.contains(i)),
            *count == cur.count,
            views(seen@) == cur.seen,
            cur.count <= max,
        decreases idx,
    {
        idx -= 1;
        let line = &ls[idx];
        let ghost prev = cur;
        proof {
            assert(lv[idx as int] == line@);
            cur = pick_step(lv, kind, max as nat, prev, idx as int);
            assert(lv.len() - (n - idx) == idx);
        }
        if *count < max && qualifies_exec(kind, line.as_slice()) && !seqs_contains(seen, line.as_slice()) {
            chosen.set(idx, true);
            *count = *count + 1;
            seen.push(line.clone());
            proof {
                assert(views(seen@) =~= prev.seen.push(line@));
            }
        }
    }
    Ghost(cur)
}

/// A hint of at most `max_lines` observation lines and `max_chars`
/// characters, prefixed by `"om: "`. Continuation lines are kept first, then
/// high-priority lines, then the most recent ones; equal lines count once and
/// the kept lines stay in their original order.
pub fn build_bounded_observation_hint(active_observations: &str, max_lines: usize, max_chars: usize) -> (r: Option<String>)
    ensures
        r matches Some(s) ==> bounded_hint(active_observations@, max_lines as nat, max_chars as nat) == Some(s@),
        r is None ==> bounded_hint(active_observations@, max_lines as nat, max_chars as nat) is None,
{
    if max_lines == 0 || max_chars == 0 {
        return None;
    }
    let text = str_to_chars(active_observations);
    let ls = compact_lines_exec(text.as_slice());
    if ls.len() == 0 {
        return None;
    }
    let ghost lv = views(ls@);
    let n = ls.len();
    let mut chosen: Vec<bool> = Vec::new();
    let mut i: usize = 0;
    while i < n
        invariant
            i <= n,
            chosen@.len() == i,
            forall|j: int| 0 <= j < i ==> !chosen@[j],
        decreases n - i,
    {
        chosen.push(false);
        i += 1;
    }
    let mut count: usize = 0;
    let mut seen: Vec<Vec<char>> = Vec::new();
    let ghost st0 = Picks { chosen: Set::empty(), count: 0, seen: Seq::empty() };
    assert(views(seen@) =~= st0.seen);
    let g0 = pick_pass_exec(&ls, 0, max_lines, &mut chosen, &mut count, &mut seen, Ghost(st0));
    let g1 = pick_pass_exec(&ls, 1, max_lines, &mut chosen, &mut count, &mut seen, g0);
    let g2 = pick_pass_exec(&ls, 2, max_lines, &mut chosen, &mut count, &mut seen, g1);
    assert(g2@ == picks(lv, max_lines as nat));
    let mut sel: Vec<Vec<char>> = Vec::new();
    let mut k: usize = 0;
    while k < n
        invariant
            k <= n,
            n == ls@.len(),
            lv == views(ls@),
            chosen@.len() == n,
            forall|j: int| 0 <= j < n ==> (chosen@[j] <==> g2@.chosen.contains(j)),
            views(sel@) == chosen_lines(lv, g2@.chosen, k as int),
        decreases n - k,
    {
        if chosen[k] {
            sel.push(ls[k].clone());
        }
        proof {
            assert(views(sel@) =~= chosen_lines(lv, g2@.chosen, k + 1));
        }
        k += 1;
    }
    if sel.len() == 0 {
        return None;
    }
    let sep: Vec<char> = vec![' '];
    let joined = join_exec(&sel, sep.as_slice());
    assert(sel@.map_values(|p: Vec<char>| p@) == views(sel@));
    assert(sep@ =~= seq![' ']);
    let cut = take_chars_exec(joined.as_slice(), max_chars);
    let bounded = trim_exec(cut.as_slice());
    if bounded.len() == 0 {
        return None;
    }
    let mut out = str_to_chars(OBSERVATION_HINT_PREFIX);
    out.push(' ');
    extend(&mut out, bounded.as_slice());
    proof {
        reveal_strlit("om:");
    }
    Some(chars_to_string(out.as_slice()))
}


/// The hint never exceeds its character budget beyond the `om: ` prefix.
pub proof fn law_bounded_hint_budget(text: Seq<char>, max_lines: nat, max_chars: nat)
    ensures
        bounded_hint(text, max_lines, max_chars) matches Some(h) ==> h.len() <= max_chars + 4,
{
    reveal_strlit("om:");
    let ls = compact_lines(lines(text));
    let sel = chosen_lines(ls, picks(ls, max_lines).chosen, ls.len() as int);
    let cut = take_chars(join(sel, seq![' ']), max_chars as int);
    crate::text::lemma_trim_start_is_suffix(cut);
    crate::text::lemma_trim_end_is_prefix(crate::text::trim_start(cut));
}


/// How many of the indices below `k` are chosen.
pub open spec fn chosen_count(chosen: Set<int>, k: int) -> nat
    decreases k,
{
    if k <= 0 {
        0
    } else {
        chosen_count(chosen, k - 1) + if chosen.contains(k - 1) { 1nat } else { 0nat }
    }
}

/// What every selection state keeps: at most `max` lines chosen, all within
/// the text, with pairwise different texts, each one seen.
pub open spec fn picks_ok(ls: Seq<Seq<char>>, max: nat, st: Picks) -> bool {
    &&& st.count <= max
    &&& chosen_count(st.chosen, ls.len() as int) == st.count
    &&& forall|i: int| #[trigger] st.chosen.contains(i) ==> 0 <= i < ls.len()
    &&& forall|i: int| #[trigger] st.chosen.contains(i) ==> st.seen.contains(ls[i])
    &&& forall|i: int, j: int| #[trigger] st.chosen.contains(i) && #[trigger] st.chosen.contains(j) && i != j ==> ls[i] != ls[j]
}

proof fn lemma_chosen_count_insert(c: Set<int>, x: int, k: int)
    requires
        !c.contains(x),
    ensures
        chosen_count(c.insert(x), k) == chosen_count(c, k) + if 0 <= x < k { 1nat } else { 0nat },
    decreases k,
{
    if k > 0 {
        lemma_chosen_count_insert(c, x, k - 1);
    }
}

proof fn lemma_pick_step_ok(ls: Seq<Seq<char>>, kind: u8, max: nat, st: Picks, idx: int)
    requires
        picks_ok(ls, max, st),
        0 <= idx < ls.len(),
    ensures
        picks_ok(ls, max, pick_step(ls, kind, max, st, idx)),
{
    if st.count < max && qualifies(kind, ls[idx]) && !st.seen.contains(ls[idx]) {
        let n = pick_step(ls, kind, max, st, idx);
        assert(!st.chosen.contains(idx));
        lemma_chosen_count_insert(st.chosen, idx, ls.len() as int);
        assert forall|i: int| #[trigger] n.chosen.contains(i) implies n.seen.contains(ls[i]) by {
            if i == idx {
                assert(n.seen[n.seen.len() - 1] == ls[idx]);
            } else {
                let w = choose|w: int| 0 <= w < st.seen.len() && st.seen[w] == ls[i];
                assert(n.seen[w] == ls[i]);
            }
        }
        assert forall|i: int, j: int| #[trigger] n.chosen.contains(i) && #[trigger] n.chosen.contains(j) && i != j implies ls[i] != ls[j] by {
            if i == idx {
                assert(st.seen.contains(ls[j]));
            } else if j == idx {
                assert(st.seen.contains(ls[i]));
            }
        }
    }
}

proof fn lemma_pick_pass_ok(ls: Seq<Seq<char>>, kind: u8, max: nat, st: Picks, k: int)
    requires
        picks_ok(ls, max, st),
        k <= ls.len(),
    ensures
        picks_ok(ls, max, pick_pass(ls, kind, max, st, k)),
    decreases k,
{
    if k > 0 {
        lemma_pick_pass_ok(ls, kind, max, st, k - 1);
        lemma_pick_step_ok(ls, kind, max, pick_pass(ls, kind, max, st, k - 1), ls.len() - k);
    }
}

proof fn lemma_chosen_count_empty(k: int)
    ensures
        chosen_count(Set::<int>::empty(), k) == 0,
    decreases k,
{
    if k > 0 {
        lemma_chosen_count_empty(k - 1);
    }
}

proof fn lemma_picks_ok(ls: Seq<Seq<char>>, max: nat)
    ensures
        picks_ok(ls, max, picks(ls, max)),
{
    let n = ls.len() as int;
    let st0 = Picks { chosen: Set::empty(), count: 0, seen: Seq::empty() };
    lemma_chosen_count_empty(n);
    lemma_pick_pass_ok(ls, 0, max, st0, n);
    let p0 = pick_pass(ls, 0, max, st0, n);
    lemma_pick_pass_ok(ls, 1, max, p0, n);
    let p1 = pick_pass(ls, 1, max, p0, n);
    lemma_pick_pass_ok(ls, 2, max, p1, n);
}

/// The chosen lines below `k` are as many as the chosen indices, are taken
/// at increasing chosen indices, and differ pairwise when the chosen lines do.
proof fn lemma_chosen_lines(ls: Seq<Seq<char>>, chosen: Set<int>, k: int) -> (idx: Seq<int>)
    requires
        0 <= k <= ls.len(),
        forall|i: int, j: int| #[trigger] chosen.contains(i) && #[trigger] chosen.contains(j) && 0 <= i < ls.len()
            && 0 <= j < ls.len() && i != j ==> ls[i] != ls[j],
    ensures
        idx.len() == chosen_lines(ls, chosen, k).len(),
        chosen_lines(ls, chosen, k).len() == chosen_count(chosen, k),
        forall|a: int| 0 <= a < idx.len() ==> 0 <= #[trigger] idx[a] < k && chosen.contains(idx[a])
            && chosen_lines(ls, chosen, k)[a] == ls[idx[a]],
        forall|a: int, b: int| 0 <= a < b < idx.len() ==> #[trigger] idx[a] < #[trigger] idx[b],
        chosen_lines(ls, chosen, k).no_duplicates(),
    decreases k,
{
    if k <= 0 {
        Seq::empty()
    } else {
        let prev = lemma_chosen_lines(ls, chosen, k - 1);
        let cl = chosen_lines(ls, chosen, k - 1);
        let r = chosen_lines(ls, chosen, k);
        if chosen.contains(k - 1) {
            let idx = prev.push(k - 1);
            assert(r == cl.push(ls[k - 1]));
            assert forall|a: int| 0 <= a < idx.len() implies 0 <= #[trigger] idx[a] < k && chosen.contains(idx[a])
                && r[a] == ls[idx[a]] by {
                if a < prev.len() {
                    assert(idx[a] == prev[a]);
                }
            }
            assert forall|a: int, b: int| 0 <= a < b < idx.len() implies #[trigger] idx[a] < #[trigger] idx[b] by {
                if b == prev.len() {
                    assert(idx[a] == prev[a]);
                } else {
                    assert(idx[a] == prev[a] && idx[b] == prev[b]);
                }
            }
            assert forall|a: int, b: int| 0 <= a < r.len() && 0 <= b < r.len() && a != b implies r[a] != r[b] by {
                assert(chosen.contains(idx[a]) && chosen.contains(idx[b]));
                if a < b {
                    assert(idx[a] < idx[b]);
                } else {
                    assert(idx[b] < idx[a]);
                }
            }
            idx
        } else {
            assert(r =~= cl);
            prev
        }
    }
}

proof fn lemma_compact_lines_non_empty(ls: Seq<Seq<char>>)
    ensures
        forall|i: int| 0 <= i < compact_lines(ls).len() ==> (#[trigger] compact_lines(ls)[i]).len() > 0,
    decreases ls.len(),
{
    if ls.len() > 0 {
        lemma_compact_lines_non_empty(ls.drop_last());
        let prev = compact_lines(ls.drop_last());
        let c = collapse_ws(ls.last());
        assert forall|i: int| 0 <= i < compact_lines(ls).len() implies (#[trigger] compact_lines(ls)[i]).len() > 0 by {
            if i < prev.len() {
                assert(compact_lines(ls)[i] == prev[i]);
            }
        }
    }
}

/// The observation hint is drawn from at most `max_lines` different
/// observation lines: whitespace-collapsed, non-empty lines of the text,
/// kept in the order of the text; the hint is `om: ` and their
/// space-separated join, cut to `max_chars` characters and trimmed.
pub proof fn law_bounded_hint_lines(text: Seq<char>, max_lines: nat, max_chars: nat)
    ensures
        ({
            let ls = compact_lines(lines(text));
            let sel = chosen_lines(ls, picks(ls, max_lines).chosen, ls.len() as int);
            &&& sel.len() <= max_lines
            &&& sel.no_duplicates()
            &&& forall|a: int| 0 <= a < sel.len() ==> (#[trigger] sel[a]).len() > 0
            &&& exists|idx: Seq<int>| idx.len() == sel.len()
                && (forall|a: int| 0 <= a < idx.len() ==> 0 <= #[trigger] idx[a] < ls.len() && sel[a] == ls[idx[a]])
                && (forall|a: int, b: int| 0 <= a < b < idx.len() ==> #[trigger] idx[a] < #[trigger] idx[b])
            &&& bounded_hint(text, max_lines, max_chars) matches Some(h)
                ==> h == "om:"@ + seq![' '] + trim(take_chars(join(sel, seq![' ']), max_chars as int))
        }),
{
    let ls = compact_lines(lines(text));
    let p = picks(ls, max_lines);
    lemma_picks_ok(ls, max_lines);
    let idx = lemma_chosen_lines(ls, p.chosen, ls.len() as int);
    let sel = chosen_lines(ls, p.chosen, ls.len() as int);
    lemma_compact_lines_non_empty(lines(text));
    assert forall|a: int| 0 <= a < sel.len() implies (#[trigger] sel[a]).len() > 0 by {
        assert(sel[a] == ls[idx[a]]);
    }
    assert(idx.len() == sel.len() && (forall|a: int| 0 <= a < idx.len() ==> 0 <= #[trigger] idx[a] < ls.len() && sel[a] == ls[idx[a]])
        && (forall|a: int, b: int| 0 <= a < b < idx.len() ==> #[trigger] idx[a] < #[trigger] idx[b]));
}


proof fn lemma_pick_pass_grows(ls: Seq<Seq<char>>, kind: u8, max: nat, st: Picks, k0: int, k: int)
    requires
        0 <= k0 <= k,
    ensures
        pick_pass(ls, kind, max, st, k0).chosen.subset_of(pick_pass(ls, kind, max, st, k).chosen),
    decreases k - k0,
{
    if k0 < k {
        lemma_pick_pass_grows(ls, kind, max, st, k0, k - 1);
    }
}

proof fn lemma_pick_pass_idle(ls: Seq<Seq<char>>, kind: u8, max: nat, st: Picks, k: int)
    requires
        k <= ls.len(),
        forall|i: int| ls.len() - k <= i < ls.len() ==> !qualifies(kind, #[trigger] ls[i]),
    ensures
        pick_pass(ls, kind, max, st, k) == st,
    decreases k,
{
    if k > 0 {
        lemma_pick_pass_idle(ls, kind, max, st, k - 1);
    }
}

/// A pass from an empty selection with room for a line picks the last line
/// that qualifies for it.
proof fn lemma_pick_pass_takes_last(ls: Seq<Seq<char>>, kind: u8, max: nat, j: int)
    requires
        max > 0,
        0 <= j < ls.len(),
        qualifies(kind, ls[j]),
        forall|i: int| j < i < ls.len() ==> !qualifies(kind, #[trigger] ls[i]),
    ensures
        pick_pass(ls, kind, max, Picks { chosen: Set::empty(), count: 0, seen: Seq::empty() }, ls.len() as int).chosen.contains(j),
{
    let st0 = Picks { chosen: Set::empty(), count: 0, seen: Seq::empty() };
    let n = ls.len() as int;
    lemma_pick_pass_idle(ls, kind, max, st0, n - j - 1);
    assert(pick_pass(ls, kind, max, st0, n - j).chosen.contains(j));
    lemma_pick_pass_grows(ls, kind, max, st0, n - j, n);
}

proof fn lemma_chosen_lines_contains(ls: Seq<Seq<char>>, chosen: Set<int>, k: int, j: int)
    requires
        0 <= j < k <= ls.len(),
        chosen.contains(j),
    ensures
        chosen_lines(ls, chosen, k).contains(ls[j]),
    decreases k,
{
    let r = chosen_lines(ls, chosen, k);
    if j == k - 1 {
        assert(r[r.len() - 1] == ls[j]);
    } else {
        lemma_chosen_lines_contains(ls, chosen, k - 1, j);
        let prev = chosen_lines(ls, chosen, k - 1);
        let w = choose|w: int| 0 <= w < prev.len() && prev[w] == ls[j];
        assert(r[w] == ls[j]);
    }
}

/// Continuation lines come first: with room for a line, the hint keeps the
/// most recent continuation line (current task, suggested response, next
/// step) however many high-priority lines there are; and when there is no
/// continuation line, it keeps the most recent high-priority line.
pub proof fn law_bounded_hint_priorities(text: Seq<char>, max_lines: nat)
    ensures
        ({
            let ls = compact_lines(lines(text));
            let sel = chosen_lines(ls, picks(ls, max_lines).chosen, ls.len() as int);
            &&& forall|j: int| 0 <= j < ls.len() && max_lines > 0 && is_continuation_reservation(#[trigger] ls[j])
                && (forall|i: int| j < i < ls.len() ==> !is_continuation_reservation(#[trigger] ls[i]))
                ==> sel.contains(ls[j])
            &&& forall|j: int| 0 <= j < ls.len() && max_lines > 0 && is_high_priority(#[trigger] ls[j])
                && (forall|i: int| j < i < ls.len() ==> !is_high_priority(#[trigger] ls[i]))
                && (forall|i: int| 0 <= i < ls.len() ==> !is_continuation_reservation(#[trigger] ls[i]))
                ==> sel.contains(ls[j])
        }),
{
    let ls = compact_lines(lines(text));
    let n = ls.len() as int;
    let st0 = Picks { chosen: Set::empty(), count: 0, seen: Seq::empty() };
    let p0 = pick_pass(ls, 0, max_lines, st0, n);
    let p1 = pick_pass(ls, 1, max_lines, p0, n);
    let p2 = pick_pass(ls, 2, max_lines, p1, n);
    lemma_pick_pass_grows(ls, 1, max_lines, p0, 0, n);
    lemma_pick_pass_grows(ls, 2, max_lines, p1, 0, n);
    assert forall|j: int| 0 <= j < ls.len() && max_lines > 0 && is_continuation_reservation(#[trigger] ls[j])
        && (forall|i: int| j < i < ls.len() ==> !is_continuation_reservation(#[trigger] ls[i]))
        implies chosen_lines(ls, picks(ls, max_lines).chosen, n).contains(ls[j]) by {
        assert forall|i: int| j < i < ls.len() implies !qualifies(0, #[trigger] ls[i]) by {
            assert(!is_continuation_reservation(ls[i]));
        }
        lemma_pick_pass_takes_last(ls, 0, max_lines, j);
        assert(p2.chosen.contains(j));
        lemma_chosen_lines_contains(ls, p2.chosen, n, j);
    }
    assert forall|j: int| 0 <= j < ls.len() && max_lines > 0 && is_high_priority(#[trigger] ls[j])
        && (forall|i: int| j < i < ls.len() ==> !is_high_priority(#[trigger] ls[i]))
        && (forall|i: int| 0 <= i < ls.len() ==> !is_continuation_reservation(#[trigger] ls[i]))
        implies chosen_lines(ls, picks(ls, max_lines).chosen, n).contains(ls[j]) by {
        assert forall|i: int| n - n <= i < ls.len() implies !qualifies(0, #[trigger] ls[i]) by {
            assert(!is_continuation_reservation(ls[i]));
        }
        lemma_pick_pass_idle(ls, 0, max_lines, st0, n);
        assert forall|i: int| j < i < ls.len() implies !qualifies(1, #[trigger] ls[i]) by {
            assert(!is_high_priority(ls[i]));
        }
        lemma_pick_pass_takes_last(ls, 1, max_lines, j);
        assert(p2.chosen.contains(j));
        lemma_chosen_lines_contains(ls, p2.chosen, n, j);
    }
}

} // verus!
