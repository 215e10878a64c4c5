//! Deterministic reflection drafts and merging a buffered reflection back
//! into the active observations.

use vstd::prelude::*;
use crate::text::{
    chars_to_string, collapse_ws, collapse_ws_exec, copy_range, extend, extend_str, join,
    join_exec, lines, lines_exec, str_to_chars, string_chars, string_views, take_chars,
    take_chars_exec, trim, trim_exec, views,
};
use crate::transform::helpers::{estimate_chars_tokens, estimate_tokens};
use crate::transform::types::ReflectionDraft;

verus! {

/// The buffered reflection followed, after a blank line, by the active
/// lines it does not cover; the trimmed active lines alone when the
/// reflection is blank.
pub open spec fn merged_reflection(active_lines: Seq<Seq<char>>, reflected_line_count: int, buffered: Seq<char>) -> Seq<char> {
    let reflection = trim(buffered);
    if reflection.len() == 0 {
        trim(join(active_lines, "\n"@))
    } else {
        let split = if reflected_line_count < active_lines.len() {
            reflected_line_count
        } else {
            active_lines.len() as int
        };
        let rest = trim(join(active_lines.skip(split), "\n"@));
        if rest.len() == 0 {
            reflection
        } else {
            reflection + "\n\n"@ + rest
        }
    }
}

fn join_lines_from(lines: &[String], from: usize) -> (r: Vec<char>)
    requires
        from <= lines.len(),
    ensures
        r@ == join(string_views(lines@).skip(from as int), "\n"@),
{
    let mut parts: Vec<Vec<char>> = Vec::new();
    let ghost s = string_views(lines@).skip(from as int);
    let mut i: usize = from;
    while i < lines.len()
        invariant
            from <= i <= lines.len(),
            s == string_views(lines@).skip(from as int),
            views(parts@) == s.take(i - from),
        decreases lines.len() - i,
    {
        let ghost before = views(parts@);
        let c = string_chars(&lines[i]);
        parts.push(c);
        proof {
            assert(s[i - from] == lines@[i as int]@);
            assert(views(parts@) =~= before.push(s[i - from]));
            assert(s.take(i - from + 1) =~= s.take(i - from).push(s[i - from]));
        }
        i += 1;
    }
    assert(s.take(lines.len() - from) =~= s);
    let sep = str_to_chars("\n");
    assert(parts@.map_values(|p: Vec<char>| p@) =~= views(parts@));
    join_exec(&parts, sep.as_slice())
}

pub fn merge_buffered_reflection(active_lines: &[String], reflected_line_count: usize, buffered_reflection: &str) -> (r: String)
    ensures
        r@ == merged_reflection(string_views(active_lines@), reflected_line_count as int, buffered_reflection@),
{
    let bc = str_to_chars(buffered_reflection);
    let reflection = trim_exec(bc.as_slice());
    if reflection.len() == 0 {
        let all = join_lines_from(active_lines, 0);
        assert(string_views(active_lines@).skip(0) =~= string_views(active_lines@));
        let t = trim_exec(all.as_slice());
        return chars_to_string(t.as_slice());
    }
    let split_at = if reflected_line_count < active_lines.len() {
        reflected_line_count
    } else {
        active_lines.len()
    };
    let rest = join_lines_from(active_lines, split_at);
    let unreflected = trim_exec(rest.as_slice());
    if unreflected.len() == 0 {
        return chars_to_string(reflection.as_slice());
    }
    let mut out = reflection;
    extend_str(&mut out, "\n\n");
    extend(&mut out, unreflected.as_slice());
    chars_to_string(out.as_slice())
}

/// The trimmed lines that are not empty.
pub open spec fn kept_lines(ls: Seq<Seq<char>>) -> Seq<Seq<char>>
    decreases ls.len(),
{
    if ls.len() == 0 {
        Seq::empty()
    } else {
        let prev = kept_lines(ls.drop_last());
        if trim(ls.last()).len() == 0 {
            prev
        } else {
            prev.push(trim(ls.last()))
        }
    }
}

/// The largest `k` such that the first `k` lines, joined by spaces, fit in
/// `limit` characters.
pub open spec fn fitting_lines(cs: Seq<Seq<char>>, limit: int) -> nat
    decreases cs.len(),
{
    if cs.len() == 0 {
        0
    } else if join(cs, " "@).len() <= limit {
        cs.len()
    } else {
        fitting_lines(cs.drop_last(), limit)
    }
}

/// The whitespace-normalised form of each line.
pub open spec fn compacted(ls: Seq<Seq<char>>) -> Seq<Seq<char>> {
    ls.map_values(|l: Seq<char>| collapse_ws(l))
}

/// A draft reflection: the non-blank observation lines joined by spaces and
/// whitespace-normalised, cut to `max_chars`; it covers the lines that fit
/// whole in the cut text. None when nothing remains or no line fits whole.
pub open spec fn reflection_draft(active: Seq<char>, max_chars: int) -> Option<(Seq<char>, u32, u32, u32)> {
    let ls = kept_lines(lines(active));
    let input = collapse_ws(join(ls, " "@));
    let reflection = take_chars(input, max_chars);
    let count = fitting_lines(compacted(ls), reflection.len() as int);
    if max_chars == 0 || ls.len() == 0 || input.len() == 0 || reflection.len() == 0 || count == 0 {
        None
    } else {
        Some(
            (
                reflection,
                estimate_tokens(reflection),
                if count > u32::MAX {
                    u32::MAX
                } else {
                    count as u32
                },
                estimate_tokens(input),
            ),
        )
    }
}

/// The number of leading lines whose space-joined form fits `limit`.
fn count_fitting_lines(cs: &Vec<Vec<char>>, limit: usize) -> (r: usize)
    ensures
        r == fitting_lines(views(cs@), limit as int),
{
    let ghost s = views(cs@);
    let mut joined: Vec<char> = Vec::new();
    let mut count: usize = 0;
    let mut i: usize = 0;
    let sep = str_to_chars(" ");
    assert(s.take(0) =~= Seq::<Seq<char>>::empty());
    while i < cs.len()
        invariant
            i <= cs.len(),
            s == views(cs@),
            sep@ == " "@,
            joined@ == join(s.take(i as int), " "@),
            count == fitting_lines(s.take(i as int), limit as int),
        decreases cs.len() - i,
    {
        proof {
            crate::text::lemma_join_push(s.take(i as int), " "@, s[i as int]);
            assert(s.take(i + 1) =~= s.take(i as int).push(s[i as int]));
            assert(s.take(i + 1).drop_last() =~= s.take(i as int));
            assert(s[i as int] == cs@[i as int]@);
        }
        if i > 0 {
            extend(&mut joined, sep.as_slice());
        }
        extend(&mut joined, cs[i].as_slice());
        if joined.len() <= limit {
            count = i + 1;
        }
        i += 1;
    }
    assert(s.take(cs.len() as int) =~= s);
    count
}

pub fn build_reflection_draft(active_observations: &str, max_chars: usize) -> (r: Option<ReflectionDraft>)
    ensures
        match r {
            Some(d) => reflection_draft(active_observations@, max_chars as int) == Some(
                (d.reflection@, d.reflection_token_count, d.reflected_observation_line_count, d.reflection_input_tokens),
            ),
            None => reflection_draft(active_observations@, max_chars as int) is None,
        },
{
    if max_chars == 0 {
        return None;
    }
    let ac = str_to_chars(active_observations);
    let all = lines_exec(ac.as_slice());
    let ghost lv = all@.map_values(|l: Vec<char>| l@);
    let mut kept: Vec<Vec<char>> = Vec::new();
    let mut compact: Vec<Vec<char>> = Vec::new();
    let mut i: usize = 0;
    while i < all.len()
        invariant
            i <= all.len(),
            lv == all@.map_values(|l: Vec<char>| l@),
            views(kept@) == kept_lines(lv.take(i as int)),
            views(compact@) == compacted(views(kept@)),
        decreases all.len() - i,
    {
        proof {
            assert(lv.take(i + 1).drop_last() =~= lv.take(i as int));
            assert(lv.take(i + 1).last() == lv[i as int]);
            assert(lv[i as int] == all@[i as int]@);
        }
        let ghost bk = views(kept@);
        let ghost bc = views(compact@);
        let t = trim_exec(all[i].as_slice());
        if t.len() > 0 {
            let c = collapse_ws_exec(t.as_slice());
            kept.push(t);
            compact.push(c);
            proof {
                assert(views(kept@) =~= bk.push(trim(lv[i as int])));
                assert(views(compact@) =~= bc.push(collapse_ws(trim(lv[i as int]))));
                assert(compacted(views(kept@)) =~= compacted(bk).push(collapse_ws(trim(lv[i as int]))));
            }
        }
        i += 1;
    }
    assert(lv.take(all.len() as int) =~= lv);
    if kept.len() == 0 {
        return None;
    }
    let sp = str_to_chars(" ");
    let joined = join_exec(&kept, sp.as_slice());
    assert(kept@.map_values(|p: Vec<char>| p@) =~= views(kept@));
    let input = collapse_ws_exec(joined.as_slice());
    if input.len() == 0 {
        return None;
    }
    let reflection = take_chars_exec(input.as_slice(), max_chars);
    if reflection.len() == 0 {
        return None;
    }
    let count = count_fitting_lines(&compact, reflection.len());
    if count == 0 {
        return None;
    }
    let line_count: u32 = if count > u32::MAX as usize {
        u32::MAX
    } else {
        count as u32
    };
    Some(
        ReflectionDraft {
            reflection_token_count: estimate_chars_tokens(reflection.as_slice()),
            reflected_observation_line_count: line_count,
            reflection_input_tokens: estimate_chars_tokens(input.as_slice()),
            reflection: chars_to_string(reflection.as_slice()),
        },
    )
}


proof fn lemma_estimate_tokens_monotone(a: Seq<char>, b: Seq<char>)
    requires
        a.len() <= b.len(),
    ensures
        estimate_tokens(a) <= estimate_tokens(b),
{
}

/// A draft fits its character budget, covers at least one line, and never
/// estimates more tokens for the reflection than for its input.
pub proof fn law_reflection_draft(active: Seq<char>, max_chars: int)
    requires
        max_chars >= 0,
    ensures
        reflection_draft(active, max_chars) matches Some((reflection, reflection_tokens, line_count, input_tokens)) ==> {
            &&& reflection.len() <= max_chars
            &&& reflection.len() > 0
            &&& line_count >= 1
            &&& reflection_tokens <= input_tokens
        },
{
    let ls = kept_lines(lines(active));
    let input = collapse_ws(join(ls, " "@));
    let reflection = take_chars(input, max_chars);
    lemma_estimate_tokens_monotone(reflection, input);
}

} // verus!
