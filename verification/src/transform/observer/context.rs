//! Observer context: other conversations of the same resource, and the
//! active plus buffered observations.

use vstd::prelude::*;
use crate::sorting::{sort_unique, sorted_unique};
use crate::text::{
    chars_eq, chars_to_string, collapse_ws, collapse_ws_exec, extend, extend_str, join, join_exec,
    str_to_chars, string_chars, take_chars, take_chars_exec, trim, trim_exec, views,
};
use crate::transform::observer::candidates::{
    CandidateView, candidate_view, candidate_views, copy_candidate, keep_candidates, session_ident,
    sort_candidates, sort_candidates_exec, opt_str_view,
};
use crate::transform::types::{BUFFERED_OBSERVATIONS_SEPARATOR, OmObserverMessageCandidate};
use crate::xml::{escape, escape_into};

verus! {

/// The candidate's session, when it has one and it is not the current one.
pub open spec fn other_source(c: CandidateView, current: Option<Seq<char>>) -> Option<Seq<char>> {
    match session_ident(c.source_session_id) {
        Some(src) => match session_ident(current) {
            Some(cur) => if cur == src {
                None
            } else {
                Some(src)
            },
            None => Some(src),
        },
        None => None,
    }
}

/// The other sessions, in order of appearance.
pub open spec fn other_sources(cs: Seq<CandidateView>, current: Option<Seq<char>>) -> Seq<Seq<char>>
    decreases cs.len(),
{
    if cs.len() == 0 {
        Seq::empty()
    } else {
        let prev = other_sources(cs.drop_last(), current);
        match other_source(cs.last(), current) {
            Some(src) => prev.push(src),
            None => prev,
        }
    }
}

/// The line of a message: its normalised text cut to `max_chars`, escaped,
/// prefixed by `[role] ` when it has a role; none for a blank text.
pub open spec fn conversation_line(c: CandidateView, max_chars: int) -> Option<Seq<char>> {
    let role = collapse_ws(c.role);
    let text = collapse_ws(c.text);
    let bounded = take_chars(text, max_chars);
    if text.len() == 0 || bounded.len() == 0 {
        None
    } else if role.len() == 0 {
        Some(escape(bounded, false))
    } else {
        Some("["@ + escape(role, false) + "] "@ + escape(bounded, false))
    }
}

pub open spec fn conversation_lines(ms: Seq<CandidateView>, max_chars: int) -> Seq<Seq<char>>
    decreases ms.len(),
{
    if ms.len() == 0 {
        Seq::empty()
    } else {
        let prev = conversation_lines(ms.drop_last(), max_chars);
        match conversation_line(ms.last(), max_chars) {
            Some(l) => prev.push(l),
            None => prev,
        }
    }
}

pub open spec fn conversation_block(key: Seq<char>, lines: Seq<Seq<char>>) -> Seq<char> {
    "<other-conversation id=\""@ + escape(key, true) + "\">\n"@ + join(lines, "\n"@) + "\n</other-conversation>"@
}

/// One block per other session, in key order, holding its messages sorted
/// by time then id; sessions without a line are left out.
pub open spec fn conversation_blocks(keys: Seq<Seq<char>>, cs: Seq<CandidateView>, current: Option<Seq<char>>, max_chars: int) -> Seq<Seq<char>>
    decreases keys.len(),
{
    if keys.len() == 0 {
        Seq::empty()
    } else {
        let prev = conversation_blocks(keys.drop_last(), cs, current, max_chars);
        let key = keys.last();
        let members = keep_candidates(cs, |c: CandidateView| other_source(c, current) == Some(key));
        let lines = conversation_lines(sort_candidates(members, false), max_chars);
        if lines.len() == 0 {
            prev
        } else {
            prev.push(conversation_block(key, lines))
        }
    }
}

/// The blocks of the other conversations joined by blank lines; none when
/// there are none or `max_part_chars` is zero.
pub open spec fn other_conversations(cs: Seq<CandidateView>, current: Option<Seq<char>>, max_part_chars: usize) -> Option<Seq<char>> {
    let blocks = conversation_blocks(sorted_unique(other_sources(cs, current)), cs, current, max_part_chars as int);
    if max_part_chars == 0 || blocks.len() == 0 {
        None
    } else {
        Some(join(blocks, "\n\n"@))
    }
}

fn other_source_exec(c: &OmObserverMessageCandidate, current: &Option<Vec<char>>) -> (r: Option<Vec<char>>)
    requires
        match *current {
            Some(v) => Some(v@) == session_ident(current_view(*current)),
            None => true,
        },
    ensures
        match r {
            Some(v) => other_source(candidate_view(*c), current_view(*current)) == Some(v@),
            None => other_source(candidate_view(*c), current_view(*current)) is None,
        },
{
    let src = match &c.source_session_id {
        Some(s) => {
            let sc = string_chars(s);
            let t = trim_exec(sc.as_slice());
            if t.len() == 0 {
                None
            } else {
                Some(t)
            }
        },
        None => None,
    };
    match src {
        Some(s) => match current {
            Some(cur) => if chars_eq(cur.as_slice(), s.as_slice()) {
                None
            } else {
                Some(s)
            },
            None => Some(s),
        },
        None => None,
    }
}

pub open spec fn current_view(o: Option<Vec<char>>) -> Option<Seq<char>> {
    match o {
        Some(v) => Some(v@),
        None => None,
    }
}

fn conversation_line_exec(c: &OmObserverMessageCandidate, max_chars: usize) -> (r: Option<Vec<char>>)
    ensures
        match r {
            Some(v) => conversation_line(candidate_view(*c), max_chars as int) == Some(v@),
            None => conversation_line(candidate_view(*c), max_chars as int) is None,
        },
{
    let rc = string_chars(&c.role);
    let role = collapse_ws_exec(rc.as_slice());
    let tc = string_chars(&c.text);
    let text = collapse_ws_exec(tc.as_slice());
    let bounded = take_chars_exec(text.as_slice(), max_chars);
    if text.len() == 0 || bounded.len() == 0 {
        return None;
    }
    let mut line: Vec<char> = Vec::new();
    if role.len() > 0 {
        line.push('[');
        escape_into(&mut line, role.as_slice(), false);
        extend_str(&mut line, "] ");
        proof {
            reveal_strlit("[");
            assert(seq!['['] =~= "["@);
        }
    }
    escape_into(&mut line, bounded.as_slice(), false);
    Some(line)
}

pub fn build_other_conversation_blocks(candidates: &[OmObserverMessageCandidate], current_session_id: Option<&str>, max_part_chars: usize) -> (r: Option<String>)
    ensures
        match r {
            Some(s) => other_conversations(candidate_views(candidates@), opt_str_view(current_session_id), max_part_chars)
                == Some(s@),
            None => other_conversations(candidate_views(candidates@), opt_str_view(current_session_id), max_part_chars)
                is None,
        },
{
    let ghost cs = candidate_views(candidates@);
    let ghost cur = opt_str_view(current_session_id);
    if max_part_chars == 0 {
        return None;
    }
    let current: Option<Vec<char>> = match current_session_id {
        Some(s) => {
            let c = str_to_chars(s);
            let t = trim_exec(c.as_slice());
            if t.len() == 0 {
                None
            } else {
                Some(t)
            }
        },
        None => None,
    };
    proof {
        assert(session_ident(current_view(current)) == session_ident(cur)) by {
            if let Some(v) = current {
                crate::text::lemma_trim_idempotent(cur->0);
            }
        }
    }
    // Sessions of the other conversations, in order of appearance.
    let mut sources: Vec<Vec<char>> = Vec::new();
    let mut i: usize = 0;
    while i < candidates.len()
        invariant
            i <= candidates.len(),
            cs == candidate_views(candidates@),
            match current {
                Some(v) => Some(v@) == session_ident(current_view(current)),
                None => true,
            },
            session_ident(current_view(current)) == session_ident(cur),
            views(sources@) == other_sources(cs.take(i as int), cur),
        decreases candidates.len() - i,
    {
        proof {
            assert(cs.take(i + 1).drop_last() =~= cs.take(i as int));
            assert(cs.take(i + 1).last() == cs[i as int]);
            assert(cs[i as int] == candidate_view(candidates@[i as int]));
        }
        let ghost before = views(sources@);
        match other_source_exec(&candidates[i], &current) {
            Some(src) => {
                sources.push(src);
                assert(views(sources@) =~= before.push(other_source(cs[i as int], cur)->0));
            },
            None => {},
        }
        i += 1;
    }
    assert(cs.take(candidates.len() as int) =~= cs);
    let keys = sort_unique(&sources);
    let ghost kv = views(keys@);
    let mut blocks: Vec<Vec<char>> = Vec::new();
    let mut k: usize = 0;
    while k < keys.len()
        invariant
            k <= keys.len(),
            kv == views(keys@),
            cs == candidate_views(candidates@),
            match current {
                Some(v) => Some(v@) == session_ident(current_view(current)),
                None => true,
            },
            session_ident(current_view(current)) == session_ident(cur),
            views(blocks@) == conversation_blocks(kv.take(k as int), cs, cur, max_part_chars as int),
        decreases keys.len() - k,
    {
        let key = &keys[k];
        let ghost kk = key@;
        proof {
            assert(kv[k as int] == kk);
            assert(kv.take(k + 1).drop_last() =~= kv.take(k as int));
            assert(kv.take(k + 1).last() == kk);
        }
        let ghost p = |c: CandidateView| other_source(c, cur) == Some(kk);
        let mut members: Vec<OmObserverMessageCandidate> = Vec::new();
        let mut i: usize = 0;
        while i < candidates.len()
            invariant
                i <= candidates.len(),
                cs == candidate_views(candidates@),
                match current {
                    Some(v) => Some(v@) == session_ident(current_view(current)),
                    None => true,
                },
                session_ident(current_view(current)) == session_ident(cur),
                kk == key@,
                p == (|c: CandidateView| other_source(c, cur) == Some(kk)),
                candidate_views(members@) == keep_candidates(cs.take(i as int), p),
            decreases candidates.len() - i,
        {
            proof {
                assert(cs.take(i + 1).drop_last() =~= cs.take(i as int));
                assert(cs.take(i + 1).last() == cs[i as int]);
                assert(cs[i as int] == candidate_view(candidates@[i as int]));
            }
            let ghost before = candidate_views(members@);
            let keep = match other_source_exec(&candidates[i], &current) {
                Some(src) => chars_eq(src.as_slice(), key.as_slice()),
                None => false,
            };
            if keep {
                members.push(copy_candidate(&candidates[i]));
                assert(candidate_views(members@) =~= before.push(cs[i as int]));
            }
            i += 1;
        }
        assert(cs.take(candidates.len() as int) =~= cs);
        let sorted = sort_candidates_exec(members, false);
        let ghost sv = candidate_views(sorted@);
        let mut lines: Vec<Vec<char>> = Vec::new();
        let mut j: usize = 0;
        while j < sorted.len()
            invariant
                j <= sorted.len(),
                sv == candidate_views(sorted@),
                views(lines@) == conversation_lines(sv.take(j as int), max_part_chars as int),
            decreases sorted.len() - j,
        {
            proof {
                assert(sv.take(j + 1).drop_last() =~= sv.take(j as int));
                assert(sv.take(j + 1).last() == sv[j as int]);
                assert(sv[j as int] == candidate_view(sorted@[j as int]));
            }
            let ghost before = views(lines@);
            match conversation_line_exec(&sorted[j], max_part_chars) {
                Some(l) => {
                    lines.push(l);
                    assert(views(lines@) =~= before.push(conversation_line(sv[j as int], max_part_chars as int)->0));
                },
                None => {},
            }
            j += 1;
        }
        assert(sv.take(sorted.len() as int) =~= sv);
        let ghost before_blocks = views(blocks@);
        if lines.len() > 0 {
            let mut block = str_to_chars("<other-conversation id=\"");
            escape_into(&mut block, key.as_slice(), true);
            extend_str(&mut block, "\">\n");
            let nl = str_to_chars("\n");
            let body = join_exec(&lines, nl.as_slice());
            assert(lines@.map_values(|p: Vec<char>| p@) =~= views(lines@));
            extend(&mut block, body.as_slice());
            extend_str(&mut block, "\n</other-conversation>");
            blocks.push(block);
            assert(views(blocks@) =~= before_blocks.push(conversation_block(kk, views(lines@))));
        }
        k += 1;
    }
    assert(kv.take(keys.len() as int) =~= kv);
    if blocks.len() == 0 {
        return None;
    }
    let sep = str_to_chars("\n\n");
    let joined = join_exec(&blocks, sep.as_slice());
    assert(blocks@.map_values(|p: Vec<char>| p@) =~= views(blocks@));
    Some(chars_to_string(joined.as_slice()))
}

/// Active and buffered observations, trimmed, the buffered ones after a
/// separator when both are present; none when both are blank.
pub open spec fn combined_observations(active: Seq<char>, buffered: Seq<char>) -> Option<Seq<char>> {
    let a = trim(active);
    let b = trim(buffered);
    if a.len() == 0 && b.len() == 0 {
        None
    } else if a.len() == 0 {
        Some(b)
    } else if b.len() == 0 {
        Some(a)
    } else {
        Some(a + "\n\n"@ + BUFFERED_OBSERVATIONS_SEPARATOR@ + "\n\n"@ + b)
    }
}

pub fn combine_observations_for_buffering(active_observations: &str, buffered_observations: &str) -> (r: Option<String>)
    ensures
        match r {
            Some(s) => combined_observations(active_observations@, buffered_observations@) == Some(s@),
            None => combined_observations(active_observations@, buffered_observations@) is None,
        },
{
    let ac = str_to_chars(active_observations);
    let a = trim_exec(ac.as_slice());
    let bc = str_to_chars(buffered_observations);
    let b = trim_exec(bc.as_slice());
    if a.len() == 0 && b.len() == 0 {
        return None;
    }
    if a.len() == 0 {
        return Some(chars_to_string(b.as_slice()));
    }
    if b.len() == 0 {
        return Some(chars_to_string(a.as_slice()));
    }
    let mut out = a;
    extend_str(&mut out, "\n\n");
    extend_str(&mut out, BUFFERED_OBSERVATIONS_SEPARATOR);
    extend_str(&mut out, "\n\n");
    extend(&mut out, b.as_slice());
    Some(chars_to_string(out.as_slice()))
}

} // verus!
