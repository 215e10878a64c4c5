//! `<thread id="...">` blocks of multi-thread observer output.

use vstd::prelude::*;
use crate::parse::OmParseMode;
use crate::parse::sections::{nonblank_contents, nonblank_contents_exec, section_ranges, section_ranges_for_tag, same_line};
use crate::parse::tokens::{TagKind, TagSectionRange, TagToken, Tok, attr_name_char, is_attr_name_char, is_tag_name_char, parse_tag_tokens, skip_ascii_ws, skip_tag_name, skip_ws_exec, tag_name_char, tokens, toks, well_placed};
use crate::text::{ascii_white_space, chars_eq, contains_char_exec, copy_range, is_ascii_white_space, lower, str_to_chars, to_ascii_lower, trim, trim_exec, views};
use crate::xml::{unescape, unescape_chars};

verus! {

/// First index at or after `i` whose character cannot be in an attribute name.
pub open spec fn skip_attr_name(s: Seq<char>, i: int) -> int
    decreases s.len() - i,
{
    if i < 0 || i >= s.len() || !is_attr_name_char(s[i]) {
        i
    } else {
        skip_attr_name(s, i + 1)
    }
}

/// First index at or after `i` holding ASCII whitespace (or the end).
pub open spec fn skip_non_ws(s: Seq<char>, i: int) -> int
    decreases s.len() - i,
{
    if i < 0 || i >= s.len() || is_ascii_white_space(s[i]) {
        i
    } else {
        skip_non_ws(s, i + 1)
    }
}

/// First index at or after `i` holding `q` (or the end).
pub open spec fn skip_to(s: Seq<char>, i: int, q: char) -> int
    decreases s.len() - i,
{
    if i < 0 || i >= s.len() || s[i] == q {
        i
    } else {
        skip_to(s, i + 1, q)
    }
}

pub proof fn lemma_skip_ws_bounds(s: Seq<char>, i: int)
    requires
        0 <= i,
    ensures
        i <= skip_ascii_ws(s, i),
        i <= s.len() ==> skip_ascii_ws(s, i) <= s.len(),
        skip_ascii_ws(s, i) < s.len() ==> !is_ascii_white_space(s[skip_ascii_ws(s, i)]),
    decreases s.len() - i,
{
    if i < s.len() && is_ascii_white_space(s[i]) {
        lemma_skip_ws_bounds(s, i + 1);
    }
}

pub proof fn lemma_skip_attr_bounds(s: Seq<char>, i: int)
    requires
        0 <= i,
    ensures
        i <= skip_attr_name(s, i),
        i <= s.len() ==> skip_attr_name(s, i) <= s.len(),
    decreases s.len() - i,
{
    if i < s.len() && is_attr_name_char(s[i]) {
        lemma_skip_attr_bounds(s, i + 1);
    }
}

pub proof fn lemma_skip_non_ws_bounds(s: Seq<char>, i: int)
    requires
        0 <= i,
    ensures
        i <= skip_non_ws(s, i),
        i <= s.len() ==> skip_non_ws(s, i) <= s.len(),
        i < s.len() && !is_ascii_white_space(s[i]) ==> i < skip_non_ws(s, i),
    decreases s.len() - i,
{
    if i < s.len() && !is_ascii_white_space(s[i]) {
        lemma_skip_non_ws_bounds(s, i + 1);
    }
}

pub proof fn lemma_skip_to_bounds(s: Seq<char>, i: int, q: char)
    requires
        0 <= i,
    ensures
        i <= skip_to(s, i, q),
        i <= s.len() ==> skip_to(s, i, q) <= s.len(),
    decreases s.len() - i,
{
    if i < s.len() && s[i] != q {
        lemma_skip_to_bounds(s, i + 1, q);
    }
}

/// Scan of the attributes of a tag's inside from `cursor` on, giving the
/// entity-decoded value of the first attribute named `key` (names compared
/// in lower case). Values are quoted (`"` or `'`) or run to whitespace; a
/// name without `=` has no value.
pub open spec fn attr_scan(inner: Seq<char>, cursor: int, key: Seq<char>) -> Option<Seq<char>>
    decreases inner.len() - cursor,
{
    if cursor < 0 || cursor >= inner.len() {
        None
    } else {
        let c1 = skip_ascii_ws(inner, cursor);
        if c1 >= inner.len() {
            None
        } else {
            let ne = skip_attr_name(inner, c1);
            proof {
                lemma_skip_ws_bounds(inner, cursor);
                lemma_skip_attr_bounds(inner, c1);
            }
            if ne == c1 {
                attr_scan(inner, c1 + 1, key)
            } else {
                let name = lower(inner.subrange(c1, ne));
                let c2 = skip_ascii_ws(inner, ne);
                proof {
                    lemma_skip_ws_bounds(inner, ne);
                }
                if c2 >= inner.len() || inner[c2] != '=' {
                    attr_scan(inner, c2, key)
                } else {
                    let c3 = skip_ascii_ws(inner, c2 + 1);
                    proof {
                        lemma_skip_ws_bounds(inner, c2 + 1);
                    }
                    if c3 >= inner.len() {
                        None
                    } else {
                        let quoted = inner[c3] == '"' || inner[c3] == '\'';
                        let vs = if quoted { c3 + 1 } else { c3 };
                        let ve = if quoted { skip_to(inner, c3 + 1, inner[c3]) } else { skip_non_ws(inner, c3) };
                        proof {
                            lemma_skip_to_bounds(inner, c3 + 1, inner[c3]);
                            lemma_skip_non_ws_bounds(inner, c3);
                        }
                        let next = if quoted && ve < inner.len() { ve + 1 } else { ve };
                        if name == key {
                            Some(unescape(inner.subrange(vs, ve)))
                        } else {
                            attr_scan(inner, next, key)
                        }
                    }
                }
            }
        }
    }
}

/// Value of attribute `key` in an open tag `<name attr=value ...>`.
pub open spec fn tag_attribute(open_tag: Seq<char>, key: Seq<char>) -> Option<Seq<char>> {
    if open_tag.len() < 2 || open_tag[0] != '<' || open_tag.last() != '>' {
        None
    } else {
        let inner = open_tag.subrange(1, open_tag.len() - 1);
        attr_scan(inner, skip_tag_name(inner, skip_ascii_ws(inner, 0)), key)
    }
}

fn skip_attr_name_exec(s: &[char], i: usize) -> (r: usize)
    requires
        i <= s@.len(),
    ensures
        r == skip_attr_name(s@, i as int),
        i <= r <= s@.len(),
{
    let mut c = i;
    while c < s.len() && attr_name_char(s[c])
        invariant
            i <= c <= s@.len(),
            skip_attr_name(s@, i as int) == skip_attr_name(s@, c as int),
        decreases s.len() - c,
    {
        c += 1;
    }
    c
}

/// Value of attribute `key` (given in lower case) in the open tag `tag`.
pub fn parse_tag_attribute(tag: &[char], key: &[char]) -> (r: Option<Vec<char>>)
    ensures
        match r {
            Some(v) => tag_attribute(tag@, key@) == Some(v@),
            None => tag_attribute(tag@, key@) is None,
        },
{
    if tag.len() < 2 || tag[0] != '<' || tag[tag.len() - 1] != '>' {
        return None;
    }
    let inner = copy_range(tag, 1, tag.len() - 1);
    let ghost iv = inner@;
    let mut cursor = skip_ws_exec(inner.as_slice(), 0);
    while cursor < inner.len() && tag_name_char(inner[cursor])
        invariant
            cursor <= inner@.len(),
            iv == inner@,
            skip_tag_name(iv, skip_ascii_ws(iv, 0)) == skip_tag_name(iv, cursor as int),
        decreases inner.len() - cursor,
    {
        cursor += 1;
    }
    let ghost target = attr_scan(iv, cursor as int, key@);
    assert(iv =~= tag@.subrange(1, tag@.len() - 1));
    assert(tag_attribute(tag@, key@) == target);
    let n = inner.len();
    while cursor < n
        invariant
            n == inner@.len(),
            iv == inner@,
            cursor <= n,
            attr_scan(iv, cursor as int, key@) == target,
            tag_attribute(tag@, key@) == target,
        decreases n - cursor,
    {
        let c1 = skip_ws_exec(inner.as_slice(), cursor);
        if c1 >= n {
            return None;
        }
        let ne = skip_attr_name_exec(inner.as_slice(), c1);
        if ne == c1 {
            cursor = c1 + 1;
            continue;
        }
        let name = to_ascii_lower(copy_range(inner.as_slice(), c1, ne).as_slice());
        let c2 = skip_ws_exec(inner.as_slice(), ne);
        if c2 >= n || inner[c2] != '=' {
            cursor = c2;
            continue;
        }
        let c3 = skip_ws_exec(inner.as_slice(), c2 + 1);
        if c3 >= n {
            return None;
        }
        let q = inner[c3];
        let quoted = q == '"' || q == '\'';
        let vs = if quoted { c3 + 1 } else { c3 };
        let mut ve = vs;
        if quoted {
            while ve < n && inner[ve] != q
                invariant
                    vs <= ve <= n,
                    n == inner@.len(),
                    iv == inner@,
                    skip_to(iv, vs as int, q) == skip_to(iv, ve as int, q),
                decreases n - ve,
            {
                ve += 1;
            }
        } else {
            while ve < n && !ascii_white_space(inner[ve])
                invariant
                    vs <= ve <= n,
                    n == inner@.len(),
                    iv == inner@,
                    skip_non_ws(iv, vs as int) == skip_non_ws(iv, ve as int),
                decreases n - ve,
            {
                ve += 1;
            }
        }
        if chars_eq(name.as_slice(), key) {
            let value = copy_range(inner.as_slice(), vs, ve);
            return Some(unescape_chars(value.as_slice()));
        }
        cursor = if quoted && ve < n { ve + 1 } else { ve };
    }
    None
}

/// Thread id carried by a `<thread ...>` open tag.
pub fn extract_thread_id(thread_open_tag: &[char]) -> (r: Option<Vec<char>>)
    ensures
        match r {
            Some(v) => tag_attribute(thread_open_tag@, seq!['i', 'd']) == Some(v@),
            None => tag_attribute(thread_open_tag@, seq!['i', 'd']) is None,
        },
{
    let key: Vec<char> = vec!['i', 'd'];
    assert(key@ =~= seq!['i', 'd']);
    parse_tag_attribute(thread_open_tag, key.as_slice())
}

// ---------------------------------------------------------------------------
// Thread blocks
// ---------------------------------------------------------------------------

/// `text[from..to]` when the bounds are valid, else empty.
pub open spec fn slice_or_empty(text: Seq<char>, from: int, to: int) -> Seq<char> {
    if 0 <= from <= to <= text.len() {
        text.subrange(from, to)
    } else {
        Seq::empty()
    }
}

/// Thread id of an open `thread` token (empty when it has none).
pub open spec fn open_thread_id(text: Seq<char>, t: Tok) -> Seq<char> {
    match tag_attribute(slice_or_empty(text, t.start, t.end), seq!['i', 'd']) {
        Some(v) => v,
        None => Seq::empty(),
    }
}

/// State of the thread-block scan.
pub struct ThreadState {
    pub open: Option<(Seq<char>, int)>,
    pub discard: bool,
    pub blocks: Seq<(Seq<char>, Seq<char>)>,
}

/// One token of the thread-block scan; rules as for sections, with the
/// block body trimmed.
pub open spec fn thread_step(text: Seq<char>, mode: OmParseMode, st: ThreadState, t: Tok) -> ThreadState {
    if t.name != seq!['t', 'h', 'r', 'e', 'a', 'd'] {
        st
    } else {
        match t.kind {
            TagKind::Open => if !t.line_anchored {
                st
            } else if mode == OmParseMode::Strict && st.open is Some {
                ThreadState { open: None, discard: true, blocks: st.blocks }
            } else {
                ThreadState { open: Some((open_thread_id(text, t), t.end)), discard: st.discard, blocks: st.blocks }
            },
            TagKind::Close => if st.discard {
                ThreadState { open: st.open, discard: false, blocks: st.blocks }
            } else {
                match st.open {
                    None => st,
                    Some((id, open_end)) => if t.start < open_end {
                        st
                    } else if !t.line_anchored && !same_line(text, open_end, t.start) {
                        st
                    } else {
                        ThreadState {
                            open: None,
                            discard: st.discard,
                            blocks: st.blocks.push((id, trim(slice_or_empty(text, open_end, t.start)))),
                        }
                    },
                }
            },
        }
    }
}

pub open spec fn thread_fold(text: Seq<char>, ts: Seq<Tok>, mode: OmParseMode) -> ThreadState
    decreases ts.len(),
{
    if ts.len() == 0 {
        ThreadState { open: None, discard: false, blocks: Seq::empty() }
    } else {
        thread_step(text, mode, thread_fold(text, ts.drop_last(), mode), ts.last())
    }
}

/// `(thread id, trimmed body)` of each thread block.
pub open spec fn thread_blocks(text: Seq<char>, ts: Seq<Tok>, mode: OmParseMode) -> Seq<(Seq<char>, Seq<char>)> {
    thread_fold(text, ts, mode).blocks
}

fn slice_or_empty_exec(text: &[char], from: usize, to: usize) -> (r: Vec<char>)
    ensures
        r@ == slice_or_empty(text@, from as int, to as int),
{
    if from <= to && to <= text.len() {
        copy_range(text, from, to)
    } else {
        Vec::new()
    }
}

/// Thread blocks among the given tokens.
pub fn extract_thread_blocks_with_tokens(text: &[char], tokens: &Vec<TagToken>, mode: OmParseMode) -> (r: Vec<(Vec<char>, Vec<char>)>)
    ensures
        r@.map_values(|b: (Vec<char>, Vec<char>)| (b.0@, b.1@)) == thread_blocks(text@, toks(tokens@), mode),
{
    let ghost ts = toks(tokens@);
    let thread_name: Vec<char> = vec!['t', 'h', 'r', 'e', 'a', 'd'];
    assert(thread_name@ =~= seq!['t', 'h', 'r', 'e', 'a', 'd']);
    let mut blocks: Vec<(Vec<char>, Vec<char>)> = Vec::new();
    let mut open: Option<(Vec<char>, usize)> = None;
    let mut discard = false;
    let mut i: usize = 0;
    assert(blocks@.map_values(|b: (Vec<char>, Vec<char>)| (b.0@, b.1@)) =~= Seq::<(Seq<char>, Seq<char>)>::empty());
    assert(ts.take(0) =~= Seq::<Tok>::empty());
    while i < tokens.len()
        invariant
            i <= tokens.len(),
            ts == toks(tokens@),
            thread_name@ == seq!['t', 'h', 'r', 'e', 'a', 'd'],
            thread_fold(text@, ts.take(i as int), mode) == (ThreadState {
                open: match open {
                    Some((id, e)) => Some((id@, e as int)),
                    None => None,
                },
                discard,
                blocks: blocks@.map_values(|b: (Vec<char>, Vec<char>)| (b.0@, b.1@)),
            }),
        decreases tokens.len() - i,
    {
        let t = &tokens[i];
        proof {
            assert(ts.take(i + 1).drop_last() =~= ts.take(i as int));
            assert(ts.take(i + 1).last() == t@);
        }
        let ghost before = blocks@.map_values(|b: (Vec<char>, Vec<char>)| (b.0@, b.1@));
        if chars_eq(t.name.as_slice(), thread_name.as_slice()) {
            match t.kind {
                TagKind::Open => {
                    if t.line_anchored {
                        if matches!(mode, OmParseMode::Strict) && open.is_some() {
                            open = None;
                            discard = true;
                        } else {
                            let open_tag = slice_or_empty_exec(text, t.start, t.end);
                            let id = match extract_thread_id(open_tag.as_slice()) {
                                Some(v) => v,
                                None => Vec::new(),
                            };
                            proof {
                                assert(id@ == open_thread_id(text@, t@)) by {
                                    if tag_attribute(open_tag@, seq!['i', 'd']) is None {
                                        assert(id@ =~= Seq::<char>::empty());
                                    }
                                }
                            }
                            open = Some((id, t.end));
                        }
                    }
                },
                TagKind::Close => {
                    if discard {
                        discard = false;
                    } else {
                        let close_now = match &open {
                            None => false,
                            Some((_, oe)) => {
                                let oe = *oe;
                                if t.start < oe {
                                    false
                                } else {
                                    let same = oe <= t.start && t.start <= text.len() && !contains_char_exec(
                                        copy_range(text, oe, t.start).as_slice(),
                                        '\n',
                                    );
                                    t.line_anchored || same
                                }
                            },
                        };
                        if close_now {
                            match open {
                                Some((id, oe)) => {
                                    let body_raw = slice_or_empty_exec(text, oe, t.start);
                                    let body = trim_exec(body_raw.as_slice());
                                    let ghost item = (id@, body@);
                                    blocks.push((id, body));
                                    assert(blocks@.map_values(|b: (Vec<char>, Vec<char>)| (b.0@, b.1@)) =~= before.push(item));
                                },
                                None => {},
                            }
                            open = None;
                        }
                    }
                },
            }
        }
        i += 1;
    }
    assert(ts.take(tokens.len() as int) =~= ts);
    blocks
}

/// Thread blocks of a text.
pub fn extract_thread_blocks(text: &[char], mode: OmParseMode) -> (r: Vec<(Vec<char>, Vec<char>)>)
    ensures
        r@.map_values(|b: (Vec<char>, Vec<char>)| (b.0@, b.1@)) == thread_blocks(text@, tokens(text@), mode),
{
    let ts = parse_tag_tokens(text);
    extract_thread_blocks_with_tokens(text, &ts, mode)
}

// ---------------------------------------------------------------------------
// One thread's section
// ---------------------------------------------------------------------------

/// Two sections overlap.
pub open spec fn overlap(a: TagSectionRange, b: TagSectionRange) -> bool {
    a.open_start < b.close_end && b.open_start < a.close_end
}

pub fn ranges_overlap(a: &TagSectionRange, b: &TagSectionRange) -> (r: bool)
    ensures
        r == overlap(*a, *b),
{
    a.open_start < b.close_end && b.open_start < a.close_end
}

/// The sections of `rs` that overlap none of `avoid`.
pub open spec fn without_overlap(rs: Seq<TagSectionRange>, avoid: Seq<TagSectionRange>) -> Seq<TagSectionRange>
    decreases rs.len(),
{
    if rs.len() == 0 {
        Seq::empty()
    } else {
        without_overlap(rs.drop_last(), avoid) + if (forall|j: int| 0 <= j < avoid.len() ==> !overlap(rs.last(), #[trigger] avoid[j])) {
            seq![rs.last()]
        } else {
            Seq::empty()
        }
    }
}

/// Position `i` lies inside some section (from its open tag to its close tag).
pub open spec fn covered(rs: Seq<TagSectionRange>, i: int) -> bool {
    exists|j: int| 0 <= j < rs.len() && #[trigger] rs[j].open_start <= i < rs[j].close_end
}

/// The first `k` characters of `text` that no section covers.
pub open spec fn uncovered(text: Seq<char>, rs: Seq<TagSectionRange>, k: int) -> Seq<char>
    decreases k,
{
    if k <= 0 {
        Seq::empty()
    } else {
        uncovered(text, rs, k - 1) + if covered(rs, k - 1) {
            Seq::empty()
        } else {
            seq![text[k - 1]]
        }
    }
}

/// The text with all the given sections removed, trimmed.
pub open spec fn stripped(text: Seq<char>, rs: Seq<TagSectionRange>) -> Seq<char> {
    trim(uncovered(text, rs, text.len() as int))
}

/// Trimmed content of the last non-blank section.
pub open spec fn last_nonblank(text: Seq<char>, rs: Seq<TagSectionRange>) -> Option<Seq<char>> {
    let cs = nonblank_contents(text, rs);
    if cs.len() == 0 {
        None
    } else {
        Some(cs.last())
    }
}

/// A thread's section: trimmed id, observations (the body without its
/// current-task and suggested-response sections), and the last non-blank
/// task and reply; a reply section overlapping a task section is ignored.
pub struct ThreadSection {
    pub thread_id: Seq<char>,
    pub observations: Seq<char>,
    pub current_task: Option<Seq<char>>,
    pub suggested_response: Option<Seq<char>>,
}

pub open spec fn thread_section(thread_id: Seq<char>, content: Seq<char>, mode: OmParseMode) -> Option<ThreadSection> {
    let id = trim(thread_id);
    let ts = tokens(content);
    let ct = section_ranges(content, ts, "current-task"@, mode);
    let sr = section_ranges(content, ts, "suggested-response"@, mode);
    if id.len() == 0 {
        None
    } else {
        Some(ThreadSection {
            thread_id: id,
            observations: stripped(content, ct + sr),
            current_task: last_nonblank(content, ct),
            suggested_response: last_nonblank(content, without_overlap(sr, ct)),
        })
    }
}

/// Whether some section covers position `i`.
fn covered_exec(rs: &Vec<TagSectionRange>, i: usize) -> (r: bool)
    ensures
        r == covered(rs@, i as int),
{
    let mut j: usize = 0;
    while j < rs.len()
        invariant
            j <= rs.len(),
            forall|k: int| 0 <= k < j ==> !(#[trigger] rs@[k].open_start <= i < rs@[k].close_end),
        decreases rs.len() - j,
    {
        if rs[j].open_start <= i && i < rs[j].close_end {
            return true;
        }
        j += 1;
    }
    false
}

/// The text without the given sections, trimmed.
pub fn strip_tag_ranges(text: &[char], rs: &Vec<TagSectionRange>) -> (r: Vec<char>)
    ensures
        r@ == stripped(text@, rs@),
{
    let mut out: Vec<char> = Vec::new();
    let mut i: usize = 0;
    while i < text.len()
        invariant
            i <= text.len(),
            out@ == uncovered(text@, rs@, i as int),
        decreases text.len() - i,
    {
        if !covered_exec(rs, i) {
            out.push(text[i]);
        }
        assert(out@ =~= uncovered(text@, rs@, i + 1));
        i += 1;
    }
    trim_exec(out.as_slice())
}

/// The sections of `rs` overlapping none of `avoid`.
fn without_overlap_exec(rs: &Vec<TagSectionRange>, avoid: &Vec<TagSectionRange>) -> (r: Vec<TagSectionRange>)
    ensures
        r@ == without_overlap(rs@, avoid@),
{
    let mut out: Vec<TagSectionRange> = Vec::new();
    let mut i: usize = 0;
    while i < rs.len()
        invariant
            i <= rs.len(),
            out@ == without_overlap(rs@.take(i as int), avoid@),
        decreases rs.len() - i,
    {
        let r = rs[i];
        let mut ok = true;
        let mut j: usize = 0;
        while j < avoid.len()
            invariant
                j <= avoid.len(),
                ok == (forall|k: int| 0 <= k < j ==> !overlap(r, #[trigger] avoid@[k])),
            decreases avoid.len() - j,
        {
            if ranges_overlap(&r, &avoid[j]) {
                ok = false;
            }
            j += 1;
        }
        if ok {
            out.push(r);
        }
        proof {
            assert(rs@.take(i + 1).drop_last() =~= rs@.take(i as int));
            assert(rs@.take(i + 1).last() == r);
        }
        assert(out@ =~= without_overlap(rs@.take(i + 1), avoid@));
        i += 1;
    }
    assert(rs@.take(rs.len() as int) =~= rs@);
    out
}

/// Trimmed content of the last non-blank section.
fn last_nonblank_exec(text: &[char], rs: &Vec<TagSectionRange>) -> (r: Option<Vec<char>>)
    ensures
        match r {
            Some(v) => last_nonblank(text@, rs@) == Some(v@),
            None => last_nonblank(text@, rs@) is None,
        },
{
    let mut cs = nonblank_contents_exec(text, rs);
    let ghost v = views(cs@);
    match cs.pop() {
        Some(last) => {
            assert(v.last() == last@);
            Some(last)
        },
        None => None,
    }
}

/// A thread's observations and continuation metadata; `None` when the id is
/// blank.
pub fn parse_thread_observer_section(thread_id: &[char], content: &[char], mode: OmParseMode) -> (r: Option<(Vec<char>, Vec<char>, Option<Vec<char>>, Option<Vec<char>>)>)
    ensures
        match r {
            Some((id, obs, task, reply)) => thread_section(thread_id@, content@, mode) == Some(ThreadSection {
                thread_id: id@,
                observations: obs@,
                current_task: match task { Some(t) => Some(t@), None => None },
                suggested_response: match reply { Some(t) => Some(t@), None => None },
            }),
            None => thread_section(thread_id@, content@, mode) is None,
        },
{
    let id = trim_exec(thread_id);
    if id.len() == 0 {
        return None;
    }
    let ts = parse_tag_tokens(content);
    let ct = section_ranges_for_tag(content, &ts, "current-task", mode);
    let sr = section_ranges_for_tag(content, &ts, "suggested-response", mode);
    let task = last_nonblank_exec(content, &ct);
    let sr_kept = without_overlap_exec(&sr, &ct);
    let reply = last_nonblank_exec(content, &sr_kept);
    let mut all = ct.clone();
    let mut sr_copy = sr.clone();
    assert(all@ =~= ct@);
    assert(sr_copy@ =~= sr@);
    all.append(&mut sr_copy);
    let obs = strip_tag_ranges(content, &all);
    Some((id, obs, task, reply))
}

} // verus!
