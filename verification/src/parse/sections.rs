//! Sections `<tag> ... </tag>` found among the tokens of a text.

use vstd::prelude::*;
use crate::parse::OmParseMode;
use crate::parse::tokens::{TagKind, TagSectionRange, TagToken, Tok, toks, well_placed};
use crate::text::{contains_char_exec, copy_range, join, join_exec, lower, str_to_chars, to_ascii_lower, trim, trim_exec, views, chars_eq};

verus! {

/// State while scanning tokens: the pending open tag, whether the next close
/// tag is to be ignored, and the sections found so far.
pub struct SecState {
    pub open: Option<Tok>,
    pub discard: bool,
    pub ranges: Seq<TagSectionRange>,
}

/// Whether `text[from..to]` is a valid range holding no line break.
pub open spec fn same_line(text: Seq<char>, from: int, to: int) -> bool {
    0 <= from <= to <= text.len() && !text.subrange(from, to).contains('\n')
}

/// One token of the scan. Only line-anchored open tags count. In strict mode
/// a second open tag before a close discards both the pending one and the
/// next close; in lenient mode the latest open tag wins. A close tag ends a
/// section when it starts a line or stays on the open tag's line.
pub open spec fn sec_step(text: Seq<char>, tag: Seq<char>, mode: OmParseMode, st: SecState, t: Tok) -> SecState {
    if t.name != tag {
        st
    } else {
        match t.kind {
            TagKind::Open => if !t.line_anchored {
                st
            } else if mode == OmParseMode::Strict && st.open is Some {
                SecState { open: None, discard: true, ranges: st.ranges }
            } else {
                SecState { open: Some(t), discard: st.discard, ranges: st.ranges }
            },
            TagKind::Close => if st.discard {
                SecState { open: st.open, discard: false, ranges: st.ranges }
            } else {
                match st.open {
                    None => st,
                    Some(o) => if t.start < o.end {
                        st
                    } else if !t.line_anchored && !same_line(text, o.end, t.start) {
                        st
                    } else {
                        SecState {
                            open: None,
                            discard: st.discard,
                            ranges: st.ranges.push(
                                TagSectionRange {
                                    open_start: o.start as usize,
                                    content_start: o.end as usize,
                                    content_end: t.start as usize,
                                    close_end: t.end as usize,
                                },
                            ),
                        }
                    },
                }
            },
        }
    }
}

/// The scan over a token sequence.
pub open spec fn sec_fold(text: Seq<char>, ts: Seq<Tok>, tag: Seq<char>, mode: OmParseMode) -> SecState
    decreases ts.len(),
{
    if ts.len() == 0 {
        SecState { open: None, discard: false, ranges: Seq::empty() }
    } else {
        sec_step(text, tag, mode, sec_fold(text, ts.drop_last(), tag, mode), ts.last())
    }
}

/// Sections of `tag` (trimmed, lower-cased; empty gives none).
pub open spec fn section_ranges(text: Seq<char>, ts: Seq<Tok>, tag: Seq<char>, mode: OmParseMode) -> Seq<TagSectionRange> {
    let t = lower(trim(tag));
    if t.len() == 0 {
        Seq::empty()
    } else {
        sec_fold(text, ts, t, mode).ranges
    }
}

/// Content of a section, when its bounds lie in the text.
pub open spec fn range_content(text: Seq<char>, r: TagSectionRange) -> Option<Seq<char>> {
    if r.content_start <= r.content_end <= text.len() {
        Some(text.subrange(r.content_start as int, r.content_end as int))
    } else {
        None
    }
}

/// Trimmed contents of the sections, blank ones dropped.
pub open spec fn nonblank_contents(text: Seq<char>, rs: Seq<TagSectionRange>) -> Seq<Seq<char>>
    decreases rs.len(),
{
    if rs.len() == 0 {
        Seq::empty()
    } else {
        nonblank_contents(text, rs.drop_last()) + match range_content(text, rs.last()) {
            Some(c) => if trim(c).len() > 0 {
                seq![trim(c)]
            } else {
                Seq::empty()
            },
            None => Seq::empty(),
        }
    }
}

/// Non-blank section contents joined by line breaks.
pub open spec fn joined_sections(text: Seq<char>, rs: Seq<TagSectionRange>) -> Seq<char> {
    join(nonblank_contents(text, rs), seq!['\n'])
}

/// Trimmed content of the last non-blank section of `tag`.
pub open spec fn last_tag_content(text: Seq<char>, ts: Seq<Tok>, tag: Seq<char>, mode: OmParseMode) -> Option<Seq<char>> {
    let cs = nonblank_contents(text, section_ranges(text, ts, tag, mode));
    if cs.len() == 0 {
        None
    } else {
        Some(cs.last())
    }
}

/// The sections of `tag` among `tokens`.
pub fn section_ranges_for_tag(text: &[char], tokens: &Vec<TagToken>, tag: &str, mode: OmParseMode) -> (r: Vec<TagSectionRange>)
    ensures
        r@ == section_ranges(text@, toks(tokens@), tag@, mode),
{
    let raw = str_to_chars(tag);
    let trimmed = trim_exec(raw.as_slice());
    let name = to_ascii_lower(trimmed.as_slice());
    if name.len() == 0 {
        return Vec::new();
    }
    let ghost ts = toks(tokens@);
    let mut ranges: Vec<TagSectionRange> = Vec::new();
    let mut open: Option<(usize, usize)> = None;
    let ghost mut open_tok: Option<Tok> = None;
    let mut discard = false;
    let mut i: usize = 0;
    while i < tokens.len()
        invariant
            i <= tokens.len(),
            ts == toks(tokens@),
            sec_fold(text@, ts.take(i as int), name@, mode) == (SecState { open: open_tok, discard, ranges: ranges@ }),
            open is None <==> open_tok is None,
            open matches Some((s, e)) ==> open_tok->0.start == s && open_tok->0.end == e,
        decreases tokens.len() - i,
    {
        let t = &tokens[i];
        proof {
            assert(ts.take(i + 1).drop_last() =~= ts.take(i as int));
            assert(ts.take(i + 1).last() == t@);
        }
        if chars_eq(t.name.as_slice(), name.as_slice()) {
            match t.kind {
                TagKind::Open => {
                    if t.line_anchored {
                        if matches!(mode, OmParseMode::Strict) && open.is_some() {
                            open = None;
                            proof {
                                open_tok = None;
                            }
                            discard = true;
                        } else {
                            open = Some((t.start, t.end));
                            proof {
                                open_tok = Some(t@);
                            }
                        }
                    }
                },
                TagKind::Close => {
                    if discard {
                        discard = false;
                    } else {
                        match open {
                            None => {},
                            Some((os, oe)) => {
                                if t.start >= oe {
                                    let same = oe <= t.start && t.start <= text.len() && !contains_char_exec(
                                        copy_range(text, oe, t.start).as_slice(),
                                        '\n',
                                    );
                                    if t.line_anchored || same {
                                        ranges.push(TagSectionRange {
                                            open_start: os,
                                            content_start: oe,
                                            content_end: t.start,
                                            close_end: t.end,
                                        });
                                        open = None;
                                        proof {
                                            open_tok = None;
                                        }
                                    }
                                }
                            },
                        }
                    }
                },
            }
        }
        i += 1;
    }
    assert(ts.take(tokens.len() as int) =~= ts);
    ranges
}

/// Bounds-checked content of a section.
pub fn range_content_exec(text: &[char], r: TagSectionRange) -> (c: Option<Vec<char>>)
    ensures
        match c {
            Some(v) => range_content(text@, r) == Some(v@),
            None => range_content(text@, r) is None,
        },
{
    if r.content_start <= r.content_end && r.content_end <= text.len() {
        Some(copy_range(text, r.content_start, r.content_end))
    } else {
        None
    }
}

/// Trimmed, non-blank contents of the given sections.
pub fn nonblank_contents_exec(text: &[char], rs: &Vec<TagSectionRange>) -> (r: Vec<Vec<char>>)
    ensures
        views(r@) == nonblank_contents(text@, rs@),
{
    let mut out: Vec<Vec<char>> = Vec::new();
    let mut i: usize = 0;
    while i < rs.len()
        invariant
            i <= rs.len(),
            views(out@) == nonblank_contents(text@, rs@.take(i as int)),
        decreases rs.len() - i,
    {
        proof {
            assert(rs@.take(i + 1).drop_last() =~= rs@.take(i as int));
        }
        match range_content_exec(text, rs[i]) {
            Some(c) => {
                let t = trim_exec(c.as_slice());
                if t.len() > 0 {
                    out.push(t);
                }
            },
            None => {},
        }
        assert(views(out@) =~= nonblank_contents(text@, rs@.take(i + 1)));
        i += 1;
    }
    assert(rs@.take(rs.len() as int) =~= rs@);
    out
}

/// Non-blank section contents joined by line breaks.
pub fn join_section_ranges(text: &[char], rs: &Vec<TagSectionRange>) -> (r: Vec<char>)
    ensures
        r@ == joined_sections(text@, rs@),
{
    let parts = nonblank_contents_exec(text, rs);
    let sep: Vec<char> = vec!['\n'];
    assert(sep@ =~= seq!['\n']);
    join_exec(&parts, sep.as_slice())
}

/// Trimmed, non-blank contents of the sections of `tag`.
pub fn extract_tag_sections_from_tokens(text: &[char], tokens: &Vec<TagToken>, tag: &str, mode: OmParseMode) -> (r: Vec<Vec<char>>)
    ensures
        views(r@) == nonblank_contents(text@, section_ranges(text@, toks(tokens@), tag@, mode)),
{
    let rs = section_ranges_for_tag(text, tokens, tag, mode);
    nonblank_contents_exec(text, &rs)
}

/// Content of the last non-blank section of `tag`.
pub fn extract_tag_content_from_tokens(text: &[char], tokens: &Vec<TagToken>, tag: &str, mode: OmParseMode) -> (r: Option<Vec<char>>)
    ensures
        match r {
            Some(v) => last_tag_content(text@, toks(tokens@), tag@, mode) == Some(v@),
            None => last_tag_content(text@, toks(tokens@), tag@, mode) is None,
        },
{
    let mut cs = extract_tag_sections_from_tokens(text, tokens, tag, mode);
    let ghost v = views(cs@);
    match cs.pop() {
        Some(last) => {
            assert(v.last() == last@);
            Some(last)
        },
        None => None,
    }
}

} // verus!
