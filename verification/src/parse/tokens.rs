//! Tag tokens of model output: `<name ...>` and `</name>` with their
//! positions (character indices) and whether they start a line.

use vstd::prelude::*;
use crate::text::{ascii_alphanumeric, ascii_white_space, copy_range, is_ascii_alphanumeric, is_ascii_white_space, lower, to_ascii_lower};

verus! {

#[derive(Debug, Clone, Copy, PartialEq, Eq, Structural)]
pub enum TagKind {
    Open,
    Close,
}

/// A tag found in the text: `text[start..end]` is the whole tag.
#[derive(Debug, Clone, PartialEq, Eq)]
pub struct TagToken {
    pub kind: TagKind,
    pub name: Vec<char>,
    pub start: usize,
    pub end: usize,
    pub line_anchored: bool,
}

/// Token with its name as a character sequence.
pub struct Tok {
    pub kind: TagKind,
    pub name: Seq<char>,
    pub start: int,
    pub end: int,
    pub line_anchored: bool,
}

impl View for TagToken {
    type V = Tok;

    open spec fn view(&self) -> Tok {
        Tok {
            kind: self.kind,
            name: self.name@,
            start: self.start as int,
            end: self.end as int,
            line_anchored: self.line_anchored,
        }
    }
}

/// Views of a token list.
pub open spec fn toks(ts: Seq<TagToken>) -> Seq<Tok> {
    ts.map_values(|t: TagToken| t@)
}

/// A section `text[open_start..close_end]` whose content is
/// `text[content_start..content_end]`.
#[derive(Debug, Clone, Copy, PartialEq, Eq, Structural)]
pub struct TagSectionRange {
    pub open_start: usize,
    pub content_start: usize,
    pub content_end: usize,
    pub close_end: usize,
}

pub open spec fn is_tag_name_char(c: char) -> bool {
    is_ascii_alphanumeric(c) || c == '-'
}

pub open spec fn is_attr_name_char(c: char) -> bool {
    is_ascii_alphanumeric(c) || c == '-' || c == '_'
}

pub fn tag_name_char(c: char) -> (r: bool)
    ensures
        r == is_tag_name_char(c),
{
    ascii_alphanumeric(c) || c == '-'
}

pub fn attr_name_char(c: char) -> (r: bool)
    ensures
        r == is_attr_name_char(c),
{
    ascii_alphanumeric(c) || c == '-' || c == '_'
}

/// Only spaces and tabs stand between the previous line break (or the start
/// of the text) and position `i`.
pub open spec fn line_anchored(text: Seq<char>, i: int) -> bool
    decreases i,
{
    if i <= 0 {
        true
    } else if text[i - 1] == '\n' {
        true
    } else if text[i - 1] == ' ' || text[i - 1] == '\t' {
        line_anchored(text, i - 1)
    } else {
        false
    }
}

/// Position of the first `>` at or after `i` that is outside quotes, where a
/// quote (`'` or `"`) opened before `i` is still open when `quote` is set.
pub open spec fn tag_end_from(text: Seq<char>, i: int, quote: Option<char>) -> Option<int>
    decreases text.len() - i,
{
    if i < 0 || i >= text.len() {
        None
    } else {
        match quote {
            Some(q) => if text[i] == q {
                tag_end_from(text, i + 1, None)
            } else {
                tag_end_from(text, i + 1, quote)
            },
            None => if text[i] == '\'' || text[i] == '"' {
                tag_end_from(text, i + 1, Some(text[i]))
            } else if text[i] == '>' {
                Some(i)
            } else {
                tag_end_from(text, i + 1, None)
            },
        }
    }
}

/// First index at or after `i` whose character is not ASCII whitespace.
pub open spec fn skip_ascii_ws(s: Seq<char>, i: int) -> int
    decreases s.len() - i,
{
    if i < 0 || i >= s.len() || !is_ascii_white_space(s[i]) {
        i
    } else {
        skip_ascii_ws(s, i + 1)
    }
}

/// First index at or after `i` whose character is not a tag-name character.
pub open spec fn skip_tag_name(s: Seq<char>, i: int) -> int
    decreases s.len() - i,
{
    if i < 0 || i >= s.len() || !is_tag_name_char(s[i]) {
        i
    } else {
        skip_tag_name(s, i + 1)
    }
}

/// Kind and name of the tag whose inside (between `<` and `>`) is `inner`:
/// optional whitespace, an optional `/` (closing tag) and whitespace, then a
/// non-empty run of name characters.
pub open spec fn tag_head(inner: Seq<char>) -> Option<(TagKind, Seq<char>)> {
    let c0 = skip_ascii_ws(inner, 0);
    if c0 >= inner.len() {
        None
    } else {
        let (kind, ns) = if inner[c0] == '/' {
            (TagKind::Close, skip_ascii_ws(inner, c0 + 1))
        } else {
            (TagKind::Open, c0)
        };
        let ne = skip_tag_name(inner, ns);
        if ne == ns {
            None
        } else {
            Some((kind, inner.subrange(ns, ne)))
        }
    }
}

/// Tokens of `text` from position `offset` on. A `<` without a later `>`
/// ends the scan; a `<...>` without a name is skipped.
pub open spec fn tokens_from(text: Seq<char>, offset: int) -> Seq<Tok>
    decreases text.len() - offset,
{
    if offset < 0 || offset >= text.len() {
        Seq::empty()
    } else if text[offset] != '<' {
        tokens_from(text, offset + 1)
    } else {
        match tag_end_from(text, offset + 1, None) {
            None => Seq::empty(),
            Some(end) => {
                proof {
                    lemma_tag_end_bounds(text, offset + 1, None);
                }
                match tag_head(text.subrange(offset + 1, end)) {
                    None => tokens_from(text, end + 1),
                    Some((kind, name)) => seq![
                        Tok {
                            kind,
                            name: lower(name),
                            start: offset,
                            end: end + 1,
                            line_anchored: line_anchored(text, offset),
                        },
                    ] + tokens_from(text, end + 1),
                }
            },
        }
    }
}

/// All tokens of `text`.
pub open spec fn tokens(text: Seq<char>) -> Seq<Tok> {
    tokens_from(text, 0)
}

/// Tokens lie inside the text, in increasing order.
pub open spec fn well_placed(text: Seq<char>, ts: Seq<Tok>) -> bool {
    forall|i: int| 0 <= i < ts.len() ==> 0 <= #[trigger] ts[i].start < ts[i].end <= text.len()
}

pub proof fn lemma_tag_end_bounds(text: Seq<char>, i: int, quote: Option<char>)
    ensures
        tag_end_from(text, i, quote) matches Some(e) ==> i <= e < text.len() && text[e] == '>',
    decreases text.len() - i,
{
    if 0 <= i < text.len() {
        match quote {
            Some(q) => if text[i] == q {
                lemma_tag_end_bounds(text, i + 1, None);
            } else {
                lemma_tag_end_bounds(text, i + 1, quote);
            },
            None => if text[i] == '\'' || text[i] == '"' {
                lemma_tag_end_bounds(text, i + 1, Some(text[i]));
            } else if text[i] != '>' {
                lemma_tag_end_bounds(text, i + 1, None);
            },
        }
    }
}

pub proof fn lemma_tokens_placed(text: Seq<char>, offset: int)
    requires
        offset >= 0,
    ensures
        well_placed(text, tokens_from(text, offset)),
        forall|i: int| 0 <= i < tokens_from(text, offset).len() ==> #[trigger] tokens_from(text, offset)[i].start >= offset,
    decreases text.len() - offset,
{
    if offset < text.len() {
        if text[offset] != '<' {
            lemma_tokens_placed(text, offset + 1);
        } else {
            lemma_tag_end_bounds(text, offset + 1, None);
            match tag_end_from(text, offset + 1, None) {
                None => {},
                Some(end) => {
                    lemma_tokens_placed(text, end + 1);
                    let rest = tokens_from(text, end + 1);
                    match tag_head(text.subrange(offset + 1, end)) {
                        None => {},
                        Some((kind, name)) => {
                            let all = tokens_from(text, offset);
                            assert forall|i: int| 0 <= i < all.len() implies 0 <= #[trigger] all[i].start < all[i].end <= text.len() && all[i].start >= offset by {
                                if i > 0 {
                                    assert(all[i] == rest[i - 1]);
                                }
                            }
                        },
                    }
                },
            }
        }
    }
}

/// Whether the token starting at `i` starts its line.
fn line_anchored_exec(text: &[char], i: usize) -> (r: bool)
    requires
        i <= text@.len(),
    ensures
        r == line_anchored(text@, i as int),
{
    let mut j = i;
    while j > 0 && (text[j - 1] == ' ' || text[j - 1] == '\t')
        invariant
            j <= i <= text@.len(),
            line_anchored(text@, i as int) == line_anchored(text@, j as int),
        decreases j,
    {
        j -= 1;
    }
    j == 0 || text[j - 1] == '\n'
}

/// Position of the closing `>` of a tag whose inside starts at `i`.
fn find_tag_end(text: &[char], i: usize) -> (r: Option<usize>)
    requires
        i <= text@.len(),
    ensures
        r matches Some(e) ==> tag_end_from(text@, i as int, None) == Some(e as int),
        r is None ==> tag_end_from(text@, i as int, None) is None,
{
    let mut quote: Option<char> = None;
    let mut cursor = i;
    while cursor < text.len()
        invariant
            i <= cursor <= text@.len(),
            tag_end_from(text@, i as int, None) == tag_end_from(text@, cursor as int, quote),
        decreases text.len() - cursor,
    {
        let c = text[cursor];
        match quote {
            Some(q) => {
                if c == q {
                    quote = None;
                }
            },
            None => {
                if c == '\'' || c == '"' {
                    quote = Some(c);
                } else if c == '>' {
                    return Some(cursor);
                }
            },
        }
        cursor += 1;
    }
    None
}

/// First non-ASCII-whitespace index at or after `i`.
pub fn skip_ws_exec(s: &[char], i: usize) -> (r: usize)
    requires
        i <= s@.len(),
    ensures
        r == skip_ascii_ws(s@, i as int),
        i <= r <= s@.len(),
{
    let mut c = i;
    while c < s.len() && ascii_white_space(s[c])
        invariant
            i <= c <= s@.len(),
            skip_ascii_ws(s@, i as int) == skip_ascii_ws(s@, c as int),
        decreases s.len() - c,
    {
        c += 1;
    }
    c
}

fn skip_tag_name_exec(s: &[char], i: usize) -> (r: usize)
    requires
        i <= s@.len(),
    ensures
        r == skip_tag_name(s@, i as int),
        i <= r <= s@.len(),
{
    let mut c = i;
    while c < s.len() && tag_name_char(s[c])
        invariant
            i <= c <= s@.len(),
            skip_tag_name(s@, i as int) == skip_tag_name(s@, c as int),
        decreases s.len() - c,
    {
        c += 1;
    }
    c
}

fn tag_head_exec(inner: &[char]) -> (r: Option<(TagKind, Vec<char>)>)
    ensures
        match r {
            Some((k, n)) => tag_head(inner@) == Some((k, n@)),
            None => tag_head(inner@) is None,
        },
{
    let c0 = skip_ws_exec(inner, 0);
    if c0 >= inner.len() {
        return None;
    }
    let (kind, ns) = if inner[c0] == '/' {
        (TagKind::Close, skip_ws_exec(inner, c0 + 1))
    } else {
        (TagKind::Open, c0)
    };
    let ne = skip_tag_name_exec(inner, ns);
    if ne == ns {
        None
    } else {
        Some((kind, copy_range(inner, ns, ne)))
    }
}

/// All tag tokens of `text`, in order.
pub fn parse_tag_tokens(text: &[char]) -> (r: Vec<TagToken>)
    ensures
        toks(r@) == tokens(text@),
        well_placed(text@, toks(r@)),
{
    let mut out: Vec<TagToken> = Vec::new();
    let mut offset: usize = 0;
    assert(toks(out@) + tokens_from(text@, 0) =~= tokens(text@));
    while offset < text.len()
        invariant
            offset <= text@.len(),
            toks(out@) + tokens_from(text@, offset as int) == tokens(text@),
        decreases text.len() - offset,
    {
        if text[offset] != '<' {
            offset += 1;
            continue;
        }
        match find_tag_end(text, offset + 1) {
            None => {
                assert(toks(out@) + Seq::<Tok>::empty() =~= toks(out@));
                offset = text.len();
            },
            Some(end) => {
                proof {
                    lemma_tag_end_bounds(text@, offset + 1, None);
                }
                let inner = copy_range(text, offset + 1, end);
                match tag_head_exec(inner.as_slice()) {
                    None => {},
                    Some((kind, name)) => {
                        let anchored = line_anchored_exec(text, offset);
                        let lname = to_ascii_lower(name.as_slice());
                        let ghost before = toks(out@);
                        let tok = TagToken { kind, name: lname, start: offset, end: end + 1, line_anchored: anchored };
                        out.push(tok);
                        assert(toks(out@) =~= before.push(tok@));
                        assert(before.push(tok@) + tokens_from(text@, end + 1) =~= before + (seq![tok@] + tokens_from(text@, end + 1)));
                    },
                }
                offset = end + 1;
            },
        }
    }
    proof {
        assert(toks(out@) + Seq::<Tok>::empty() =~= toks(out@));
        lemma_tokens_placed(text@, 0);
    }
    out
}

} // verus!
