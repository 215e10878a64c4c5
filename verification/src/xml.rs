//! Escaping of text and attribute values for the XML-like prompt blocks, and
//! decoding of the entities that attribute values may carry.

use vstd::prelude::*;
use crate::text::{chars_eq, chars_to_string, copy_range, find_char, find_char_from, lemma_find_char_bounds, str_to_chars};

verus! {

/// Characters allowed by XML 1.0 (`Char` production).
pub open spec fn xml_char_allowed(c: char) -> bool {
    ||| c == '\u{9}'
    ||| c == '\u{A}'
    ||| c == '\u{D}'
    ||| ('\u{20}' <= c && c <= '\u{D7FF}')
    ||| ('\u{E000}' <= c && c <= '\u{FFFD}')
    ||| ('\u{10000}' <= c && c <= '\u{10FFFF}')
}

/// Escaped form of one character; quotes are escaped only in attributes, and
/// characters XML does not allow are dropped.
pub open spec fn escape_char(c: char, attribute: bool) -> Seq<char> {
    if !xml_char_allowed(c) {
        Seq::empty()
    } else if c == '&' {
        seq!['&', 'a', 'm', 'p', ';']
    } else if c == '<' {
        seq!['&', 'l', 't', ';']
    } else if c == '>' {
        seq!['&', 'g', 't', ';']
    } else if c == '"' && attribute {
        seq!['&', 'q', 'u', 'o', 't', ';']
    } else if c == '\'' && attribute {
        seq!['&', '#', '3', '9', ';']
    } else {
        seq![c]
    }
}

/// Escaped form of a whole text: each character escaped in turn.
pub open spec fn escape(s: Seq<char>, attribute: bool) -> Seq<char>
    decreases s.len(),
{
    if s.len() == 0 {
        Seq::empty()
    } else {
        escape_char(s[0], attribute) + escape(s.drop_first(), attribute)
    }
}

/// The characters of `s` that XML allows, in order.
pub open spec fn keep_allowed(s: Seq<char>) -> Seq<char>
    decreases s.len(),
{
    if s.len() == 0 {
        Seq::empty()
    } else if xml_char_allowed(s[0]) {
        seq![s[0]] + keep_allowed(s.drop_first())
    } else {
        keep_allowed(s.drop_first())
    }
}

/// Value of a digit in the given radix (10 or 16), if it is one.
pub open spec fn digit_value(c: char, radix: nat) -> Option<nat> {
    if '0' <= c && c <= '9' {
        Some((c as nat - '0' as nat) as nat)
    } else if radix == 16 && 'a' <= c && c <= 'f' {
        Some((c as nat - 'a' as nat + 10) as nat)
    } else if radix == 16 && 'A' <= c && c <= 'F' {
        Some((c as nat - 'A' as nat + 10) as nat)
    } else {
        None
    }
}

/// Value of a non-empty digit string, or `None` if some character is no digit.
pub open spec fn digits_value(d: Seq<char>, radix: nat) -> Option<nat>
    decreases d.len(),
{
    if d.len() == 0 {
        Some(0)
    } else {
        match (digits_value(d.drop_last(), radix), digit_value(d.last(), radix)) {
            (Some(v), Some(x)) => Some(v * radix + x),
            _ => None,
        }
    }
}

/// `u32::from_str_radix`: an optional `+`, then at least one digit, the value
/// fitting in `u32`.
pub open spec fn parse_u32_radix(s: Seq<char>, radix: nat) -> Option<u32> {
    let d = if s.len() > 0 && s[0] == '+' {
        s.drop_first()
    } else {
        s
    };
    if d.len() == 0 {
        None
    } else {
        match digits_value(d, radix) {
            Some(v) => if v <= u32::MAX {
                Some(v as u32)
            } else {
                None
            },
            None => None,
        }
    }
}

/// `char::from_u32`: Unicode scalar values only.
pub open spec fn scalar_char(v: u32) -> Option<char> {
    if v < 0xD800 || (0xE000 <= v && v <= 0x10FFFF) {
        Some(v as char)
    } else {
        None
    }
}

/// Character named by an entity body (the text between `&` and `;`).
pub open spec fn decode_entity(e: Seq<char>) -> Option<char> {
    if e == seq!['a', 'm', 'p'] {
        Some('&')
    } else if e == seq!['l', 't'] {
        Some('<')
    } else if e == seq!['g', 't'] {
        Some('>')
    } else if e == seq!['q', 'u', 'o', 't'] {
        Some('"')
    } else if e == seq!['a', 'p', 'o', 's'] || e == seq!['#', '3', '9'] {
        Some('\'')
    } else if e.len() >= 2 && e[0] == '#' && (e[1] == 'x' || e[1] == 'X') {
        match parse_u32_radix(e.skip(2), 16) {
            Some(v) => scalar_char(v),
            None => None,
        }
    } else if e.len() >= 1 && e[0] == '#' {
        match parse_u32_radix(e.skip(1), 10) {
            Some(v) => scalar_char(v),
            None => None,
        }
    } else {
        None
    }
}

/// Length of the entity body that starts after a `&` at the front of `s`,
/// when `s` holds a later `;`.
pub open spec fn entity_len(s: Seq<char>) -> int {
    find_char(s.drop_first(), ';')
}

/// Decoding of entities: a `&` followed later by `;` whose body names a
/// character becomes that character; everything else is kept.
pub open spec fn unescape(s: Seq<char>) -> Seq<char>
    decreases s.len(),
{
    if s.len() == 0 {
        Seq::empty()
    } else {
        let k = entity_len(s);
        if s[0] == '&' && s.len() > 1 && k < s.len() - 1 && decode_entity(s.subrange(1, 1 + k))
            is Some {
            proof {
                lemma_find_char_bounds(s.drop_first(), ';');
            }
            seq![decode_entity(s.subrange(1, 1 + k))->0] + unescape(s.skip(k + 2))
        } else {
            seq![s[0]] + unescape(s.drop_first())
        }
    }
}

fn is_xml_char_allowed(c: char) -> (b: bool)
    ensures
        b == xml_char_allowed(c),
{
    c == '\u{9}' || c == '\u{A}' || c == '\u{D}' || ('\u{20}' <= c && c <= '\u{D7FF}') || (
    '\u{E000}' <= c && c <= '\u{FFFD}') || ('\u{10000}' <= c && c <= '\u{10FFFF}')
}

/// Appends the escaped form of `text` to `out`.
pub fn escape_into(out: &mut Vec<char>, text: &[char], attribute: bool)
    ensures
        final(out)@ == old(out)@ + escape(text@, attribute),
{
    let mut i: usize = 0;
    assert(text@.skip(0) =~= text@);
    while i < text.len()
        invariant
            i <= text.len(),
            out@ + escape(text@.skip(i as int), attribute) == old(out)@ + escape(text@, attribute),
        decreases text.len() - i,
    {
        let ghost before = out@;
        let c = text[i];
        proof {
            assert(text@.skip(i as int).drop_first() =~= text@.skip(i + 1));
            assert(text@.skip(i as int)[0] == c);
        }
        if !is_xml_char_allowed(c) {
        } else if c == '&' {
            out.push('&');
            out.push('a');
            out.push('m');
            out.push('p');
            out.push(';');
        } else if c == '<' {
            out.push('&');
            out.push('l');
            out.push('t');
            out.push(';');
        } else if c == '>' {
            out.push('&');
            out.push('g');
            out.push('t');
            out.push(';');
        } else if c == '"' && attribute {
            out.push('&');
            out.push('q');
            out.push('u');
            out.push('o');
            out.push('t');
            out.push(';');
        } else if c == '\'' && attribute {
            out.push('&');
            out.push('#');
            out.push('3');
            out.push('9');
            out.push(';');
        } else {
            out.push(c);
        }
        proof {
            assert(out@ =~= before + escape_char(c, attribute));
            assert(before + escape(text@.skip(i as int), attribute) =~= out@ + escape(
                text@.skip(i + 1),
                attribute,
            ));
        }
        i += 1;
    }
    assert(text@.skip(text.len() as int) =~= Seq::<char>::empty());
    assert(out@ + Seq::<char>::empty() =~= out@);
}

/// Escapes `&`, `<` and `>` for element text (quotes kept), dropping
/// characters XML does not allow.
pub fn escape_xml_text(text: &str) -> (r: String)
    ensures
        r@ == escape(text@, false),
{
    let t = str_to_chars(text);
    let mut out: Vec<char> = Vec::new();
    escape_into(&mut out, t.as_slice(), false);
    chars_to_string(out.as_slice())
}

/// Escapes `&`, `<`, `>`, `"` and `'` for attribute values, dropping
/// characters XML does not allow.
pub fn escape_xml_attribute(text: &str) -> (r: String)
    ensures
        r@ == escape(text@, true),
{
    let t = str_to_chars(text);
    let mut out: Vec<char> = Vec::new();
    escape_into(&mut out, t.as_slice(), true);
    chars_to_string(out.as_slice())
}

fn digit_value_exec(c: char, radix: u64) -> (r: Option<u64>)
    requires
        radix == 10 || radix == 16,
    ensures
        r matches Some(v) ==> digit_value(c, radix as nat) == Some(v as nat) && v < radix,
        r is None ==> digit_value(c, radix as nat) is None,
{
    if '0' <= c && c <= '9' {
        Some((c as u64) - ('0' as u64))
    } else if radix == 16 && 'a' <= c && c <= 'f' {
        Some((c as u64) - ('a' as u64) + 10)
    } else if radix == 16 && 'A' <= c && c <= 'F' {
        Some((c as u64) - ('A' as u64) + 10)
    } else {
        None
    }
}

proof fn lemma_digits_value_grows(d: Seq<char>, radix: nat, v: nat, x: nat)
    requires
        radix >= 1,
        v > u32::MAX,
    ensures
        v * radix + x > u32::MAX,
{
    assert(v * radix >= v) by (nonlinear_arith)
        requires
            radix >= 1,
            v >= 0,
    ;
}

/// `u32::from_str_radix(s[from..], radix)` for radix 10 or 16.
fn parse_u32_radix_exec(s: &[char], from: usize, radix: u64) -> (r: Option<u32>)
    requires
        radix == 10 || radix == 16,
        from <= s@.len(),
    ensures
        r == parse_u32_radix(s@.skip(from as int), radix as nat),
{
    let ghost t = s@.skip(from as int);
    let mut start = from;
    if start < s.len() && s[start] == '+' {
        start += 1;
    }
    let ghost d = s@.skip(start as int);
    proof {
        if t.len() > 0 && t[0] == '+' {
            assert(t.drop_first() =~= d);
        } else {
            assert(t =~= d);
        }
    }
    if start >= s.len() {
        return None;
    }
    // `acc` is the value read so far, held at 2^32 once it no longer fits.
    let mut acc: u64 = 0;
    let mut i = start;
    while i < s.len()
        invariant
            start <= i <= s@.len(),
            radix == 10 || radix == 16,
            d == s@.skip(start as int),
            t == s@.skip(from as int),
            t.len() > 0 && t[0] == '+' ==> t.drop_first() == d,
            !(t.len() > 0 && t[0] == '+') ==> t == d,
            d.len() > 0,
            digits_value(d.take(i - start), radix as nat) is Some,
            acc == if digits_value(d.take(i - start), radix as nat)->0 <= u32::MAX {
                digits_value(d.take(i - start), radix as nat)->0
            } else {
                0x1_0000_0000
            },
        decreases s.len() - i,
    {
        let ghost pre = d.take(i - start);
        let ghost cur = d.take(i + 1 - start);
        proof {
            assert(cur.drop_last() =~= pre);
            assert(cur.last() == s@[i as int]);
        }
        match digit_value_exec(s[i], radix) {
            None => {
                proof {
                    assert(d[i - start] == s@[i as int]);
                    lemma_digits_none_extends(d, radix as nat, (i + 1 - start) as int);
                    assert(digits_value(d, radix as nat) is None);
                    assert(t.len() > 0 && t[0] == '+' ==> t.drop_first() == d);
                    assert(!(t.len() > 0 && t[0] == '+') ==> t == d);
                }
                return None;
            },
            Some(x) => {
                let ghost pv = digits_value(pre, radix as nat)->0;
                if acc > 0xFFFF_FFFF {
                    proof {
                        lemma_digits_value_grows(pre, radix as nat, pv, x as nat);
                    }
                } else {
                    assert(acc * radix + x <= 0xFFFF_FFFF * 16 + 15) by (nonlinear_arith)
                        requires
                            acc <= 0xFFFF_FFFF,
                            radix <= 16,
                            x < radix,
                    ;
                    acc = acc * radix + x;
                    if acc > 0xFFFF_FFFF {
                        acc = 0x1_0000_0000;
                    }
                }
            },
        }
        i += 1;
    }
    assert(d.take(i - start) =~= d);
    if acc > 0xFFFF_FFFF {
        None
    } else {
        Some(acc as u32)
    }
}

/// Once a digit string has a non-digit, every extension of it has one too.
proof fn lemma_digits_none_extends(d: Seq<char>, radix: nat, n: int)
    requires
        0 < n <= d.len(),
        digit_value(d[n - 1], radix) is None,
    ensures
        digits_value(d, radix) is None,
    decreases d.len(),
{
    if n < d.len() {
        assert(d.drop_last()[n - 1] == d[n - 1]);
        lemma_digits_none_extends(d.drop_last(), radix, n);
    }
}

/// `char::from_u32`, which its documentation describes as returning `None`
/// exactly for surrogates and values above `char::MAX`.
#[verifier::external_body]
fn scalar_char_exec(v: u32) -> (r: Option<char>)
    ensures
        r == scalar_char(v),
{
    char::from_u32(v)
}

fn seq_is(s: &[char], from: usize, to: usize, lit: &str) -> (r: bool)
    requires
        from <= to <= s@.len(),
    ensures
        r == (s@.subrange(from as int, to as int) == lit@),
{
    let part = copy_range(s, from, to);
    let l = str_to_chars(lit);
    chars_eq(part.as_slice(), l.as_slice())
}

/// Decodes the entity body `s[from..to]`.
fn decode_entity_exec(s: &[char], from: usize, to: usize) -> (r: Option<char>)
    requires
        from <= to <= s@.len(),
    ensures
        r == decode_entity(s@.subrange(from as int, to as int)),
{
    let ghost e = s@.subrange(from as int, to as int);
    let e_v = copy_range(s, from, to);
    let n = e_v.len();
    proof {
        reveal_strlit("amp");
        reveal_strlit("lt");
        reveal_strlit("gt");
        reveal_strlit("quot");
        reveal_strlit("apos");
        reveal_strlit("#39");
        assert("amp"@ =~= seq!['a', 'm', 'p']);
        assert("lt"@ =~= seq!['l', 't']);
        assert("gt"@ =~= seq!['g', 't']);
        assert("quot"@ =~= seq!['q', 'u', 'o', 't']);
        assert("apos"@ =~= seq!['a', 'p', 'o', 's']);
        assert("#39"@ =~= seq!['#', '3', '9']);
    }
    if seq_is(s, from, to, "amp") {
        Some('&')
    } else if seq_is(s, from, to, "lt") {
        Some('<')
    } else if seq_is(s, from, to, "gt") {
        Some('>')
    } else if seq_is(s, from, to, "quot") {
        Some('"')
    } else if seq_is(s, from, to, "apos") || seq_is(s, from, to, "#39") {
        Some('\'')
    } else if n >= 2 && e_v[0] == '#' && (e_v[1] == 'x' || e_v[1] == 'X') {
        assert(e.skip(2) =~= e_v@.skip(2));
        match parse_u32_radix_exec(e_v.as_slice(), 2, 16) {
            Some(v) => scalar_char_exec(v),
            None => None,
        }
    } else if n >= 1 && e_v[0] == '#' {
        assert(e.skip(1) =~= e_v@.skip(1));
        match parse_u32_radix_exec(e_v.as_slice(), 1, 10) {
            Some(v) => scalar_char_exec(v),
            None => None,
        }
    } else {
        None
    }
}

/// Decodes named (`amp`, `lt`, `gt`, `quot`, `apos`) and numeric
/// (`#39`, `#65`, `#x41`) entities; anything else is kept as written.
pub fn unescape_chars(text: &[char]) -> (r: Vec<char>)
    ensures
        r@ == unescape(text@),
{
    let mut out: Vec<char> = Vec::new();
    let mut i: usize = 0;
    assert(text@.skip(0) =~= text@);
    assert(out@ + unescape(text@) =~= unescape(text@));
    while i < text.len()
        invariant
            i <= text.len(),
            out@ + unescape(text@.skip(i as int)) == unescape(text@),
        decreases text.len() - i,
    {
        let ghost rest = text@.skip(i as int);
        let ghost before = out@;
        let mut handled = false;
        if text[i] == '&' && i + 1 < text.len() {
            let end = find_char_from(text, ';', i + 1);
            proof {
                assert(rest.drop_first() =~= text@.skip(i + 1));
            }
            if end < text.len() {
                let decoded = decode_entity_exec(text, i + 1, end);
                proof {
                    assert(rest.subrange(1, 1 + entity_len(rest)) =~= text@.subrange(
                        i + 1,
                        end as int,
                    ));
                }
                if let Some(ch) = decoded {
                    out.push(ch);
                    proof {
                        assert(rest.skip(entity_len(rest) + 2) =~= text@.skip(end + 1));
                        assert(before + unescape(rest) =~= out@ + unescape(text@.skip(end + 1)));
                    }
                    i = end + 1;
                    handled = true;
                }
            }
        }
        if !handled {
            out.push(text[i]);
            proof {
                assert(rest.drop_first() =~= text@.skip(i + 1));
                assert(before + unescape(rest) =~= out@ + unescape(text@.skip(i + 1)));
            }
            i += 1;
        }
    }
    assert(text@.skip(text.len() as int) =~= Seq::<char>::empty());
    assert(text@.skip(0) =~= text@);
    assert(out@ + Seq::<char>::empty() =~= out@);
    out
}

/// Decodes the entities of an attribute value.
pub fn unescape_xml_attribute(text: &str) -> (r: String)
    ensures
        r@ == unescape(text@),
{
    let t = str_to_chars(text);
    let out = unescape_chars(t.as_slice());
    chars_to_string(out.as_slice())
}


// ---------------------------------------------------------------------------
// Laws
// ---------------------------------------------------------------------------

/// Decoding `&body;` followed by `t` gives the named character and then the
/// decoding of `t`.
proof fn lemma_unescape_entity(body: Seq<char>, ch: char, t: Seq<char>)
    requires
        decode_entity(body) == Some(ch),
        forall|j: int| 0 <= j < body.len() ==> body[j] != ';',
    ensures
        unescape(seq!['&'] + body + seq![';'] + t) == seq![ch] + unescape(t),
{
    let s = seq!['&'] + body + seq![';'] + t;
    let k = body.len() as int;
    assert(s.drop_first()[k] == ';');
    assert forall|j: int| 0 <= j < k implies s.drop_first()[j] != ';' by {
        assert(s.drop_first()[j] == body[j]);
    }
    crate::text::lemma_find_char_at(s.drop_first(), ';', k);
    assert(entity_len(s) == k);
    assert(s.subrange(1, 1 + k) =~= body);
    assert(s.skip(k + 2) =~= t);
}

/// Unescaping an escaped text gives the text back, less the characters XML
/// does not allow.
pub proof fn law_unescape_escape(s: Seq<char>, attribute: bool)
    ensures
        unescape(escape(s, attribute)) == keep_allowed(s),
    decreases s.len(),
{
    if s.len() > 0 {
        let c = s[0];
        let rest = s.drop_first();
        let t = escape(rest, attribute);
        law_unescape_escape(rest, attribute);
        if !xml_char_allowed(c) {
            assert(escape(s, attribute) =~= t);
        } else if c == '&' {
            assert(escape(s, attribute) =~= seq!['&'] + seq!['a', 'm', 'p'] + seq![';'] + t);
            assert(decode_entity(seq!['a', 'm', 'p']) == Some('&'));
            lemma_unescape_entity(seq!['a', 'm', 'p'], '&', t);
        } else if c == '<' {
            assert(escape(s, attribute) =~= seq!['&'] + seq!['l', 't'] + seq![';'] + t);
            assert(decode_entity(seq!['l', 't']) == Some('<')) by {
                assert(seq!['l', 't'] != seq!['a', 'm', 'p']);
            }
            lemma_unescape_entity(seq!['l', 't'], '<', t);
        } else if c == '>' {
            assert(escape(s, attribute) =~= seq!['&'] + seq!['g', 't'] + seq![';'] + t);
            assert(decode_entity(seq!['g', 't']) == Some('>')) by {
                assert(seq!['g', 't'] != seq!['a', 'm', 'p']);
                assert(seq!['g', 't'] != seq!['l', 't']);
            }
            lemma_unescape_entity(seq!['g', 't'], '>', t);
        } else if c == '"' && attribute {
            assert(escape(s, attribute) =~= seq!['&'] + seq!['q', 'u', 'o', 't'] + seq![';'] + t);
            assert(decode_entity(seq!['q', 'u', 'o', 't']) == Some('"')) by {
                assert(seq!['q', 'u', 'o', 't'] != seq!['a', 'm', 'p']);
                assert(seq!['q', 'u', 'o', 't'] != seq!['l', 't']);
                assert(seq!['q', 'u', 'o', 't'] != seq!['g', 't']);
            }
            lemma_unescape_entity(seq!['q', 'u', 'o', 't'], '"', t);
        } else if c == '\'' && attribute {
            assert(escape(s, attribute) =~= seq!['&'] + seq!['#', '3', '9'] + seq![';'] + t);
            assert(decode_entity(seq!['#', '3', '9']) == Some('\'')) by {
                assert(seq!['#', '3', '9'] != seq!['a', 'm', 'p']);
                assert(seq!['#', '3', '9'] != seq!['l', 't']);
                assert(seq!['#', '3', '9'] != seq!['g', 't']);
                assert(seq!['#', '3', '9'] != seq!['q', 'u', 'o', 't']);
                assert(seq!['#', '3', '9'] != seq!['a', 'p', 'o', 's']);
            }
            lemma_unescape_entity(seq!['#', '3', '9'], '\'', t);
        } else {
            let e = escape(s, attribute);
            assert(e =~= seq![c] + t);
            assert(e.drop_first() =~= t);
        }
    }
}

/// Escaped text holds no `<` or `>`, and an escaped attribute value no
/// quote either, so it cannot open, close or end a tag.
pub proof fn law_escape_has_no_markup(s: Seq<char>, attribute: bool)
    ensures
        !escape(s, attribute).contains('<'),
        !escape(s, attribute).contains('>'),
        attribute ==> !escape(s, attribute).contains('"'),
        attribute ==> !escape(s, attribute).contains('\''),
    decreases s.len(),
{
    if s.len() > 0 {
        law_escape_has_no_markup(s.drop_first(), attribute);
        let head = escape_char(s[0], attribute);
        let t = escape(s.drop_first(), attribute);
        assert(escape(s, attribute) == head + t);
        assert forall|j: int| 0 <= j < head.len() implies head[j] != '<' && head[j] != '>' && (attribute
            ==> head[j] != '"' && head[j] != '\'') by {}
        assert forall|j: int| 0 <= j < (head + t).len() implies (head + t)[j] != '<' && (head + t)[j] != '>'
            && (attribute ==> (head + t)[j] != '"' && (head + t)[j] != '\'') by {
            if j >= head.len() {
                assert((head + t)[j] == t[j - head.len()]);
            }
        }
    }
}

} // verus!
