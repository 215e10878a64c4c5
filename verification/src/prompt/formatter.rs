//! Message histories rendered for the observer prompt.

use vstd::prelude::*;
use crate::inference::OmPendingMessage;
use crate::prompt::OmObserverThreadMessages;
use crate::text::{
    ascii_alphanumeric, chars_to_string, copy_range, extend, extend_str, is_ascii_alphanumeric,
    join, join_exec, lemma_trim_by_range, str_to_chars, string_chars, trim, trim_by, trim_exec,
    trim_end_by, trim_start_by,
    views,
};
use crate::time::{format_observer_timestamp, is_rfc3339, observer_timestamp_text};
use crate::xml::{escape, escape_into};

verus! {

/// What `char::to_uppercase` yields for a character.
pub uninterp spec fn char_uppercase(c: char) -> Seq<char>;

/// Calls `char::to_uppercase` and collects what it yields. The contract
/// names the result and states the ASCII case the documentation gives:
/// a lowercase ASCII letter becomes its capital, any other ASCII character
/// stays as it is. What other characters map to is Unicode's table.
#[verifier::external_body]
fn to_uppercase_chars(c: char) -> (r: Vec<char>)
    ensures
        r@ == char_uppercase(c),
        'a' <= c <= 'z' ==> r@ == seq![((c as u32) - 32) as char],
        (c as u32) < 128 && !('a' <= c <= 'z') ==> r@ == seq![c],
{
    c.to_uppercase().collect()
}

/// The trimmed role with its first character upper-cased; `Unknown` when
/// blank.
pub open spec fn role_label(role: Seq<char>) -> Seq<char> {
    let t = trim(role);
    if t.len() == 0 {
        "Unknown"@
    } else {
        char_uppercase(t[0]) + t.drop_first()
    }
}

fn normalize_role(role: &str) -> (r: Vec<char>)
    ensures
        r@ == role_label(role@),
{
    let rc = str_to_chars(role);
    let t = trim_exec(rc.as_slice());
    if t.len() == 0 {
        return str_to_chars("Unknown");
    }
    let mut out = to_uppercase_chars(t[0]);
    let rest = copy_range(t.as_slice(), 1, t.len());
    assert(rest@ =~= t@.drop_first());
    extend(&mut out, rest.as_slice());
    out
}

/// ASCII alphanumerics and `- _ . /` are kept in prompt ids.
pub open spec fn prompt_id_char(c: char) -> bool {
    is_ascii_alphanumeric(c) || c == '-' || c == '_' || c == '.' || c == '/'
}

/// The id with every run of other characters replaced by one `_`, and
/// whether it ends in such a replacement.
pub open spec fn prompt_id_scan(s: Seq<char>) -> (Seq<char>, bool)
    decreases s.len(),
{
    if s.len() == 0 {
        (Seq::empty(), false)
    } else {
        let (out, last) = prompt_id_scan(s.drop_last());
        let c = s.last();
        if prompt_id_char(c) {
            (out.push(c), false)
        } else if !last {
            (out.push('_'), true)
        } else {
            (out, last)
        }
    }
}

pub open spec fn is_underscore(c: char) -> bool {
    c == '_'
}

/// The id as shown in the prompt: trimmed, other characters replaced, outer
/// underscores dropped; none when nothing remains.
pub open spec fn prompt_message_id(raw: Seq<char>) -> Option<Seq<char>> {
    let n = trim_by(prompt_id_scan(trim(raw)).0, |c: char| is_underscore(c));
    if n.len() == 0 {
        None
    } else {
        Some(n)
    }
}

fn normalize_message_id_for_prompt(raw: &str) -> (r: Option<Vec<char>>)
    ensures
        match r {
            Some(v) => prompt_message_id(raw@) == Some(v@),
            None => prompt_message_id(raw@) is None,
        },
{
    let rc = str_to_chars(raw);
    let t = trim_exec(rc.as_slice());
    let mut out: Vec<char> = Vec::new();
    let mut last_was_separator = false;
    let mut i: usize = 0;
    while i < t.len()
        invariant
            i <= t.len(),
            (out@, last_was_separator) == prompt_id_scan(t@.take(i as int)),
        decreases t.len() - i,
    {
        proof {
            assert(t@.take(i + 1).drop_last() =~= t@.take(i as int));
            assert(t@.take(i + 1).last() == t@[i as int]);
        }
        let ch = t[i];
        if ascii_alphanumeric(ch) || ch == '-' || ch == '_' || ch == '.' || ch == '/' {
            out.push(ch);
            last_was_separator = false;
        } else if !last_was_separator {
            out.push('_');
            last_was_separator = true;
        }
        i += 1;
    }
    assert(t@.take(t.len() as int) =~= t@);
    let ghost p = |c: char| is_underscore(c);
    let mut a: usize = 0;
    while a < out.len() && out[a] == '_'
        invariant
            a <= out.len(),
            p == (|c: char| is_underscore(c)),
            forall|j: int| 0 <= j < a ==> p(out@[j]),
        decreases out.len() - a,
    {
        a += 1;
    }
    let mut b: usize = out.len();
    while b > a && out[b - 1] == '_'
        invariant
            a <= b <= out.len(),
            p == (|c: char| is_underscore(c)),
            forall|j: int| b <= j < out.len() ==> p(out@[j]),
        decreases b,
    {
        b -= 1;
    }
    proof {
        if a == b {
            assert forall|j: int| 0 <= j < out.len() implies p(out@[j]) by {
                if j >= a {
                }
            }
        }
        lemma_trim_by_range(out@, p, a as int, b as int);
    }
    if a == b {
        None
    } else {
        Some(copy_range(out.as_slice(), a, b))
    }
}

/// One message in the prompt: `**Role (time) [id:…]:**` and the trimmed
/// text on the next line; time and id only when available.
pub open spec fn message_block(m: OmPendingMessage) -> Seq<char> {
    let ts = match m.created_at_rfc3339 {
        Some(t) => if is_rfc3339(t@) {
            " ("@ + observer_timestamp_text(t@) + ")"@
        } else {
            Seq::empty()
        },
        None => Seq::empty(),
    };
    let id = match prompt_message_id(m.id@) {
        Some(i) => " [id:"@ + i + "]"@,
        None => Seq::empty(),
    };
    "**"@ + role_label(m.role@) + ts + id + ":**\n"@ + trim(m.text@)
}

/// The message blocks separated by horizontal rules.
pub open spec fn formatted_messages(ms: Seq<OmPendingMessage>) -> Seq<char> {
    join(ms.map_values(|m: OmPendingMessage| message_block(m)), "\n\n---\n\n"@)
}

fn message_block_exec(m: &OmPendingMessage) -> (r: Vec<char>)
    ensures
        r@ == message_block(*m),
{
    let mut out = str_to_chars("**");
    let role = normalize_role(m.role.as_str());
    extend(&mut out, role.as_slice());
    match &m.created_at_rfc3339 {
        Some(t) => match format_observer_timestamp(t.as_str()) {
            Some(text) => {
                extend_str(&mut out, " (");
                extend_str(&mut out, text.as_str());
                extend_str(&mut out, ")");
            },
            None => {},
        },
        None => {},
    }
    match normalize_message_id_for_prompt(m.id.as_str()) {
        Some(id) => {
            extend_str(&mut out, " [id:");
            extend(&mut out, id.as_slice());
            extend_str(&mut out, "]");
        },
        None => {},
    }
    extend_str(&mut out, ":**\n");
    let tc = string_chars(&m.text);
    let text = trim_exec(tc.as_slice());
    extend(&mut out, text.as_slice());
    out
}

pub fn format_observer_messages_for_prompt(messages: &[OmPendingMessage]) -> (r: String)
    ensures
        r@ == formatted_messages(messages@),
{
    let ghost bs = messages@.map_values(|m: OmPendingMessage| message_block(m));
    let mut blocks: Vec<Vec<char>> = Vec::new();
    let mut i: usize = 0;
    while i < messages.len()
        invariant
            i <= messages.len(),
            bs == messages@.map_values(|m: OmPendingMessage| message_block(m)),
            views(blocks@) == bs.take(i as int),
        decreases messages.len() - i,
    {
        let ghost before = views(blocks@);
        let b = message_block_exec(&messages[i]);
        blocks.push(b);
        proof {
            assert(views(blocks@) =~= before.push(bs[i as int]));
            assert(bs.take(i + 1) =~= bs.take(i as int).push(bs[i as int]));
        }
        i += 1;
    }
    assert(bs.take(messages.len() as int) =~= bs);
    let sep = str_to_chars("\n\n---\n\n");
    let joined = join_exec(&blocks, sep.as_slice());
    assert(blocks@.map_values(|p: Vec<char>| p@) =~= views(blocks@));
    chars_to_string(joined.as_slice())
}

/// The block of one thread: its history escaped inside a `<thread>` tag
/// carrying the escaped id; none when the id or the history is blank.
pub open spec fn thread_block(t: OmObserverThreadMessages) -> Option<Seq<char>> {
    let id = trim(t.thread_id@);
    let history = trim(t.message_history@);
    if id.len() == 0 || history.len() == 0 {
        None
    } else {
        Some("<thread id=\""@ + escape(id, true) + "\">\n"@ + escape(history, false) + "\n</thread>"@)
    }
}

pub open spec fn thread_blocks(ts: Seq<OmObserverThreadMessages>) -> Seq<Seq<char>>
    decreases ts.len(),
{
    if ts.len() == 0 {
        Seq::empty()
    } else {
        let prev = thread_blocks(ts.drop_last());
        match thread_block(ts.last()) {
            Some(b) => prev.push(b),
            None => prev,
        }
    }
}

/// The thread blocks separated by blank lines.
pub open spec fn formatted_threads(ts: Seq<OmObserverThreadMessages>) -> Seq<char> {
    join(thread_blocks(ts), "\n\n"@)
}

pub fn format_multi_thread_observer_messages_for_prompt(threads: &[OmObserverThreadMessages]) -> (r: String)
    ensures
        r@ == formatted_threads(threads@),
{
    let mut blocks: Vec<Vec<char>> = Vec::new();
    let mut i: usize = 0;
    while i < threads.len()
        invariant
            i <= threads.len(),
            views(blocks@) == thread_blocks(threads@.take(i as int)),
        decreases threads.len() - i,
    {
        proof {
            assert(threads@.take(i + 1).drop_last() =~= threads@.take(i as int));
            assert(threads@.take(i + 1).last() == threads@[i as int]);
        }
        let ghost before = views(blocks@);
        let idc = string_chars(&threads[i].thread_id);
        let id = trim_exec(idc.as_slice());
        let hc = string_chars(&threads[i].message_history);
        let history = trim_exec(hc.as_slice());
        if id.len() > 0 && history.len() > 0 {
            let mut b = str_to_chars("<thread id=\"");
            escape_into(&mut b, id.as_slice(), true);
            extend_str(&mut b, "\">\n");
            escape_into(&mut b, history.as_slice(), false);
            extend_str(&mut b, "\n</thread>");
            blocks.push(b);
            assert(views(blocks@) =~= before.push(thread_block(threads@[i as int])->0));
        }
        i += 1;
    }
    assert(threads@.take(threads.len() as int) =~= threads@);
    let sep = str_to_chars("\n\n");
    let joined = join_exec(&blocks, sep.as_slice());
    assert(blocks@.map_values(|p: Vec<char>| p@) =~= views(blocks@));
    chars_to_string(joined.as_slice())
}


proof fn lemma_prompt_id_scan_chars(s: Seq<char>)
    ensures
        forall|i: int| 0 <= i < prompt_id_scan(s).0.len() ==> prompt_id_char(#[trigger] prompt_id_scan(s).0[i]),
    decreases s.len(),
{
    if s.len() > 0 {
        lemma_prompt_id_scan_chars(s.drop_last());
        let (out, last) = prompt_id_scan(s.drop_last());
        let r = prompt_id_scan(s).0;
        assert forall|i: int| 0 <= i < r.len() implies prompt_id_char(#[trigger] r[i]) by {
            if i < out.len() {
                assert(prompt_id_char(out[i]));
                assert(r[i] == out[i]);
            } else {
                assert(r[i] == s.last() || r[i] == '_');
            }
        }
    }
}

proof fn lemma_trim_start_by_keeps(s: Seq<char>, p: spec_fn(char) -> bool, q: spec_fn(char) -> bool)
    requires
        forall|i: int| 0 <= i < s.len() ==> q(#[trigger] s[i]),
    ensures
        forall|i: int| 0 <= i < trim_start_by(s, p).len() ==> q(#[trigger] trim_start_by(s, p)[i]),
        trim_start_by(s, p).len() > 0 ==> !p(trim_start_by(s, p)[0]),
    decreases s.len(),
{
    if s.len() > 0 && p(s[0]) {
        assert forall|i: int| 0 <= i < s.drop_first().len() implies q(#[trigger] s.drop_first()[i]) by {
            assert(s.drop_first()[i] == s[i + 1]);
        }
        lemma_trim_start_by_keeps(s.drop_first(), p, q);
    }
}

proof fn lemma_trim_end_by_keeps(s: Seq<char>, p: spec_fn(char) -> bool, q: spec_fn(char) -> bool)
    requires
        forall|i: int| 0 <= i < s.len() ==> q(#[trigger] s[i]),
        s.len() > 0 ==> !p(s[0]),
    ensures
        forall|i: int| 0 <= i < trim_end_by(s, p).len() ==> q(#[trigger] trim_end_by(s, p)[i]),
        trim_end_by(s, p).len() > 0 ==> !p(trim_end_by(s, p)[0]) && !p(trim_end_by(s, p).last()),
    decreases s.len(),
{
    if s.len() > 0 && p(s.last()) {
        let u = s.drop_last();
        assert forall|i: int| 0 <= i < u.len() implies q(#[trigger] u[i]) by {
            assert(u[i] == s[i]);
        }
        if u.len() > 0 {
            assert(u[0] == s[0]);
        }
        lemma_trim_end_by_keeps(u, p, q);
    }
}

/// An id shown in a prompt is never empty, holds only ASCII letters,
/// digits and `- _ . /`, and neither starts nor ends with `_`.
pub proof fn law_prompt_message_id_is_safe(raw: Seq<char>)
    ensures
        prompt_message_id(raw) matches Some(n) ==> {
            &&& n.len() > 0
            &&& forall|i: int| 0 <= i < n.len() ==> prompt_id_char(#[trigger] n[i])
            &&& n[0] != '_'
            &&& n.last() != '_'
        },
{
    let scanned = prompt_id_scan(trim(raw)).0;
    let p = |c: char| is_underscore(c);
    let q = |c: char| prompt_id_char(c);
    lemma_prompt_id_scan_chars(trim(raw));
    assert forall|i: int| 0 <= i < scanned.len() implies q(#[trigger] scanned[i]) by {
        assert(prompt_id_char(scanned[i]));
    }
    lemma_trim_start_by_keeps(scanned, p, q);
    let t = trim_start_by(scanned, p);
    lemma_trim_end_by_keeps(t, p, q);
    let n = trim_end_by(t, p);
    assert(trim_by(scanned, p) == n);
    if n.len() > 0 {
        assert forall|i: int| 0 <= i < n.len() implies prompt_id_char(#[trigger] n[i]) by {
            assert(q(n[i]));
        }
    }
}

} // verus!
