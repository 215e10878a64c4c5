//! Structured parsing of observer and reflector output.

pub mod tokens;
pub mod sections;
pub mod thread;

use vstd::prelude::*;
use crate::parse::sections::{SecState, extract_tag_content_from_tokens, join_section_ranges, joined_sections, last_tag_content, nonblank_contents, range_content, range_content_exec, section_ranges, section_ranges_for_tag};
use crate::parse::thread::{ThreadSection, extract_thread_blocks, extract_thread_blocks_with_tokens, parse_thread_observer_section, thread_blocks, thread_section};
use crate::parse::tokens::{TagKind, TagSectionRange, TagToken, Tok, parse_tag_tokens, tokens, toks};
use crate::text::{ascii_digit, chars_to_string, extend, is_ascii_digit, join, join_exec, lines, lines_exec, occurs_at_exec, starts_with, str_to_chars, string_chars, trim, trim_exec, trim_start, trim_start_index, views, chars_eq, is_blank};
use crate::xml::{escape, escape_into};

verus! {

/// How malformed, overlapping tags are treated.
#[derive(Debug, Clone, Copy, PartialEq, Eq, Structural)]
pub enum OmParseMode {
    /// Reject recovery heuristics where possible.
    Strict,
    /// Recover from common malformed overlaps produced by model output.
    Lenient,
}

/// Observations and continuation metadata read from observer output.
#[derive(Debug, Clone, PartialEq, Eq, Default)]
pub struct OmMemorySection {
    pub observations: String,
    pub current_task: Option<String>,
    pub suggested_response: Option<String>,
}

/// A memory section with its texts as character sequences.
pub struct MemorySection {
    pub observations: Seq<char>,
    pub current_task: Option<Seq<char>>,
    pub suggested_response: Option<Seq<char>>,
}

/// View of an optional string.
pub open spec fn opt_view(o: Option<String>) -> Option<Seq<char>> {
    match o {
        Some(s) => Some(s@),
        None => None,
    }
}

/// View of an optional character vector.
pub open spec fn opt_chars(o: Option<Vec<char>>) -> Option<Seq<char>> {
    match o {
        Some(s) => Some(s@),
        None => None,
    }
}

impl View for OmMemorySection {
    type V = MemorySection;

    open spec fn view(&self) -> MemorySection {
        MemorySection {
            observations: self.observations@,
            current_task: opt_view(self.current_task),
            suggested_response: opt_view(self.suggested_response),
        }
    }
}

#[derive(Debug, Clone, PartialEq, Eq)]
pub struct OmMultiThreadObserverSection {
    pub thread_id: String,
    pub observations: String,
    pub current_task: Option<String>,
    pub suggested_response: Option<String>,
}

impl View for OmMultiThreadObserverSection {
    type V = ThreadSection;

    open spec fn view(&self) -> ThreadSection {
        ThreadSection {
            thread_id: self.thread_id@,
            observations: self.observations@,
            current_task: opt_view(self.current_task),
            suggested_response: opt_view(self.suggested_response),
        }
    }
}

/// Views of a list of thread sections.
pub open spec fn section_views(s: Seq<OmMultiThreadObserverSection>) -> Seq<ThreadSection> {
    s.map_values(|x: OmMultiThreadObserverSection| x@)
}

#[derive(Debug, Clone, PartialEq, Eq, Default)]
pub struct OmMultiThreadObserverAggregate {
    pub observations: String,
    pub current_task: Option<String>,
    pub suggested_response: Option<String>,
}

// ---------------------------------------------------------------------------
// List items
// ---------------------------------------------------------------------------

/// Number of leading ASCII digits.
pub open spec fn digit_run(s: Seq<char>) -> int
    decreases s.len(),
{
    if s.len() > 0 && is_ascii_digit(s[0]) {
        1 + digit_run(s.drop_first())
    } else {
        0
    }
}

/// `12. text`: digits, then a dot and a space.
pub open spec fn is_numbered_list_item(trimmed: Seq<char>) -> bool {
    let d = digit_run(trimmed);
    d > 0 && starts_with(trimmed.skip(d), seq!['.', ' '])
}

/// A bullet (`- `, `* `) or numbered list line, indentation allowed.
pub open spec fn is_list_line(line: Seq<char>) -> bool {
    let t = trim_start(line);
    starts_with(t, seq!['-', ' ']) || starts_with(t, seq!['*', ' ']) || is_numbered_list_item(t)
}

/// The list lines among `ls`.
pub open spec fn list_lines(ls: Seq<Seq<char>>) -> Seq<Seq<char>>
    decreases ls.len(),
{
    if ls.len() == 0 {
        Seq::empty()
    } else {
        list_lines(ls.drop_last()) + if is_list_line(ls.last()) {
            seq![ls.last()]
        } else {
            Seq::empty()
        }
    }
}

/// The list lines of a text, joined by line breaks and trimmed.
pub open spec fn list_items_only(text: Seq<char>) -> Seq<char> {
    trim(join(list_lines(lines(text)), seq!['\n']))
}

proof fn lemma_digit_run_bounds(s: Seq<char>)
    ensures
        0 <= digit_run(s) <= s.len(),
        forall|j: int| 0 <= j < digit_run(s) ==> is_ascii_digit(s[j]),
        digit_run(s) < s.len() ==> !is_ascii_digit(s[digit_run(s)]),
    decreases s.len(),
{
    if s.len() > 0 && is_ascii_digit(s[0]) {
        lemma_digit_run_bounds(s.drop_first());
        assert forall|j: int| 0 <= j < digit_run(s) implies is_ascii_digit(s[j]) by {
            if j > 0 {
                assert(s[j] == s.drop_first()[j - 1]);
            }
        }
        if digit_run(s) < s.len() {
            assert(s[digit_run(s)] == s.drop_first()[digit_run(s) - 1]);
        }
    }
}

proof fn lemma_digit_run_at(s: Seq<char>, k: int)
    requires
        0 <= k <= s.len(),
        forall|j: int| 0 <= j < k ==> is_ascii_digit(s[j]),
        k < s.len() ==> !is_ascii_digit(s[k]),
    ensures
        digit_run(s) == k,
    decreases s.len(),
{
    if k > 0 {
        assert forall|j: int| 0 <= j < k - 1 implies is_ascii_digit(s.drop_first()[j]) by {
            assert(s.drop_first()[j] == s[j + 1]);
        }
        if k - 1 < s.drop_first().len() {
            assert(s.drop_first()[k - 1] == s[k]);
        }
        lemma_digit_run_at(s.drop_first(), k - 1);
    }
}

fn is_numbered_list_item_exec(t: &[char]) -> (r: bool)
    ensures
        r == is_numbered_list_item(t@),
{
    let mut d: usize = 0;
    while d < t.len() && ascii_digit(t[d])
        invariant
            d <= t@.len(),
            forall|j: int| 0 <= j < d ==> is_ascii_digit(t@[j]),
        decreases t.len() - d,
    {
        d += 1;
    }
    proof {
        lemma_digit_run_at(t@, d as int);
    }
    if d == 0 {
        return false;
    }
    let rest = crate::text::copy_range(t, d, t.len());
    assert(rest@ =~= t@.skip(d as int));
    let dot: Vec<char> = vec!['.', ' '];
    assert(dot@ =~= seq!['.', ' ']);
    occurs_at_exec(rest.as_slice(), dot.as_slice(), 0)
}

fn is_list_line_exec(line: &[char]) -> (r: bool)
    ensures
        r == is_list_line(line@),
{
    let a = trim_start_index(line);
    let t = crate::text::copy_range(line, a, line.len());
    assert(t@ =~= line@.skip(a as int));
    let dash: Vec<char> = vec!['-', ' '];
    let star: Vec<char> = vec!['*', ' '];
    assert(dash@ =~= seq!['-', ' ']);
    assert(star@ =~= seq!['*', ' ']);
    occurs_at_exec(t.as_slice(), dash.as_slice(), 0) || occurs_at_exec(t.as_slice(), star.as_slice(), 0)
        || is_numbered_list_item_exec(t.as_slice())
}

fn list_items_chars(text: &[char]) -> (r: Vec<char>)
    ensures
        r@ == list_items_only(text@),
{
    let ls = lines_exec(text);
    let ghost lv = views(ls@);
    let mut kept: Vec<Vec<char>> = Vec::new();
    let mut i: usize = 0;
    while i < ls.len()
        invariant
            i <= ls.len(),
            lv == views(ls@),
            views(kept@) == list_lines(lv.take(i as int)),
        decreases ls.len() - i,
    {
        proof {
            assert(lv.take(i + 1).drop_last() =~= lv.take(i as int));
            assert(lv.take(i + 1).last() == ls@[i as int]@);
        }
        if is_list_line_exec(ls[i].as_slice()) {
            kept.push(ls[i].clone());
        }
        assert(views(kept@) =~= list_lines(lv.take(i + 1)));
        i += 1;
    }
    assert(lv.take(ls.len() as int) =~= lv);
    let sep: Vec<char> = vec!['\n'];
    assert(sep@ =~= seq!['\n']);
    let joined = join_exec(&kept, sep.as_slice());
    trim_exec(joined.as_slice())
}

/// The bullet and numbered list lines of a text, joined by line breaks and
/// trimmed.
pub fn extract_list_items_only(text: &str) -> (r: String)
    ensures
        r@ == list_items_only(text@),
{
    let t = str_to_chars(text);
    let v = list_items_chars(t.as_slice());
    chars_to_string(v.as_slice())
}

// ---------------------------------------------------------------------------
// Memory section
// ---------------------------------------------------------------------------

/// Trimmed value, absent when blank.
pub open spec fn trimmed_non_blank(o: Option<Seq<char>>) -> Option<Seq<char>> {
    match o {
        Some(v) => if trim(v).len() > 0 {
            Some(trim(v))
        } else {
            None
        },
        None => None,
    }
}

/// The memory section read with the given tokens: the `observations`
/// sections joined (or, without any, the list lines of the text), and the
/// last non-blank `current-task` and `suggested-response`.
pub open spec fn memory_section(content: Seq<char>, ts: Seq<Tok>, mode: OmParseMode) -> MemorySection {
    let ranges = section_ranges(content, ts, "observations"@, mode);
    MemorySection {
        observations: trim(
            if ranges.len() == 0 {
                list_items_only(content)
            } else {
                joined_sections(content, ranges)
            },
        ),
        current_task: trimmed_non_blank(last_tag_content(content, ts, "current-task"@, mode)),
        suggested_response: trimmed_non_blank(last_tag_content(content, ts, "suggested-response"@, mode)),
    }
}

fn trimmed_non_blank_exec(o: Option<Vec<char>>) -> (r: Option<String>)
    ensures
        opt_view(r) == trimmed_non_blank(opt_chars(o)),
{
    match o {
        Some(v) => {
            let t = trim_exec(v.as_slice());
            if t.len() > 0 {
                Some(chars_to_string(t.as_slice()))
            } else {
                None
            }
        },
        None => None,
    }
}

fn parse_memory_section_with_tokens(content: &[char], ts: &Vec<TagToken>, mode: OmParseMode) -> (r: OmMemorySection)
    ensures
        r@ == memory_section(content@, toks(ts@), mode),
{
    let ranges = section_ranges_for_tag(content, ts, "observations", mode);
    let obs_raw = if ranges.len() == 0 {
        list_items_chars(content)
    } else {
        join_section_ranges(content, &ranges)
    };
    let obs = trim_exec(obs_raw.as_slice());
    let task = extract_tag_content_from_tokens(content, ts, "current-task", mode);
    let reply = extract_tag_content_from_tokens(content, ts, "suggested-response", mode);
    OmMemorySection {
        observations: chars_to_string(obs.as_slice()),
        current_task: trimmed_non_blank_exec(task),
        suggested_response: trimmed_non_blank_exec(reply),
    }
}

/// Reads observations and continuation metadata from observer output.
pub fn parse_memory_section_xml(content: &str, mode: OmParseMode) -> (r: OmMemorySection)
    ensures
        r@ == memory_section(content@, tokens(content@), mode),
{
    let c = str_to_chars(content);
    let ts = parse_tag_tokens(c.as_slice());
    parse_memory_section_with_tokens(c.as_slice(), &ts, mode)
}

/// Joined `observations` sections of a text, absent when there are none or
/// all are blank.
pub open spec fn observations_sections(text: Seq<char>, mode: OmParseMode) -> Option<Seq<char>> {
    let ranges = section_ranges(text, tokens(text), "observations"@, mode);
    let joined = joined_sections(text, ranges);
    if ranges.len() == 0 || joined.len() == 0 {
        None
    } else {
        Some(joined)
    }
}

/// The `observations` sections of a text, joined by line breaks.
pub fn extract_observations_sections(text: &str, mode: OmParseMode) -> (r: Option<String>)
    ensures
        opt_view(r) == observations_sections(text@, mode),
{
    let t = str_to_chars(text);
    let ts = parse_tag_tokens(t.as_slice());
    let ranges = section_ranges_for_tag(t.as_slice(), &ts, "observations", mode);
    if ranges.len() == 0 {
        return None;
    }
    let joined = join_section_ranges(t.as_slice(), &ranges);
    if joined.len() == 0 {
        None
    } else {
        Some(chars_to_string(joined.as_slice()))
    }
}

/// Trimmed content of the last non-blank section of `tag` in a text.
pub fn extract_tag_content(text: &str, tag: &str, mode: OmParseMode) -> (r: Option<String>)
    ensures
        opt_view(r) == last_tag_content(text@, tokens(text@), tag@, mode),
{
    let t = str_to_chars(text);
    let ts = parse_tag_tokens(t.as_slice());
    match extract_tag_content_from_tokens(t.as_slice(), &ts, tag, mode) {
        Some(v) => Some(chars_to_string(v.as_slice())),
        None => None,
    }
}

// ---------------------------------------------------------------------------
// Accuracy-first memory parsing
// ---------------------------------------------------------------------------

/// Whether an optional text is present and not blank.
pub open spec fn has_text(o: Option<Seq<char>>) -> bool {
    o matches Some(v) && trim(v).len() > 0
}

/// Number of continuation fields (task, reply) that hold text.
pub open spec fn metadata_fields(m: MemorySection) -> nat {
    (if has_text(m.current_task) { 1nat } else { 0nat }) + (if has_text(m.suggested_response) { 1nat } else { 0nat })
}

/// Whether the section has non-blank observations.
pub open spec fn has_observations(m: MemorySection) -> bool {
    trim(m.observations).len() > 0
}

/// Choice between a strict and a lenient memory parse: observations first,
/// then continuation fields, ties to strict.
pub open spec fn prefer_strict_memory(strict: MemorySection, lenient: MemorySection) -> bool {
    if has_observations(strict) {
        true
    } else if has_observations(lenient) {
        false
    } else {
        metadata_fields(strict) >= metadata_fields(lenient)
    }
}

/// A line-anchored open tag `tag` arrives while another is still open.
pub open spec fn overlap_candidate_from(ts: Seq<Tok>, tag: Seq<char>, open_seen: bool) -> bool
    decreases ts.len(),
{
    if ts.len() == 0 {
        false
    } else {
        let t = ts[0];
        if t.name != tag {
            overlap_candidate_from(ts.drop_first(), tag, open_seen)
        } else {
            match t.kind {
                TagKind::Open => if t.line_anchored {
                    if open_seen {
                        true
                    } else {
                        overlap_candidate_from(ts.drop_first(), tag, true)
                    }
                } else {
                    overlap_candidate_from(ts.drop_first(), tag, open_seen)
                },
                TagKind::Close => overlap_candidate_from(ts.drop_first(), tag, false),
            }
        }
    }
}

pub open spec fn has_overlap_candidate(ts: Seq<Tok>, tag: Seq<char>) -> bool {
    overlap_candidate_from(ts, tag, false)
}

/// Whether a lenient parse can add anything to a strict one: the strict
/// parse lacks observations and one of the fields, and some tag overlaps.
pub open spec fn lenient_memory_worthwhile(ts: Seq<Tok>, strict: MemorySection) -> bool {
    if has_observations(strict) || metadata_fields(strict) == 2 {
        false
    } else {
        has_overlap_candidate(ts, "observations"@) || has_overlap_candidate(ts, "current-task"@)
            || has_overlap_candidate(ts, "suggested-response"@)
    }
}

/// The strict parse, or the lenient one when it recovers more.
pub open spec fn memory_section_accuracy_first(content: Seq<char>) -> MemorySection {
    let ts = tokens(content);
    let strict = memory_section(content, ts, OmParseMode::Strict);
    let lenient = memory_section(content, ts, OmParseMode::Lenient);
    if !lenient_memory_worthwhile(ts, strict) || prefer_strict_memory(strict, lenient) {
        strict
    } else {
        lenient
    }
}

fn has_overlap_recovery_candidate(ts: &Vec<TagToken>, tag: &str) -> (r: bool)
    ensures
        r == has_overlap_candidate(toks(ts@), tag@),
{
    let name = str_to_chars(tag);
    let ghost tv = toks(ts@);
    let mut open_seen = false;
    let mut i: usize = 0;
    assert(tv.skip(0) =~= tv);
    while i < ts.len()
        invariant
            i <= ts.len(),
            tv == toks(ts@),
            has_overlap_candidate(tv, tag@) == overlap_candidate_from(tv.skip(i as int), tag@, open_seen),
            name@ == tag@,
        decreases ts.len() - i,
    {
        let t = &ts[i];
        proof {
            assert(tv.skip(i as int)[0] == t@);
            assert(tv.skip(i as int).drop_first() =~= tv.skip(i + 1));
        }
        if chars_eq(t.name.as_slice(), name.as_slice()) {
            match t.kind {
                TagKind::Open => {
                    if t.line_anchored {
                        if open_seen {
                            return true;
                        }
                        open_seen = true;
                    }
                },
                TagKind::Close => {
                    open_seen = false;
                },
            }
        }
        i += 1;
    }
    assert(tv.skip(i as int) =~= Seq::<Tok>::empty());
    false
}

fn opt_has_text(o: &Option<String>) -> (r: bool)
    ensures
        r == has_text(opt_view(*o)),
{
    match o {
        Some(v) => {
            let c = string_chars(v);
            !is_blank(c.as_slice())
        },
        None => false,
    }
}

fn metadata_fields_exec(m: &OmMemorySection) -> (r: u8)
    ensures
        r as nat == metadata_fields(m@),
{
    let a: u8 = if opt_has_text(&m.current_task) { 1 } else { 0 };
    let b: u8 = if opt_has_text(&m.suggested_response) { 1 } else { 0 };
    a + b
}

fn has_observations_exec(m: &OmMemorySection) -> (r: bool)
    ensures
        r == has_observations(m@),
{
    let c = string_chars(&m.observations);
    !is_blank(c.as_slice())
}

/// Strict parse first; the lenient parse is used only when the strict one
/// lacks observations and fields, tags overlap, and the lenient one recovers
/// observations or more fields.
pub fn parse_memory_section_xml_accuracy_first(content: &str) -> (r: OmMemorySection)
    ensures
        r@ == memory_section_accuracy_first(content@),
{
    let c = str_to_chars(content);
    let ts = parse_tag_tokens(c.as_slice());
    let strict = parse_memory_section_with_tokens(c.as_slice(), &ts, OmParseMode::Strict);
    let strict_obs = has_observations_exec(&strict);
    let strict_meta = metadata_fields_exec(&strict);
    let worthwhile = if strict_obs || strict_meta == 2 {
        false
    } else {
        has_overlap_recovery_candidate(&ts, "observations") || has_overlap_recovery_candidate(&ts, "current-task")
            || has_overlap_recovery_candidate(&ts, "suggested-response")
    };
    if !worthwhile {
        return strict;
    }
    let lenient = parse_memory_section_with_tokens(c.as_slice(), &ts, OmParseMode::Lenient);
    let prefer_strict = if strict_obs {
        true
    } else if has_observations_exec(&lenient) {
        false
    } else {
        strict_meta >= metadata_fields_exec(&lenient)
    };
    if prefer_strict {
        strict
    } else {
        lenient
    }
}

// ---------------------------------------------------------------------------
// Multi-thread observer output
// ---------------------------------------------------------------------------

/// Sections of the thread blocks, blocks with a blank id dropped.
pub open spec fn sections_from_blocks(blocks: Seq<(Seq<char>, Seq<char>)>, mode: OmParseMode) -> Seq<ThreadSection>
    decreases blocks.len(),
{
    if blocks.len() == 0 {
        Seq::empty()
    } else {
        sections_from_blocks(blocks.drop_last(), mode) + match thread_section(blocks.last().0, blocks.last().1, mode) {
            Some(sec) => if trim(sec.thread_id).len() > 0 {
                seq![sec]
            } else {
                Seq::empty()
            },
            None => Seq::empty(),
        }
    }
}

/// Thread sections of a text read with the given tokens.
pub open spec fn thread_sections(scope: Seq<char>, ts: Seq<Tok>, mode: OmParseMode) -> Seq<ThreadSection> {
    sections_from_blocks(thread_blocks(scope, ts, mode), mode)
}

/// Thread sections inside each non-blank `observations` section.
pub open spec fn sections_in_ranges(content: Seq<char>, rs: Seq<TagSectionRange>, mode: OmParseMode) -> Seq<ThreadSection>
    decreases rs.len(),
{
    if rs.len() == 0 {
        Seq::empty()
    } else {
        sections_in_ranges(content, rs.drop_last(), mode) + match range_content(content, rs.last()) {
            Some(c) => if trim(c).len() > 0 {
                thread_sections(trim(c), tokens(trim(c)), mode)
            } else {
                Seq::empty()
            },
            None => Seq::empty(),
        }
    }
}

/// Thread sections of multi-thread observer output: those inside the
/// `observations` sections, or, without any, those of the whole text.
pub open spec fn multi_thread_sections(content: Seq<char>, ts: Seq<Tok>, mode: OmParseMode) -> Seq<ThreadSection> {
    let rs = section_ranges(content, ts, "observations"@, mode);
    if rs.len() == 0 {
        thread_sections(content, ts, mode)
    } else {
        sections_in_ranges(content, rs, mode)
    }
}

fn to_section(t: (Vec<char>, Vec<char>, Option<Vec<char>>, Option<Vec<char>>)) -> (r: OmMultiThreadObserverSection)
    ensures
        r@ == (ThreadSection { thread_id: t.0@, observations: t.1@, current_task: opt_chars(t.2), suggested_response: opt_chars(t.3) }),
{
    let (id, obs, task, reply) = t;
    OmMultiThreadObserverSection {
        thread_id: chars_to_string(id.as_slice()),
        observations: chars_to_string(obs.as_slice()),
        current_task: match task {
            Some(v) => Some(chars_to_string(v.as_slice())),
            None => None,
        },
        suggested_response: match reply {
            Some(v) => Some(chars_to_string(v.as_slice())),
            None => None,
        },
    }
}

fn sections_from_blocks_exec(blocks: Vec<(Vec<char>, Vec<char>)>, mode: OmParseMode, out: &mut Vec<OmMultiThreadObserverSection>)
    ensures
        section_views(final(out)@) == section_views(old(out)@) + sections_from_blocks(
            blocks@.map_values(|b: (Vec<char>, Vec<char>)| (b.0@, b.1@)), mode),
{
    let ghost bv = blocks@.map_values(|b: (Vec<char>, Vec<char>)| (b.0@, b.1@));
    let ghost start = section_views(out@);
    let mut i: usize = 0;
    while i < blocks.len()
        invariant
            i <= blocks.len(),
            bv == blocks@.map_values(|b: (Vec<char>, Vec<char>)| (b.0@, b.1@)),
            section_views(out@) == start + sections_from_blocks(bv.take(i as int), mode),
        decreases blocks.len() - i,
    {
        let ghost before = section_views(out@);
        proof {
            assert(bv.take(i + 1).drop_last() =~= bv.take(i as int));
            assert(bv.take(i + 1).last() == bv[i as int]);
        }
        let (id, body) = (&blocks[i].0, &blocks[i].1);
        match parse_thread_observer_section(id.as_slice(), body.as_slice(), mode) {
            Some(t) => {
                let keep = !is_blank(t.0.as_slice());
                if keep {
                    let sec = to_section(t);
                    out.push(sec);
                    assert(section_views(out@) =~= before.push(sec@));
                }
            },
            None => {},
        }
        assert(section_views(out@) =~= start + sections_from_blocks(bv.take(i + 1), mode));
        i += 1;
    }
    assert(bv.take(blocks.len() as int) =~= bv);
}

fn multi_thread_with_tokens(content: &[char], ts: &Vec<TagToken>, mode: OmParseMode) -> (r: Vec<OmMultiThreadObserverSection>)
    ensures
        section_views(r@) == multi_thread_sections(content@, toks(ts@), mode),
{
    let rs = section_ranges_for_tag(content, ts, "observations", mode);
    let mut out: Vec<OmMultiThreadObserverSection> = Vec::new();
    assert(section_views(out@) =~= Seq::<ThreadSection>::empty());
    if rs.len() == 0 {
        let blocks = extract_thread_blocks_with_tokens(content, ts, mode);
        sections_from_blocks_exec(blocks, mode, &mut out);
        assert(section_views(out@) =~= thread_sections(content@, toks(ts@), mode));
        return out;
    }
    let mut i: usize = 0;
    while i < rs.len()
        invariant
            i <= rs.len(),
            section_views(out@) == sections_in_ranges(content@, rs@.take(i as int), mode),
        decreases rs.len() - i,
    {
        let ghost before = section_views(out@);
        proof {
            assert(rs@.take(i + 1).drop_last() =~= rs@.take(i as int));
            assert(rs@.take(i + 1).last() == rs@[i as int]);
        }
        match range_content_exec(content, rs[i]) {
            Some(c) => {
                let t = trim_exec(c.as_slice());
                if t.len() > 0 {
                    let blocks = extract_thread_blocks(t.as_slice(), mode);
                    sections_from_blocks_exec(blocks, mode, &mut out);
                } else {
                    assert(before + Seq::<ThreadSection>::empty() =~= before);
                }
            },
            None => {
                assert(before + Seq::<ThreadSection>::empty() =~= before);
            },
        }
        i += 1;
    }
    assert(rs@.take(rs.len() as int) =~= rs@);
    out
}

/// Reads the thread sections of multi-thread observer output.
pub fn parse_multi_thread_observer_output(content: &str, mode: OmParseMode) -> (r: Vec<OmMultiThreadObserverSection>)
    ensures
        section_views(r@) == multi_thread_sections(content@, tokens(content@), mode),
{
    let c = str_to_chars(content);
    let ts = parse_tag_tokens(c.as_slice());
    multi_thread_with_tokens(c.as_slice(), &ts, mode)
}

/// Counts used to compare a strict and a lenient multi-thread parse:
/// sections, sections with observations, sections with a continuation field.
pub open spec fn multi_counts(secs: Seq<ThreadSection>) -> (nat, nat, nat)
    decreases secs.len(),
{
    if secs.len() == 0 {
        (0, 0, 0)
    } else {
        let (a, b, c) = multi_counts(secs.drop_last());
        let s = secs.last();
        (
            a + 1,
            b + if trim(s.observations).len() > 0 { 1nat } else { 0nat },
            c + if has_text(s.current_task) || has_text(s.suggested_response) { 1nat } else { 0nat },
        )
    }
}

/// Choice between strict and lenient multi-thread parses.
pub open spec fn prefer_strict_multi(strict: (nat, nat, nat), lenient: (nat, nat, nat)) -> bool {
    if strict.1 > 0 {
        true
    } else if lenient.1 > 0 {
        false
    } else if strict.2 > lenient.2 {
        true
    } else if lenient.2 > strict.2 {
        false
    } else {
        strict.0 >= lenient.0
    }
}

/// Strict parse, or the lenient one when the strict one kept no
/// observations, tags overlap, and the lenient one recovers more.
pub open spec fn multi_thread_accuracy_first(content: Seq<char>) -> Seq<ThreadSection> {
    let ts = tokens(content);
    let strict = multi_thread_sections(content, ts, OmParseMode::Strict);
    let lenient = multi_thread_sections(content, ts, OmParseMode::Lenient);
    let worthwhile = multi_counts(strict).1 == 0 && (has_overlap_candidate(ts, "observations"@)
        || has_overlap_candidate(ts, "thread"@));
    if !worthwhile || prefer_strict_multi(multi_counts(strict), multi_counts(lenient)) {
        strict
    } else {
        lenient
    }
}

fn multi_counts_exec(secs: &Vec<OmMultiThreadObserverSection>) -> (r: (usize, usize, usize))
    ensures
        (r.0 as nat, r.1 as nat, r.2 as nat) == multi_counts(section_views(secs@)),
{
    let ghost sv = section_views(secs@);
    let mut a: usize = 0;
    let mut b: usize = 0;
    let mut c: usize = 0;
    let mut i: usize = 0;
    while i < secs.len()
        invariant
            i <= secs.len(),
            sv == section_views(secs@),
            a <= i && b <= i && c <= i,
            (a as nat, b as nat, c as nat) == multi_counts(sv.take(i as int)),
        decreases secs.len() - i,
    {
        proof {
            assert(sv.take(i + 1).drop_last() =~= sv.take(i as int));
            assert(sv.take(i + 1).last() == secs@[i as int]@);
        }
        let s = &secs[i];
        a += 1;
        let obs = string_chars(&s.observations);
        if !is_blank(obs.as_slice()) {
            b += 1;
        }
        if opt_has_text(&s.current_task) || opt_has_text(&s.suggested_response) {
            c += 1;
        }
        i += 1;
    }
    assert(sv.take(secs.len() as int) =~= sv);
    (a, b, c)
}

/// Strict parse first; the lenient parse is used only when the strict one
/// kept no thread observations, tags overlap, and the lenient one recovers
/// more.
pub fn parse_multi_thread_observer_output_accuracy_first(content: &str) -> (r: Vec<OmMultiThreadObserverSection>)
    ensures
        section_views(r@) == multi_thread_accuracy_first(content@),
{
    let c = str_to_chars(content);
    let ts = parse_tag_tokens(c.as_slice());
    let strict = multi_thread_with_tokens(c.as_slice(), &ts, OmParseMode::Strict);
    let sq = multi_counts_exec(&strict);
    let worthwhile = sq.1 == 0 && (has_overlap_recovery_candidate(&ts, "observations")
        || has_overlap_recovery_candidate(&ts, "thread"));
    if !worthwhile {
        return strict;
    }
    let lenient = multi_thread_with_tokens(c.as_slice(), &ts, OmParseMode::Lenient);
    let lq = multi_counts_exec(&lenient);
    let prefer_strict = if sq.1 > 0 {
        true
    } else if lq.1 > 0 {
        false
    } else if sq.2 > lq.2 {
        true
    } else if lq.2 > sq.2 {
        false
    } else {
        sq.0 >= lq.0
    };
    if prefer_strict {
        strict
    } else {
        lenient
    }
}

// ---------------------------------------------------------------------------
// Aggregation
// ---------------------------------------------------------------------------

impl View for OmMultiThreadObserverAggregate {
    type V = MemorySection;

    open spec fn view(&self) -> MemorySection {
        MemorySection {
            observations: self.observations@,
            current_task: opt_view(self.current_task),
            suggested_response: opt_view(self.suggested_response),
        }
    }
}

/// `<thread id="ID">\nOBS\n</thread>` with the id escaped as an attribute
/// and the observations as text.
pub open spec fn thread_block(id: Seq<char>, obs: Seq<char>) -> Seq<char> {
    "<thread id=\""@ + escape(id, true) + "\">\n"@ + escape(obs, false) + "\n</thread>"@
}

/// Blocks of the sections whose id and observations are not blank.
pub open spec fn thread_blocks_of(secs: Seq<ThreadSection>) -> Seq<Seq<char>>
    decreases secs.len(),
{
    if secs.len() == 0 {
        Seq::empty()
    } else {
        let s = secs.last();
        thread_blocks_of(secs.drop_last()) + if trim(s.thread_id).len() > 0 && trim(s.observations).len() > 0 {
            seq![thread_block(trim(s.thread_id), trim(s.observations))]
        } else {
            Seq::empty()
        }
    }
}

/// The last section whose trimmed id is `id`.
pub open spec fn last_with_id(secs: Seq<ThreadSection>, id: Seq<char>) -> Option<ThreadSection>
    decreases secs.len(),
{
    if secs.len() == 0 {
        None
    } else if trim(secs.last().thread_id) == id {
        Some(secs.last())
    } else {
        last_with_id(secs.drop_last(), id)
    }
}

/// Trimmed value of a field when it holds text.
pub open spec fn field_text(o: Option<Seq<char>>) -> Option<Seq<char>> {
    if has_text(o) {
        Some(trim(o->0))
    } else {
        None
    }
}

/// The trimmed field (`true`: task, `false`: reply) of the last section
/// where it holds text.
pub open spec fn last_field(secs: Seq<ThreadSection>, task: bool) -> Option<Seq<char>>
    decreases secs.len(),
{
    if secs.len() == 0 {
        None
    } else {
        let f = if task { secs.last().current_task } else { secs.last().suggested_response };
        if has_text(f) {
            Some(trim(f->0))
        } else {
            last_field(secs.drop_last(), task)
        }
    }
}

/// A field of the primary thread's last section, else of the last section
/// holding one.
pub open spec fn aggregate_field(secs: Seq<ThreadSection>, primary: Option<Seq<char>>, task: bool) -> Option<Seq<char>> {
    let p = match primary {
        Some(id) => if trim(id).len() > 0 { last_with_id(secs, trim(id)) } else { None },
        None => None,
    };
    let from_primary = match p {
        Some(sec) => field_text(if task { sec.current_task } else { sec.suggested_response }),
        None => None,
    };
    match from_primary {
        Some(v) => Some(v),
        None => last_field(secs, task),
    }
}

/// Thread blocks joined by blank lines, with the continuation fields of the
/// primary thread preferred.
pub open spec fn aggregate(secs: Seq<ThreadSection>, primary: Option<Seq<char>>) -> MemorySection {
    MemorySection {
        observations: join(thread_blocks_of(secs), seq!['\n', '\n']),
        current_task: aggregate_field(secs, primary, true),
        suggested_response: aggregate_field(secs, primary, false),
    }
}

fn thread_block_exec(id: &[char], obs: &[char]) -> (r: Vec<char>)
    ensures
        r@ == thread_block(id@, obs@),
{
    let mut out = str_to_chars("<thread id=\"");
    escape_into(&mut out, id, true);
    let mid = str_to_chars("\">\n");
    extend(&mut out, mid.as_slice());
    escape_into(&mut out, obs, false);
    let tail = str_to_chars("\n</thread>");
    extend(&mut out, tail.as_slice());
    out
}

fn field_text_exec(o: &Option<String>) -> (r: Option<Vec<char>>)
    ensures
        opt_chars(r) == field_text(opt_view(*o)),
{
    match o {
        Some(v) => {
            let c = string_chars(v);
            let t = trim_exec(c.as_slice());
            if t.len() > 0 {
                Some(t)
            } else {
                None
            }
        },
        None => None,
    }
}

/// Index of the last section whose trimmed id is `pid`.
fn find_last_with_id(sections: &[OmMultiThreadObserverSection], pid: &[char]) -> (r: Option<usize>)
    ensures
        match r {
            Some(i) => i < sections@.len() && last_with_id(section_views(sections@), pid@) == Some(sections@[i as int]@),
            None => last_with_id(section_views(sections@), pid@) is None,
        },
{
    let ghost sv = section_views(sections@);
    let mut i = sections.len();
    assert(sv.take(i as int) =~= sv);
    while i > 0
        invariant
            i <= sections.len(),
            sv == section_views(sections@),
            last_with_id(sv, pid@) == last_with_id(sv.take(i as int), pid@),
        decreases i,
    {
        let s = &sections[i - 1];
        let idc = string_chars(&s.thread_id);
        let idt = trim_exec(idc.as_slice());
        proof {
            assert(sv.take(i as int).last() == s@);
            assert(sv.take(i as int).drop_last() =~= sv.take(i - 1));
        }
        if chars_eq(idt.as_slice(), pid) {
            return Some(i - 1);
        }
        i -= 1;
    }
    assert(sv.take(0) =~= Seq::<ThreadSection>::empty());
    None
}

fn aggregate_field_exec(sections: &[OmMultiThreadObserverSection], primary: &Option<Vec<char>>, task: bool) -> (r: Option<Vec<char>>)
    requires
        primary matches Some(p) ==> p@.len() > 0 && trim(p@) == p@,
    ensures
        ({
            let pid = match primary { Some(p) => Some(p@), None => None };
            opt_chars(r) == aggregate_field(section_views(sections@), pid, task)
        }),
{
    let ghost sv = section_views(sections@);
    let from_primary: Option<Vec<char>> = match primary {
        Some(pid) => match find_last_with_id(sections, pid.as_slice()) {
            Some(i) => field_text_exec(if task { &sections[i].current_task } else { &sections[i].suggested_response }),
            None => None,
        },
        None => None,
    };
    if from_primary.is_some() {
        return from_primary;
    }
    let mut j = sections.len();
    let ghost pidv = match primary { Some(p) => Some(p@), None => None };
    assert(sv.take(j as int) =~= sv);
    assert(aggregate_field(sv, pidv, task) == last_field(sv, task));
    while j > 0
        invariant
            j <= sections.len(),
            aggregate_field(sv, pidv, task) == last_field(sv, task),
            pidv == match primary { Some(p) => Some(p@), None => None },
            sv == section_views(sections@),
            last_field(sv, task) == last_field(sv.take(j as int), task),
        decreases j,
    {
        let s = &sections[j - 1];
        proof {
            assert(sv.take(j as int).last() == s@);
            assert(sv.take(j as int).drop_last() =~= sv.take(j - 1));
        }
        let f = field_text_exec(if task { &s.current_task } else { &s.suggested_response });
        if f.is_some() {
            return f;
        }
        j -= 1;
    }
    assert(sv.take(0) =~= Seq::<ThreadSection>::empty());
    None
}

/// View of an optional string slice.
pub open spec fn opt_str(o: Option<&str>) -> Option<Seq<char>> {
    match o {
        Some(s) => Some(s@),
        None => None,
    }
}

/// Combines per-thread sections: thread blocks (escaped) joined by blank
/// lines, and the task and reply of the primary thread when it has them,
/// else of the last thread that has them.
pub fn aggregate_multi_thread_observer_sections(
    sections: &[OmMultiThreadObserverSection],
    primary_thread_id: Option<&str>,
) -> (r: OmMultiThreadObserverAggregate)
    ensures
        r@ == aggregate(section_views(sections@), opt_str(primary_thread_id)),
{
    let ghost sv = section_views(sections@);
    let mut blocks: Vec<Vec<char>> = Vec::new();
    let mut i: usize = 0;
    while i < sections.len()
        invariant
            i <= sections.len(),
            sv == section_views(sections@),
            views(blocks@) == thread_blocks_of(sv.take(i as int)),
        decreases sections.len() - i,
    {
        let s = &sections[i];
        proof {
            assert(sv.take(i + 1).drop_last() =~= sv.take(i as int));
            assert(sv.take(i + 1).last() == s@);
        }
        let idc = string_chars(&s.thread_id);
        let id = trim_exec(idc.as_slice());
        let oc = string_chars(&s.observations);
        let obs = trim_exec(oc.as_slice());
        if id.len() > 0 && obs.len() > 0 {
            blocks.push(thread_block_exec(id.as_slice(), obs.as_slice()));
        }
        assert(views(blocks@) =~= thread_blocks_of(sv.take(i + 1)));
        i += 1;
    }
    assert(sv.take(sections.len() as int) =~= sv);
    let sep: Vec<char> = vec!['\n', '\n'];
    assert(sep@ =~= seq!['\n', '\n']);
    let observations = join_exec(&blocks, sep.as_slice());
    let primary: Option<Vec<char>> = match primary_thread_id {
        Some(p) => {
            let pc = str_to_chars(p);
            let pt = trim_exec(pc.as_slice());
            if pt.len() > 0 {
                proof {
                    crate::text::lemma_trim_idempotent(pc@);
                }
                Some(pt)
            } else {
                None
            }
        },
        None => None,
    };
    let ghost pview = opt_chars(primary);
    proof {
        assert(aggregate_field(sv, pview, true) == aggregate_field(sv, opt_str(primary_thread_id), true));
        assert(aggregate_field(sv, pview, false) == aggregate_field(sv, opt_str(primary_thread_id), false));
    }
    let task = aggregate_field_exec(sections, &primary, true);
    let reply = aggregate_field_exec(sections, &primary, false);
    OmMultiThreadObserverAggregate {
        observations: chars_to_string(observations.as_slice()),
        current_task: match task {
            Some(v) => Some(chars_to_string(v.as_slice())),
            None => None,
        },
        suggested_response: match reply {
            Some(v) => Some(chars_to_string(v.as_slice())),
            None => None,
        },
    }
}

/// Strict first: the accuracy-first memory parse is the strict parse when
/// that parse has observations or when no tag that it reads opens twice
/// without a close between; in every case it is the strict or the lenient
/// parse, and when it is the lenient one, that one has observations or more
/// filled fields than the strict one.
pub proof fn law_memory_accuracy_first_strict_first(content: Seq<char>)
    ensures
        ({
            let ts = tokens(content);
            let strict = memory_section(content, ts, OmParseMode::Strict);
            let lenient = memory_section(content, ts, OmParseMode::Lenient);
            let r = memory_section_accuracy_first(content);
            &&& has_observations(strict) ==> r == strict
            &&& (!has_overlap_candidate(ts, "observations"@) && !has_overlap_candidate(ts, "current-task"@)
                && !has_overlap_candidate(ts, "suggested-response"@)) ==> r == strict
            &&& r == strict || r == lenient
            &&& r != strict ==> (has_observations(lenient) || metadata_fields(lenient) > metadata_fields(strict))
        }),
{
}

/// Strict first: the accuracy-first multi-thread parse is the strict parse
/// when some strict section has observations or when neither `observations`
/// nor `thread` opens twice without a close between; in every case it is the
/// strict or the lenient parse.
pub proof fn law_multi_thread_accuracy_first_strict_first(content: Seq<char>)
    ensures
        ({
            let ts = tokens(content);
            let strict = multi_thread_sections(content, ts, OmParseMode::Strict);
            let lenient = multi_thread_sections(content, ts, OmParseMode::Lenient);
            let r = multi_thread_accuracy_first(content);
            &&& multi_counts(strict).1 > 0 ==> r == strict
            &&& (!has_overlap_candidate(ts, "observations"@) && !has_overlap_candidate(ts, "thread"@)) ==> r == strict
            &&& r == strict || r == lenient
            &&& r != strict ==> (multi_counts(lenient).1 > 0 || multi_counts(lenient).2 > multi_counts(strict).2
                || (multi_counts(lenient).2 == multi_counts(strict).2 && multi_counts(lenient).0 > multi_counts(strict).0))
        }),
{
}


/// The trimmed primary thread id, when it is not blank.
pub open spec fn primary_id(primary: Option<Seq<char>>) -> Option<Seq<char>> {
    match primary {
        Some(p) => if trim(p).len() > 0 { Some(trim(p)) } else { None },
        None => None,
    }
}

/// The continuation field of a section (`true`: task, `false`: reply).
pub open spec fn section_field(s: ThreadSection, task: bool) -> Option<Seq<char>> {
    if task { s.current_task } else { s.suggested_response }
}

proof fn lemma_last_with_id(secs: Seq<ThreadSection>, id: Seq<char>)
    ensures
        forall|j: int| 0 <= j < secs.len() && trim(#[trigger] secs[j].thread_id) == id
            && (forall|k: int| j < k < secs.len() ==> trim(#[trigger] secs[k].thread_id) != id)
            ==> last_with_id(secs, id) == Some(secs[j]),
        (forall|k: int| 0 <= k < secs.len() ==> trim(#[trigger] secs[k].thread_id) != id) ==> last_with_id(secs, id) is None,
    decreases secs.len(),
{
    if secs.len() > 0 {
        let u = secs.drop_last();
        lemma_last_with_id(u, id);
        assert forall|k: int| 0 <= k < u.len() implies #[trigger] u[k] == secs[k] by {}
        assert forall|j: int| 0 <= j < secs.len() && trim(#[trigger] secs[j].thread_id) == id
            && (forall|k: int| j < k < secs.len() ==> trim(#[trigger] secs[k].thread_id) != id)
            implies last_with_id(secs, id) == Some(secs[j]) by {
            if j < secs.len() - 1 {
                assert(trim(secs[secs.len() - 1].thread_id) != id);
                assert(trim(u[j].thread_id) == id);
                assert forall|k: int| j < k < u.len() implies trim(#[trigger] u[k].thread_id) != id by {
                    assert(trim(secs[k].thread_id) != id);
                }
            }
        }
        if forall|k: int| 0 <= k < secs.len() ==> trim(#[trigger] secs[k].thread_id) != id {
            assert(trim(secs[secs.len() - 1].thread_id) != id);
            assert forall|k: int| 0 <= k < u.len() implies trim(#[trigger] u[k].thread_id) != id by {
                assert(trim(secs[k].thread_id) != id);
            }
        }
    }
}

proof fn lemma_last_field(secs: Seq<ThreadSection>, task: bool)
    ensures
        forall|j: int| 0 <= j < secs.len() && has_text(section_field(#[trigger] secs[j], task))
            && (forall|k: int| j < k < secs.len() ==> !has_text(section_field(#[trigger] secs[k], task)))
            ==> last_field(secs, task) == Some(trim(section_field(secs[j], task)->0)),
        (forall|k: int| 0 <= k < secs.len() ==> !has_text(section_field(#[trigger] secs[k], task))) ==> last_field(secs, task) is None,
    decreases secs.len(),
{
    if secs.len() > 0 {
        let u = secs.drop_last();
        lemma_last_field(u, task);
        assert forall|k: int| 0 <= k < u.len() implies #[trigger] u[k] == secs[k] by {}
        assert forall|j: int| 0 <= j < secs.len() && has_text(section_field(#[trigger] secs[j], task))
            && (forall|k: int| j < k < secs.len() ==> !has_text(section_field(#[trigger] secs[k], task)))
            implies last_field(secs, task) == Some(trim(section_field(secs[j], task)->0)) by {
            if j < secs.len() - 1 {
                assert(!has_text(section_field(secs[secs.len() - 1], task)));
                assert(has_text(section_field(u[j], task)));
                assert forall|k: int| j < k < u.len() implies !has_text(section_field(#[trigger] u[k], task)) by {
                    assert(!has_text(section_field(secs[k], task)));
                }
            }
        }
        if forall|k: int| 0 <= k < secs.len() ==> !has_text(section_field(#[trigger] secs[k], task)) {
            assert(!has_text(section_field(secs[secs.len() - 1], task)));
            assert forall|k: int| 0 <= k < u.len() implies !has_text(section_field(#[trigger] u[k], task)) by {
                assert(!has_text(section_field(secs[k], task)));
            }
        }
    }
}

/// The primary thread's field wins: when the trimmed primary id is not blank
/// and its last section holds the field (task or reply) with text, the
/// aggregate takes that trimmed text. Otherwise the aggregate takes the
/// trimmed field of the last section that holds it with text, and has none
/// when no section does.
pub proof fn law_aggregate_prefers_primary(secs: Seq<ThreadSection>, primary: Option<Seq<char>>, task: bool)
    ensures
        forall|j: int| 0 <= j < secs.len() && primary_id(primary) is Some
            && trim(#[trigger] secs[j].thread_id) == primary_id(primary)->0
            && (forall|k: int| j < k < secs.len() ==> trim(#[trigger] secs[k].thread_id) != primary_id(primary)->0)
            && has_text(section_field(secs[j], task))
            ==> aggregate_field(secs, primary, task) == Some(trim(section_field(secs[j], task)->0)),
        (forall|j: int| 0 <= j < secs.len() && primary_id(primary) is Some
            && trim(#[trigger] secs[j].thread_id) == primary_id(primary)->0
            && (forall|k: int| j < k < secs.len() ==> trim(#[trigger] secs[k].thread_id) != primary_id(primary)->0)
            ==> !has_text(section_field(secs[j], task)))
            ==> ((forall|j: int| 0 <= j < secs.len() && has_text(section_field(#[trigger] secs[j], task))
                && (forall|k: int| j < k < secs.len() ==> !has_text(section_field(#[trigger] secs[k], task)))
                ==> aggregate_field(secs, primary, task) == Some(trim(section_field(secs[j], task)->0)))
            && ((forall|k: int| 0 <= k < secs.len() ==> !has_text(section_field(#[trigger] secs[k], task)))
                ==> aggregate_field(secs, primary, task) is None)),
{
    lemma_last_field(secs, task);
    if let Some(p) = primary {
        let id = trim(p);
        lemma_last_with_id(secs, id);
        if id.len() > 0 {
            lemma_last_with_id_index(secs, id);
        }
    }
}

proof fn lemma_last_with_id_index(secs: Seq<ThreadSection>, id: Seq<char>)
    ensures
        last_with_id(secs, id) matches Some(s) ==> exists|j: int| 0 <= j < secs.len() && #[trigger] secs[j] == s
            && trim(s.thread_id) == id && (forall|k: int| j < k < secs.len() ==> trim(#[trigger] secs[k].thread_id) != id),
    decreases secs.len(),
{
    if secs.len() > 0 {
        let u = secs.drop_last();
        lemma_last_with_id_index(u, id);
        if trim(secs.last().thread_id) == id {
            assert(secs[secs.len() - 1] == secs.last());
        } else if let Some(s) = last_with_id(u, id) {
            let j = choose|j: int| 0 <= j < u.len() && #[trigger] u[j] == s
                && trim(s.thread_id) == id && (forall|k: int| j < k < u.len() ==> trim(#[trigger] u[k].thread_id) != id);
            assert(secs[j] == s);
            assert forall|k: int| j < k < secs.len() implies trim(#[trigger] secs[k].thread_id) != id by {
                if k < u.len() {
                    assert(secs[k] == u[k]);
                }
            }
        }
    }
}

} // verus!
