//! Language, task, question and error signals in conversation text.

use vstd::prelude::*;
use crate::text::{
    contains, contains_any, contains_any_exec, contains_char_exec, copy_range, lower, starts_with,
    starts_with_any, starts_with_any_exec, starts_with_str, strs_view, take_chars,
    take_chars_exec, to_ascii_lower, trim_by, trim_start, trim_start_index, views, words,
    words_exec, collapse_ws, collapse_ws_exec, str_to_chars, chars_to_string, ascii_alphanumeric,
    is_ascii_alphanumeric, lemma_trim_by_range, equals_any_exec, runs, is_ascii_digit, ascii_digit, extend, extend_str,
};

verus! {

// ---------------------------------------------------------------------------
// Language profile
// ---------------------------------------------------------------------------

/// The script family a message is written in, as far as the templates care.
#[derive(Debug, Clone, Copy, PartialEq, Eq, Structural)]
pub enum LanguageProfile {
    Korean,
    Japanese,
    Chinese,
    Other,
}

pub open spec fn is_hangul(c: char) -> bool {
    (0xAC00 <= (c as u32) && (c as u32) <= 0xD7A3) || (0x1100 <= (c as u32) && (c as u32) <= 0x11FF)
}

pub open spec fn is_kana(c: char) -> bool {
    0x3040 <= (c as u32) && (c as u32) <= 0x30FF
}

pub open spec fn is_han(c: char) -> bool {
    0x4E00 <= (c as u32) && (c as u32) <= 0x9FFF
}

/// Korean if any Hangul occurs, else Japanese if any kana occurs, else
/// Chinese if any Han ideograph occurs, else other.
pub open spec fn language_profile(s: Seq<char>) -> LanguageProfile {
    if exists|i: int| 0 <= i < s.len() && #[trigger] is_hangul(s[i]) {
        LanguageProfile::Korean
    } else if exists|i: int| 0 <= i < s.len() && #[trigger] is_kana(s[i]) {
        LanguageProfile::Japanese
    } else if exists|i: int| 0 <= i < s.len() && #[trigger] is_han(s[i]) {
        LanguageProfile::Chinese
    } else {
        LanguageProfile::Other
    }
}

pub fn detect_language_profile(text: &[char]) -> (r: LanguageProfile)
    ensures
        r == language_profile(text@),
{
    let mut has_hangul = false;
    let mut has_kana = false;
    let mut has_han = false;
    let mut i: usize = 0;
    while i < text.len()
        invariant
            i <= text.len(),
            has_hangul == exists|j: int| 0 <= j < i && #[trigger] is_hangul(text@[j]),
            has_kana == exists|j: int| 0 <= j < i && #[trigger] is_kana(text@[j]),
            has_han == exists|j: int| 0 <= j < i && #[trigger] is_han(text@[j]),
        decreases text.len() - i,
    {
        let code = text[i] as u32;
        if (0xAC00 <= code && code <= 0xD7A3) || (0x1100 <= code && code <= 0x11FF) {
            has_hangul = true;
        } else if 0x3040 <= code && code <= 0x30FF {
            has_kana = true;
        } else if 0x4E00 <= code && code <= 0x9FFF {
            has_han = true;
        }
        proof {
            assert(is_hangul(text@[i as int]) == ((0xAC00 <= code && code <= 0xD7A3) || (0x1100 <= code && code <= 0x11FF)));
            assert(is_kana(text@[i as int]) == (0x3040 <= code && code <= 0x30FF));
            assert(is_han(text@[i as int]) == (0x4E00 <= code && code <= 0x9FFF));
        }
        i += 1;
    }
    if has_hangul {
        LanguageProfile::Korean
    } else if has_kana {
        LanguageProfile::Japanese
    } else if has_han {
        LanguageProfile::Chinese
    } else {
        LanguageProfile::Other
    }
}

// ---------------------------------------------------------------------------
// Marker lists
// ---------------------------------------------------------------------------

pub open spec fn english_task_verbs() -> Seq<Seq<char>> {
    seq![
        "fix"@, "add"@, "update"@, "implement"@, "investigate"@, "debug"@, "verify"@,
        "refactor"@, "remove"@, "write"@, "create"@, "check"@, "review"@, "test"@, "plan"@,
        "analyze"@,
    ]
}

fn english_task_verbs_exec() -> (r: Vec<&'static str>)
    ensures
        strs_view(r@) == english_task_verbs(),
{
    let mut v: Vec<&'static str> = Vec::new();
    v.push("fix");
    v.push("add");
    v.push("update");
    v.push("implement");
    v.push("investigate");
    v.push("debug");
    v.push("verify");
    v.push("refactor");
    v.push("remove");
    v.push("write");
    v.push("create");
    v.push("check");
    v.push("review");
    v.push("test");
    v.push("plan");
    v.push("analyze");
    assert(strs_view(v@) =~= english_task_verbs());
    v
}

pub open spec fn korean_task_markers() -> Seq<Seq<char>> {
    seq![
        "해줘"@, "해주세요"@, "해 줘"@, "해 주세요"@, "부탁"@, "수정"@, "추가"@, "구현"@,
        "조사"@, "확인"@, "검토"@, "테스트"@, "삭제"@, "작성"@, "업데이트"@, "개선"@, "분석"@,
        "정리"@, "계획"@, "설계"@, "리팩터링"@, "디버그"@, "고쳐"@,
    ]
}

fn korean_task_markers_exec() -> (r: Vec<&'static str>)
    ensures
        strs_view(r@) == korean_task_markers(),
{
    let mut v: Vec<&'static str> = Vec::new();
    v.push("해줘");
    v.push("해주세요");
    v.push("해 줘");
    v.push("해 주세요");
    v.push("부탁");
    v.push("수정");
    v.push("추가");
    v.push("구현");
    v.push("조사");
    v.push("확인");
    v.push("검토");
    v.push("테스트");
    v.push("삭제");
    v.push("작성");
    v.push("업데이트");
    v.push("개선");
    v.push("분석");
    v.push("정리");
    v.push("계획");
    v.push("설계");
    v.push("리팩터링");
    v.push("디버그");
    v.push("고쳐");
    assert(strs_view(v@) =~= korean_task_markers());
    v
}

pub open spec fn japanese_task_markers() -> Seq<Seq<char>> {
    seq![
        "してください"@, "して下さい"@, "お願いします"@, "修正"@, "追加"@, "実装"@, "調査"@,
        "確認"@, "検証"@, "削除"@, "更新"@, "改善"@, "作成"@, "分析"@,
    ]
}

fn japanese_task_markers_exec() -> (r: Vec<&'static str>)
    ensures
        strs_view(r@) == japanese_task_markers(),
{
    let mut v: Vec<&'static str> = Vec::new();
    v.push("してください");
    v.push("して下さい");
    v.push("お願いします");
    v.push("修正");
    v.push("追加");
    v.push("実装");
    v.push("調査");
    v.push("確認");
    v.push("検証");
    v.push("削除");
    v.push("更新");
    v.push("改善");
    v.push("作成");
    v.push("分析");
    assert(strs_view(v@) =~= japanese_task_markers());
    v
}

pub open spec fn chinese_task_markers() -> Seq<Seq<char>> {
    seq![
        "请"@, "請"@, "修复"@, "修復"@, "添加"@, "实现"@, "實現"@, "调查"@, "調查"@, "确认"@,
        "確認"@, "检查"@, "檢查"@, "测试"@, "測試"@, "删除"@, "刪除"@, "更新"@, "改进"@,
        "改進"@, "分析"@,
    ]
}

fn chinese_task_markers_exec() -> (r: Vec<&'static str>)
    ensures
        strs_view(r@) == chinese_task_markers(),
{
    let mut v: Vec<&'static str> = Vec::new();
    v.push("请");
    v.push("請");
    v.push("修复");
    v.push("修復");
    v.push("添加");
    v.push("实现");
    v.push("實現");
    v.push("调查");
    v.push("調查");
    v.push("确认");
    v.push("確認");
    v.push("检查");
    v.push("檢查");
    v.push("测试");
    v.push("測試");
    v.push("删除");
    v.push("刪除");
    v.push("更新");
    v.push("改进");
    v.push("改進");
    v.push("分析");
    assert(strs_view(v@) =~= chinese_task_markers());
    v
}

pub open spec fn question_prefixes() -> Seq<Seq<char>> {
    seq![
        "what "@, "why "@, "how "@, "when "@, "where "@, "which "@, "who "@, "can "@,
        "could "@, "would "@, "will "@, "should "@, "is "@, "are "@, "do "@, "does "@, "did "@,
    ]
}

fn question_prefixes_exec() -> (r: Vec<&'static str>)
    ensures
        strs_view(r@) == question_prefixes(),
{
    let mut v: Vec<&'static str> = Vec::new();
    v.push("what ");
    v.push("why ");
    v.push("how ");
    v.push("when ");
    v.push("where ");
    v.push("which ");
    v.push("who ");
    v.push("can ");
    v.push("could ");
    v.push("would ");
    v.push("will ");
    v.push("should ");
    v.push("is ");
    v.push("are ");
    v.push("do ");
    v.push("does ");
    v.push("did ");
    assert(strs_view(v@) =~= question_prefixes());
    v
}

pub open spec fn english_request_cues() -> Seq<Seq<char>> {
    seq!["can you"@, "could you"@, "would you"@, "will you"@, "please"@, "help"@]
}

fn english_request_cues_exec() -> (r: Vec<&'static str>)
    ensures
        strs_view(r@) == english_request_cues(),
{
    let mut v: Vec<&'static str> = Vec::new();
    v.push("can you");
    v.push("could you");
    v.push("would you");
    v.push("will you");
    v.push("please");
    v.push("help");
    assert(strs_view(v@) =~= english_request_cues());
    v
}

pub open spec fn korean_question_cues() -> Seq<Seq<char>> {
    seq![
        "가능"@, "할 수"@, "해줄"@, "해 줄"@, "어떻게"@, "왜"@, "무엇"@, "뭐"@, "언제"@, "어디"@,
        "나요"@, "까요"@, "습니까"@,
    ]
}

fn korean_question_cues_exec() -> (r: Vec<&'static str>)
    ensures
        strs_view(r@) == korean_question_cues(),
{
    let mut v: Vec<&'static str> = Vec::new();
    v.push("가능");
    v.push("할 수");
    v.push("해줄");
    v.push("해 줄");
    v.push("어떻게");
    v.push("왜");
    v.push("무엇");
    v.push("뭐");
    v.push("언제");
    v.push("어디");
    v.push("나요");
    v.push("까요");
    v.push("습니까");
    assert(strs_view(v@) =~= korean_question_cues());
    v
}

pub open spec fn japanese_question_cues() -> Seq<Seq<char>> {
    seq![
        "ですか"@, "ますか"@, "でしょうか"@, "かな"@, "できますか"@, "どう"@, "なぜ"@, "何"@,
        "いつ"@, "どこ"@,
    ]
}

fn japanese_question_cues_exec() -> (r: Vec<&'static str>)
    ensures
        strs_view(r@) == japanese_question_cues(),
{
    let mut v: Vec<&'static str> = Vec::new();
    v.push("ですか");
    v.push("ますか");
    v.push("でしょうか");
    v.push("かな");
    v.push("できますか");
    v.push("どう");
    v.push("なぜ");
    v.push("何");
    v.push("いつ");
    v.push("どこ");
    assert(strs_view(v@) =~= japanese_question_cues());
    v
}

pub open spec fn chinese_question_cues() -> Seq<Seq<char>> {
    seq![
        "吗"@, "嗎"@, "呢"@, "如何"@, "怎么"@, "怎麼"@, "为什么"@, "為什麼"@, "可以"@, "能否"@,
        "何时"@, "何時"@, "哪里"@, "哪裡"@, "请问"@, "請問"@,
    ]
}

fn chinese_question_cues_exec() -> (r: Vec<&'static str>)
    ensures
        strs_view(r@) == chinese_question_cues(),
{
    let mut v: Vec<&'static str> = Vec::new();
    v.push("吗");
    v.push("嗎");
    v.push("呢");
    v.push("如何");
    v.push("怎么");
    v.push("怎麼");
    v.push("为什么");
    v.push("為什麼");
    v.push("可以");
    v.push("能否");
    v.push("何时");
    v.push("何時");
    v.push("哪里");
    v.push("哪裡");
    v.push("请问");
    v.push("請問");
    assert(strs_view(v@) =~= chinese_question_cues());
    v
}

// ---------------------------------------------------------------------------
// Task signals
// ---------------------------------------------------------------------------

pub open spec fn not_alnum(c: char) -> bool {
    !is_ascii_alphanumeric(c)
}

/// `token.trim_matches(|c| !c.is_ascii_alphanumeric())`.
pub open spec fn strip_non_alnum(w: Seq<char>) -> Seq<char> {
    trim_by(w, |c: char| not_alnum(c))
}

fn strip_non_alnum_exec(w: &[char]) -> (r: Vec<char>)
    ensures
        r@ == strip_non_alnum(w@),
{
    let ghost p = |c: char| not_alnum(c);
    let mut a: usize = 0;
    while a < w.len() && !ascii_alphanumeric(w[a])
        invariant
            a <= w.len(),
            p == (|c: char| not_alnum(c)),
            forall|j: int| 0 <= j < a ==> p(w@[j]),
        decreases w.len() - a,
    {
        a += 1;
    }
    let mut b: usize = w.len();
    while b > a && !ascii_alphanumeric(w[b - 1])
        invariant
            a <= b <= w.len(),
            p == (|c: char| not_alnum(c)),
            forall|j: int| b <= j < w.len() ==> p(w@[j]),
        decreases b,
    {
        b -= 1;
    }
    proof {
        if a == b {
            assert forall|j: int| 0 <= j < w.len() implies p(w@[j]) by {
                if j >= a {
                }
            }
        }
        lemma_trim_by_range(w@, p, a as int, b as int);
    }
    copy_range(w, a, b)
}

/// An English request: it starts with "please " or one of its words, with
/// surrounding punctuation stripped, is a task verb.
pub open spec fn english_task_signal(lower: Seq<char>) -> bool {
    ||| starts_with(lower, "please "@)
    ||| exists|k: int| 0 <= k < words(lower).len() && english_task_verbs().contains(
        #[trigger] strip_non_alnum(words(lower)[k]),
    )
}

pub fn has_english_task_signal(lower: &[char]) -> (r: bool)
    ensures
        r == english_task_signal(lower@),
{
    if starts_with_str(lower, "please ") {
        return true;
    }
    let verbs = english_task_verbs_exec();
    let ws = words_exec(lower);
    let ghost wv = views(ws@);
    let mut k: usize = 0;
    while k < ws.len()
        invariant
            k <= ws.len(),
            wv == views(ws@),
            wv == words(lower@),
            strs_view(verbs@) == english_task_verbs(),
            forall|j: int| 0 <= j < k ==> !english_task_verbs().contains(#[trigger] strip_non_alnum(wv[j])),
        decreases ws.len() - k,
    {
        let token = strip_non_alnum_exec(ws[k].as_slice());
        assert(ws@[k as int]@ == wv[k as int]);
        if equals_any_exec(token.as_slice(), &verbs) {
            return true;
        }
        k += 1;
    }
    false
}

pub open spec fn korean_task_signal(text: Seq<char>, lower: Seq<char>) -> bool {
    contains_any(text, korean_task_markers()) || contains_any(lower, korean_task_markers())
}

pub fn has_korean_task_signal(text: &[char], lower: &[char]) -> (r: bool)
    ensures
        r == korean_task_signal(text@, lower@),
{
    let markers = korean_task_markers_exec();
    contains_any_exec(text, &markers) || contains_any_exec(lower, &markers)
}

pub open spec fn japanese_task_signal(text: Seq<char>) -> bool {
    contains_any(text, japanese_task_markers())
}

pub fn has_japanese_task_signal(text: &[char]) -> (r: bool)
    ensures
        r == japanese_task_signal(text@),
{
    let markers = japanese_task_markers_exec();
    contains_any_exec(text, &markers)
}

pub open spec fn chinese_task_signal(text: Seq<char>) -> bool {
    contains_any(text, chinese_task_markers())
}

pub fn has_chinese_task_signal(text: &[char]) -> (r: bool)
    ensures
        r == chinese_task_signal(text@),
{
    let markers = chinese_task_markers_exec();
    contains_any_exec(text, &markers)
}

/// A question mark (ASCII or full-width) together with an interrogative
/// opening or a request cue in one of the supported languages.
pub open spec fn question_task_signal(text: Seq<char>, lower: Seq<char>) -> bool {
    &&& (lower.contains('?') || text.contains('？'))
    &&& {
        ||| starts_with_any(trim_start(lower), question_prefixes())
        ||| contains_any(lower, english_request_cues())
        ||| contains_any(text, korean_question_cues())
        ||| contains_any(lower, korean_question_cues())
        ||| contains_any(text, japanese_question_cues())
        ||| contains_any(text, chinese_question_cues())
    }
}

pub fn has_question_task_signal(text: &[char], lower: &[char]) -> (r: bool)
    ensures
        r == question_task_signal(text@, lower@),
{
    if !(contains_char_exec(lower, '?') || contains_char_exec(text, '？')) {
        return false;
    }
    let a = trim_start_index(lower);
    let trimmed = copy_range(lower, a, lower.len());
    assert(trimmed@ == lower@.skip(a as int));
    let prefixes = question_prefixes_exec();
    if starts_with_any_exec(trimmed.as_slice(), &prefixes) {
        return true;
    }
    let english = english_request_cues_exec();
    if contains_any_exec(lower, &english) {
        return true;
    }
    let korean = korean_question_cues_exec();
    if contains_any_exec(text, &korean) || contains_any_exec(lower, &korean) {
        return true;
    }
    let japanese = japanese_question_cues_exec();
    if contains_any_exec(text, &japanese) {
        return true;
    }
    let chinese = chinese_question_cues_exec();
    contains_any_exec(text, &chinese)
}

/// Whether a message asks for work to be done.
pub open spec fn task_signal(text: Seq<char>) -> bool {
    let lw = lower(text);
    ||| question_task_signal(text, lw)
    ||| english_task_signal(lw)
    ||| match language_profile(text) {
        LanguageProfile::Korean => korean_task_signal(text, lw),
        LanguageProfile::Japanese => japanese_task_signal(text),
        LanguageProfile::Chinese => chinese_task_signal(text),
        LanguageProfile::Other => false,
    }
}

pub fn has_task_signal(text: &[char]) -> (r: bool)
    ensures
        r == task_signal(text@),
{
    let lw = to_ascii_lower(text);
    if has_question_task_signal(text, lw.as_slice()) {
        return true;
    }
    if has_english_task_signal(lw.as_slice()) {
        return true;
    }
    match detect_language_profile(text) {
        LanguageProfile::Korean => has_korean_task_signal(text, lw.as_slice()),
        LanguageProfile::Japanese => has_japanese_task_signal(text),
        LanguageProfile::Chinese => has_chinese_task_signal(text),
        LanguageProfile::Other => false,
    }
}

/// The whitespace-normalised message, cut to 140 characters, when it is
/// non-empty and carries a task signal.
pub open spec fn task_phrase(text: Seq<char>) -> Option<Seq<char>> {
    let n = collapse_ws(text);
    if n.len() == 0 || !task_signal(n) {
        None
    } else {
        Some(take_chars(n, 140))
    }
}

pub fn extract_task_phrase(text: &str) -> (r: Option<String>)
    ensures
        crate::text::opt_string(r) == task_phrase(text@),
{
    let v = str_to_chars(text);
    let n = collapse_ws_exec(v.as_slice());
    if n.len() == 0 {
        return None;
    }
    if !has_task_signal(n.as_slice()) {
        return None;
    }
    let t = take_chars_exec(n.as_slice(), 140);
    Some(chars_to_string(t.as_slice()))
}


// ---------------------------------------------------------------------------
// Error signals
// ---------------------------------------------------------------------------

pub open spec fn error_markers_lower() -> Seq<Seq<char>> {
    seq!["error"@, "failed"@, "exception"@, "panic"@, "timeout"@, "오류"@, "실패"@, "예외"@, "에러"@]
}

fn error_markers_lower_exec() -> (r: Vec<&'static str>)
    ensures
        strs_view(r@) == error_markers_lower(),
{
    let mut v: Vec<&'static str> = Vec::new();
    v.push("error");
    v.push("failed");
    v.push("exception");
    v.push("panic");
    v.push("timeout");
    v.push("오류");
    v.push("실패");
    v.push("예외");
    v.push("에러");
    assert(strs_view(v@) =~= error_markers_lower());
    v
}

pub open spec fn error_markers_text() -> Seq<Seq<char>> {
    seq![
        "エラー"@, "失敗"@, "例外"@, "タイムアウト"@, "错误"@, "錯誤"@, "失败"@, "失敗"@,
        "异常"@, "異常"@, "超时"@,
    ]
}

fn error_markers_text_exec() -> (r: Vec<&'static str>)
    ensures
        strs_view(r@) == error_markers_text(),
{
    let mut v: Vec<&'static str> = Vec::new();
    v.push("エラー");
    v.push("失敗");
    v.push("例外");
    v.push("タイムアウト");
    v.push("错误");
    v.push("錯誤");
    v.push("失败");
    v.push("失敗");
    v.push("异常");
    v.push("異常");
    v.push("超时");
    assert(strs_view(v@) =~= error_markers_text());
    v
}

/// An error word in the ASCII-lowercased text (English or Korean), or a
/// Japanese or Chinese error word in the text itself.
pub open spec fn error_signal(text: Seq<char>) -> bool {
    contains_any(lower(text), error_markers_lower()) || contains_any(text, error_markers_text())
}

pub fn contains_error_signal(text: &[char]) -> (r: bool)
    ensures
        r == error_signal(text@),
{
    let lw = to_ascii_lower(text);
    let lower_markers = error_markers_lower_exec();
    if contains_any_exec(lw.as_slice(), &lower_markers) {
        return true;
    }
    let text_markers = error_markers_text_exec();
    contains_any_exec(text, &text_markers)
}

// ---------------------------------------------------------------------------
// Error identifiers
// ---------------------------------------------------------------------------

/// ASCII alphanumerics and `_ - : / .`.
pub open spec fn identifier_char(c: char) -> bool {
    is_ascii_alphanumeric(c) || c == '_' || c == '-' || c == ':' || c == '/' || c == '.'
}

pub fn is_identifier_char(c: char) -> (r: bool)
    ensures
        r == identifier_char(c),
{
    ascii_alphanumeric(c) || c == '_' || c == '-' || c == ':' || c == '/' || c == '.'
}

/// Maximal runs of identifier characters.
pub open spec fn identifier_spans(s: Seq<char>) -> Seq<Seq<char>> {
    runs(s, |c: char| identifier_char(c))
}

pub fn identifier_like_spans(s: &[char]) -> (r: Vec<Vec<char>>)
    ensures
        views(r@) == identifier_spans(s@),
{
    let ghost p = |c: char| identifier_char(c);
    let mut r: Vec<Vec<char>> = Vec::new();
    let mut cur: Vec<char> = Vec::new();
    let mut i: usize = 0;
    while i < s.len()
        invariant
            i <= s.len(),
            p == (|c: char| identifier_char(c)),
            cur@.len() > 0 ==> views(r@).push(cur@) == runs(s@.take(i as int), p),
            cur@.len() == 0 ==> views(r@) == runs(s@.take(i as int), p),
            cur@.len() > 0 ==> (i > 0 && p(s@[i - 1])),
            (i > 0 && p(s@[i - 1])) ==> cur@.len() > 0,
        decreases s.len() - i,
    {
        let c = s[i];
        let ghost prev = runs(s@.take(i as int), p);
        proof {
            let t = s@.take(i + 1);
            assert(t.drop_last() =~= s@.take(i as int));
            assert(t.last() == c);
            if i >= 1 {
                assert(t[t.len() - 2] == s@[i - 1]);
            }
        }
        let ghost old_r = views(r@);
        let ghost old_cur = cur@;
        if !is_identifier_char(c) {
            if cur.len() > 0 {
                let w = cur;
                r.push(w);
                cur = Vec::new();
                assert(views(r@) =~= old_r.push(old_cur));
            }
        } else {
            cur.push(c);
            proof {
                if old_cur.len() > 0 {
                    assert(prev == old_r.push(old_cur));
                    assert(prev.update(prev.len() - 1, prev.last().push(c)) =~= old_r.push(cur@));
                } else {
                    assert(cur@ =~= seq![c]);
                    assert(prev.push(seq![c]) =~= old_r.push(cur@));
                }
            }
        }
        i += 1;
    }
    if cur.len() > 0 {
        let ghost old_r = views(r@);
        let ghost old_cur = cur@;
        r.push(cur);
        assert(views(r@) =~= old_r.push(old_cur));
    }
    assert(s@.take(s.len() as int) =~= s@);
    r
}

/// Index of the first token satisfying `p`, or `ts.len()` when none does.
pub open spec fn first_token_where(ts: Seq<Seq<char>>, p: spec_fn(Seq<char>) -> bool) -> int
    decreases ts.len(),
{
    if ts.len() == 0 {
        0
    } else if p(ts[0]) {
        0
    } else {
        1 + first_token_where(ts.drop_first(), p)
    }
}

pub proof fn lemma_first_token_where_at(ts: Seq<Seq<char>>, p: spec_fn(Seq<char>) -> bool, i: int)
    requires
        0 <= i <= ts.len(),
        i < ts.len() ==> p(ts[i]),
        forall|j: int| 0 <= j < i ==> !p(#[trigger] ts[j]),
    ensures
        first_token_where(ts, p) == i,
    decreases ts.len(),
{
    if ts.len() > 0 && i > 0 {
        assert(!p(ts[0]));
        assert forall|j: int| 0 <= j < i - 1 implies !p(#[trigger] ts.drop_first()[j]) by {
            assert(ts.drop_first()[j] == ts[j + 1]);
        }
        if i - 1 < ts.drop_first().len() {
            assert(ts.drop_first()[i - 1] == ts[i]);
        }
        lemma_first_token_where_at(ts.drop_first(), p, i - 1);
    }
}

/// `E` followed by at least two ASCII digits (the tokens are ASCII, so
/// characters and bytes coincide).
pub open spec fn error_code_token(t: Seq<char>) -> bool {
    t.len() > 2 && t[0] == 'E' && forall|j: int| 1 <= j < t.len() ==> is_ascii_digit(#[trigger] t[j])
}

/// A token with `_`, `::`, `/` or `:` in it.
pub open spec fn path_like_token(t: Seq<char>) -> bool {
    t.contains('_') || contains(t, "::"@) || t.contains('/') || t.contains(':')
}

pub open spec fn err_prefixed_token(t: Seq<char>) -> bool {
    starts_with(t, "ERR"@)
}

fn is_error_code_token(t: &[char]) -> (r: bool)
    ensures
        r == error_code_token(t@),
{
    if t.len() <= 2 || t[0] != 'E' {
        return false;
    }
    let mut j: usize = 1;
    while j < t.len()
        invariant
            1 <= j <= t.len(),
            forall|k: int| 1 <= k < j ==> is_ascii_digit(#[trigger] t@[k]),
        decreases t.len() - j,
    {
        if !ascii_digit(t[j]) {
            return false;
        }
        j += 1;
    }
    true
}

fn is_path_like_token(t: &[char]) -> (r: bool)
    ensures
        r == path_like_token(t@),
{
    contains_char_exec(t, '_') || crate::text::contains_str(t, "::") || contains_char_exec(t, '/')
        || contains_char_exec(t, ':')
}

/// Index of the first token of `ts` satisfying the selected test: error
/// code (`kind == 0`), path-like (`kind == 1`) or `ERR`-prefixed.
fn find_token(ts: &Vec<Vec<char>>, kind: u8) -> (r: usize)
    ensures
        r == first_token_where(
            views(ts@),
            if kind == 0 {
                |t: Seq<char>| error_code_token(t)
            } else if kind == 1 {
                |t: Seq<char>| path_like_token(t)
            } else {
                |t: Seq<char>| err_prefixed_token(t)
            },
        ),
{
    let ghost p: spec_fn(Seq<char>) -> bool = if kind == 0 {
        |t: Seq<char>| error_code_token(t)
    } else if kind == 1 {
        |t: Seq<char>| path_like_token(t)
    } else {
        |t: Seq<char>| err_prefixed_token(t)
    };
    let ghost tv = views(ts@);
    let mut i: usize = 0;
    loop
        invariant
            i <= ts.len(),
            tv == views(ts@),
            p == (if kind == 0 {
                |t: Seq<char>| error_code_token(t)
            } else if kind == 1 {
                |t: Seq<char>| path_like_token(t)
            } else {
                |t: Seq<char>| err_prefixed_token(t)
            }),
            forall|j: int| 0 <= j < i ==> !p(#[trigger] tv[j]),
        ensures
            i <= ts.len(),
            i < ts.len() ==> p(tv[i as int]),
            forall|j: int| 0 <= j < i ==> !p(#[trigger] tv[j]),
        decreases ts.len() - i,
    {
        if i >= ts.len() {
            break;
        }
        let t = ts[i].as_slice();
        assert(t@ == tv[i as int]);
        let hit = if kind == 0 {
            is_error_code_token(t)
        } else if kind == 1 {
            is_path_like_token(t)
        } else {
            starts_with_str(t, "ERR")
        };
        if hit {
            break;
        }
        i += 1;
    }
    proof {
        lemma_first_token_where_at(tv, p, i as int);
    }
    i
}

/// The first identifier-like span of the text that looks like an error code,
/// else the first path-like one, else the first starting with `ERR`.
pub open spec fn error_identifier(text: Seq<char>) -> Option<Seq<char>> {
    let ts = identifier_spans(text);
    let a = first_token_where(ts, |t: Seq<char>| error_code_token(t));
    let b = first_token_where(ts, |t: Seq<char>| path_like_token(t));
    let c = first_token_where(ts, |t: Seq<char>| err_prefixed_token(t));
    if a < ts.len() {
        Some(ts[a])
    } else if b < ts.len() {
        Some(ts[b])
    } else if c < ts.len() {
        Some(ts[c])
    } else {
        None
    }
}

pub fn extract_error_identifier(text: &[char]) -> (r: Option<Vec<char>>)
    ensures
        match r {
            Some(v) => error_identifier(text@) == Some(v@),
            None => error_identifier(text@) is None,
        },
{
    // The spans hold identifier characters only, so trimming the other
    // characters off them changes nothing and every span is non-empty.
    let tokens = identifier_like_spans(text);
    let a = find_token(&tokens, 0);
    if a < tokens.len() {
        return Some(copy_range(tokens[a].as_slice(), 0, tokens[a].len()));
    }
    let b = find_token(&tokens, 1);
    if b < tokens.len() {
        return Some(copy_range(tokens[b].as_slice(), 0, tokens[b].len()));
    }
    let c = find_token(&tokens, 2);
    if c < tokens.len() {
        return Some(copy_range(tokens[c].as_slice(), 0, tokens[c].len()));
    }
    None
}


// ---------------------------------------------------------------------------
// Suggested responses
// ---------------------------------------------------------------------------

/// The suggestion for a plain task, in the language of the request.
pub open spec fn suggested_response_text(profile: LanguageProfile, task: Seq<char>) -> Seq<char> {
    match profile {
        LanguageProfile::Korean => "사용자 요청에 응답: "@ + task,
        LanguageProfile::Japanese => "ユーザー要求に対応: "@ + task,
        LanguageProfile::Chinese => "回应用户请求: "@ + task,
        LanguageProfile::Other => "Respond to user request: "@ + task,
    }
}

pub fn build_suggested_response(profile: LanguageProfile, task: &[char]) -> (r: Vec<char>)
    ensures
        r@ == suggested_response_text(profile, task@),
{
    let mut out: Vec<char> = Vec::new();
    match profile {
        LanguageProfile::Korean => extend_str(&mut out, "사용자 요청에 응답: "),
        LanguageProfile::Japanese => extend_str(&mut out, "ユーザー要求に対応: "),
        LanguageProfile::Chinese => extend_str(&mut out, "回应用户请求: "),
        LanguageProfile::Other => extend_str(&mut out, "Respond to user request: "),
    }
    extend(&mut out, task);
    out
}

/// The suggestion for a task after a failure, naming the error identifier
/// when there is one.
pub open spec fn error_recovery_text(profile: LanguageProfile, id: Option<Seq<char>>, task: Seq<char>) -> Seq<char> {
    match (profile, id) {
        (LanguageProfile::Korean, Some(i)) => i + " 오류를 처리하고 계속 진행: "@ + task,
        (LanguageProfile::Korean, None) => "최근 오류를 해결하고 계속 진행: "@ + task,
        (LanguageProfile::Japanese, Some(i)) => i + " エラーを解消して継続: "@ + task,
        (LanguageProfile::Japanese, None) => "直近のエラーを解消して継続: "@ + task,
        (LanguageProfile::Chinese, Some(i)) => "处理 "@ + i + " 错误并继续: "@ + task,
        (LanguageProfile::Chinese, None) => "处理最近错误并继续: "@ + task,
        (LanguageProfile::Other, Some(i)) => "Address "@ + i + " and continue: "@ + task,
        (LanguageProfile::Other, None) => "Resolve the latest error and continue: "@ + task,
    }
}

pub fn build_error_recovery_response(profile: LanguageProfile, identifier: Option<&[char]>, task: &[char]) -> (r: Vec<char>)
    ensures
        r@ == error_recovery_text(
            profile,
            match identifier {
                Some(i) => Some(i@),
                None => None,
            },
            task@,
        ),
{
    let mut out: Vec<char> = Vec::new();
    match identifier {
        Some(id) => match profile {
            LanguageProfile::Korean => {
                extend(&mut out, id);
                extend_str(&mut out, " 오류를 처리하고 계속 진행: ");
            },
            LanguageProfile::Japanese => {
                extend(&mut out, id);
                extend_str(&mut out, " エラーを解消して継続: ");
            },
            LanguageProfile::Chinese => {
                extend_str(&mut out, "处理 ");
                extend(&mut out, id);
                extend_str(&mut out, " 错误并继续: ");
            },
            LanguageProfile::Other => {
                extend_str(&mut out, "Address ");
                extend(&mut out, id);
                extend_str(&mut out, " and continue: ");
            },
        },
        None => match profile {
            LanguageProfile::Korean => extend_str(&mut out, "최근 오류를 해결하고 계속 진행: "),
            LanguageProfile::Japanese => extend_str(&mut out, "直近のエラーを解消して継続: "),
            LanguageProfile::Chinese => extend_str(&mut out, "处理最近错误并继续: "),
            LanguageProfile::Other => extend_str(&mut out, "Resolve the latest error and continue: "),
        },
    }
    extend(&mut out, task);
    out
}

// ---------------------------------------------------------------------------
// Roles
// ---------------------------------------------------------------------------

pub open spec fn user_roles() -> Seq<Seq<char>> {
    seq!["user"@, "사용자"@, "유저"@, "ユーザー"@, "用户"@, "用戶"@]
}

pub fn is_user_role(role: &[char]) -> (r: bool)
    ensures
        r == user_roles().contains(role@),
{
    let mut v: Vec<&'static str> = Vec::new();
    v.push("user");
    v.push("사용자");
    v.push("유저");
    v.push("ユーザー");
    v.push("用户");
    v.push("用戶");
    assert(strs_view(v@) =~= user_roles());
    equals_any_exec(role, &v)
}

pub open spec fn assistant_or_tool_roles() -> Seq<Seq<char>> {
    seq![
        "assistant"@, "tool"@, "도구"@, "assistant/tool"@, "アシスタント"@, "ツール"@, "助手"@,
        "工具"@,
    ]
}

pub fn is_assistant_or_tool_role(role: &[char]) -> (r: bool)
    ensures
        r == assistant_or_tool_roles().contains(role@),
{
    let mut v: Vec<&'static str> = Vec::new();
    v.push("assistant");
    v.push("tool");
    v.push("도구");
    v.push("assistant/tool");
    v.push("アシスタント");
    v.push("ツール");
    v.push("助手");
    v.push("工具");
    assert(strs_view(v@) =~= assistant_or_tool_roles());
    equals_any_exec(role, &v)
}

} // verus!
