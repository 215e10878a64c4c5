//! Checking a prompt contract read back from JSON.
//!
//! The JSON text is parsed by `serde_json` and held as a [`JsonValue`]; the
//! checks of this module run on that document.

use vstd::prelude::*;
use crate::prompt::contract::{OM_PROMPT_CONTRACT_NAME, OM_PROMPT_CONTRACT_VERSION, OM_PROTOCOL_VERSION, OmPromptRequestKind};
use crate::text::{chars_eq, chars_to_string, extend, extend_str, join, str_to_chars, string_chars, strs_view};

verus! {

/// A JSON document: numbers keep their decimal text, objects their members
/// in order (keys are unique).
#[derive(Debug, PartialEq, Eq)]
pub enum JsonValue {
    Null,
    Bool(bool),
    Number(String),
    String(String),
    Array(Vec<JsonValue>),
    Object(Vec<(String, JsonValue)>),
}

#[derive(Debug, Clone, PartialEq, Eq)]
pub enum OmPromptContractParseError {
    InvalidJson { reason: String },
    MissingRequiredField { field: String },
    InvalidFieldType { field: String },
    ContractNameMismatch { expected: String, actual: String },
    ContractVersionMismatch { expected: String, actual: String },
    ProtocolVersionMismatch { expected: String, actual: String },
    RequestKindMismatch { expected: String, actual: String },
    InvalidPayload { reason: String },
}

/// The errors with their texts as sequences.
pub enum ParseErrorView {
    InvalidJson(Seq<char>),
    MissingRequiredField(Seq<char>),
    InvalidFieldType(Seq<char>),
    ContractNameMismatch(Seq<char>, Seq<char>),
    ContractVersionMismatch(Seq<char>, Seq<char>),
    ProtocolVersionMismatch(Seq<char>, Seq<char>),
    RequestKindMismatch(Seq<char>, Seq<char>),
    InvalidPayload(Seq<char>),
}

pub open spec fn error_view(e: OmPromptContractParseError) -> ParseErrorView {
    match e {
        OmPromptContractParseError::InvalidJson { reason } => ParseErrorView::InvalidJson(reason@),
        OmPromptContractParseError::MissingRequiredField { field } => ParseErrorView::MissingRequiredField(field@),
        OmPromptContractParseError::InvalidFieldType { field } => ParseErrorView::InvalidFieldType(field@),
        OmPromptContractParseError::ContractNameMismatch { expected, actual } => ParseErrorView::ContractNameMismatch(
            expected@,
            actual@,
        ),
        OmPromptContractParseError::ContractVersionMismatch { expected, actual } => ParseErrorView::ContractVersionMismatch(
            expected@,
            actual@,
        ),
        OmPromptContractParseError::ProtocolVersionMismatch { expected, actual } => ParseErrorView::ProtocolVersionMismatch(
            expected@,
            actual@,
        ),
        OmPromptContractParseError::RequestKindMismatch { expected, actual } => ParseErrorView::RequestKindMismatch(
            expected@,
            actual@,
        ),
        OmPromptContractParseError::InvalidPayload { reason } => ParseErrorView::InvalidPayload(reason@),
    }
}

pub open spec fn result_view(r: Result<(), OmPromptContractParseError>) -> Result<(), ParseErrorView> {
    match r {
        Ok(()) => Ok(()),
        Err(e) => Err(error_view(e)),
    }
}

/// The message the error displays.
pub open spec fn error_message(e: ParseErrorView) -> Seq<char> {
    match e {
        ParseErrorView::InvalidJson(r) => "invalid json: "@ + r,
        ParseErrorView::MissingRequiredField(f) => "missing required field: "@ + f,
        ParseErrorView::InvalidFieldType(f) => "invalid field type: "@ + f,
        ParseErrorView::ContractNameMismatch(e, a) => "contract name mismatch: "@ + "expected `"@ + e + "`, got `"@ + a + "`"@,
        ParseErrorView::ContractVersionMismatch(e, a) => "contract version mismatch: "@ + "expected `"@ + e + "`, got `"@ + a + "`"@,
        ParseErrorView::ProtocolVersionMismatch(e, a) => "protocol version mismatch: "@ + "expected `"@ + e + "`, got `"@ + a + "`"@,
        ParseErrorView::RequestKindMismatch(e, a) => "request kind mismatch: "@ + "expected `"@ + e + "`, got `"@ + a + "`"@,
        ParseErrorView::InvalidPayload(r) => "invalid contract payload: "@ + r,
    }
}

fn mismatch_message(prefix: &str, expected: &String, actual: &String) -> (r: String)
    ensures
        r@ == prefix@ + "expected `"@ + expected@ + "`, got `"@ + actual@ + "`"@,
{
    let mut out = str_to_chars(prefix);
    extend_str(&mut out, "expected `");
    extend_str(&mut out, expected.as_str());
    extend_str(&mut out, "`, got `");
    extend_str(&mut out, actual.as_str());
    extend_str(&mut out, "`");
    chars_to_string(out.as_slice())
}

fn prefixed_message(prefix: &str, text: &String) -> (r: String)
    ensures
        r@ == prefix@ + text@,
{
    let mut out = str_to_chars(prefix);
    extend_str(&mut out, text.as_str());
    chars_to_string(out.as_slice())
}

impl OmPromptContractParseError {
    /// Human-readable description of the error.
    pub fn message(&self) -> (r: String)
        ensures
            r@ == error_message(error_view(*self)),
    {
        match self {
            OmPromptContractParseError::InvalidJson { reason } => prefixed_message("invalid json: ", reason),
            OmPromptContractParseError::MissingRequiredField { field } => prefixed_message("missing required field: ", field),
            OmPromptContractParseError::InvalidFieldType { field } => prefixed_message("invalid field type: ", field),
            OmPromptContractParseError::ContractNameMismatch { expected, actual } => mismatch_message(
                "contract name mismatch: ",
                expected,
                actual,
            ),
            OmPromptContractParseError::ContractVersionMismatch { expected, actual } => mismatch_message(
                "contract version mismatch: ",
                expected,
                actual,
            ),
            OmPromptContractParseError::ProtocolVersionMismatch { expected, actual } => mismatch_message(
                "protocol version mismatch: ",
                expected,
                actual,
            ),
            OmPromptContractParseError::RequestKindMismatch { expected, actual } => mismatch_message(
                "request kind mismatch: ",
                expected,
                actual,
            ),
            OmPromptContractParseError::InvalidPayload { reason } => prefixed_message("invalid contract payload: ", reason),
        }
    }
}

// ---------------------------------------------------------------------------
// Fields
// ---------------------------------------------------------------------------

/// The value of the first member named `key`.
pub open spec fn member(members: Seq<(String, JsonValue)>, key: Seq<char>) -> Option<JsonValue>
    decreases members.len(),
{
    if members.len() == 0 {
        None
    } else if members[0].0@ == key {
        Some(members[0].1)
    } else {
        member(members.drop_first(), key)
    }
}

/// The value at `path`, following object members.
pub open spec fn lookup(v: JsonValue, path: Seq<Seq<char>>) -> Option<JsonValue>
    decreases path.len(),
{
    if path.len() == 0 {
        Some(v)
    } else {
        match v {
            JsonValue::Object(members) => match member(members@, path[0]) {
                Some(child) => lookup(child, path.drop_first()),
                None => None,
            },
            _ => None,
        }
    }
}

/// The path's keys joined by dots.
pub open spec fn path_name(path: Seq<Seq<char>>) -> Seq<char> {
    join(path, "."@)
}

/// The value at `path`, or the missing-field error when it is absent or
/// null.
pub open spec fn required(v: JsonValue, path: Seq<Seq<char>>) -> Result<JsonValue, ParseErrorView> {
    match lookup(v, path) {
        Some(x) => if x is Null {
            Err(ParseErrorView::MissingRequiredField(path_name(path)))
        } else {
            Ok(x)
        },
        None => Err(ParseErrorView::MissingRequiredField(path_name(path))),
    }
}

/// The string at `path`, or the missing-field or field-type error.
pub open spec fn required_string(v: JsonValue, path: Seq<Seq<char>>) -> Result<Seq<char>, ParseErrorView> {
    match required(v, path) {
        Ok(JsonValue::String(s)) => Ok(s@),
        Ok(_) => Err(ParseErrorView::InvalidFieldType(path_name(path))),
        Err(e) => Err(e),
    }
}

/// The first of `paths` whose value is missing, as an error.
pub open spec fn first_missing(v: JsonValue, paths: Seq<Seq<Seq<char>>>) -> Result<(), ParseErrorView>
    decreases paths.len(),
{
    if paths.len() == 0 {
        Ok(())
    } else {
        match required(v, paths[0]) {
            Err(e) => Err(e),
            Ok(_) => first_missing(v, paths.drop_first()),
        }
    }
}

fn find_member<'a>(members: &'a Vec<(String, JsonValue)>, key: &str) -> (r: Option<&'a JsonValue>)
    ensures
        match r {
            Some(x) => member(members@, key@) == Some(*x),
            None => member(members@, key@) is None,
        },
{
    let kc = str_to_chars(key);
    let mut i: usize = 0;
    assert(members@.skip(0) =~= members@);
    while i < members.len()
        invariant
            i <= members.len(),
            kc@ == key@,
            member(members@.skip(i as int), key@) == member(members@, key@),
        decreases members.len() - i,
    {
        proof {
            assert(members@.skip(i as int)[0] == members@[i as int]);
            assert(members@.skip(i as int).drop_first() =~= members@.skip(i + 1));
        }
        let name = string_chars(&members[i].0);
        if chars_eq(name.as_slice(), kc.as_slice()) {
            return Some(&members[i].1);
        }
        i += 1;
    }
    assert(members@.skip(i as int) =~= Seq::<(String, JsonValue)>::empty());
    None
}

fn lookup_field<'a>(root: &'a JsonValue, path: &Vec<&str>) -> (r: Option<&'a JsonValue>)
    ensures
        match r {
            Some(x) => lookup(*root, strs_view(path@)) == Some(*x),
            None => lookup(*root, strs_view(path@)) is None,
        },
{
    let ghost p = strs_view(path@);
    let mut cursor = root;
    let mut i: usize = 0;
    assert(p.skip(0) =~= p);
    while i < path.len()
        invariant
            i <= path.len(),
            p == strs_view(path@),
            lookup(*root, p) == lookup(*cursor, p.skip(i as int)),
        decreases path.len() - i,
    {
        proof {
            assert(p.skip(i as int)[0] == path@[i as int]@);
            assert(p.skip(i as int).drop_first() =~= p.skip(i + 1));
        }
        match cursor {
            JsonValue::Object(members) => match find_member(members, path[i]) {
                Some(child) => {
                    cursor = child;
                },
                None => {
                    return None;
                },
            },
            _ => {
                return None;
            },
        }
        i += 1;
    }
    assert(p.skip(i as int) =~= Seq::<Seq<char>>::empty());
    Some(cursor)
}

fn field_path(path: &Vec<&str>) -> (r: String)
    ensures
        r@ == path_name(strs_view(path@)),
{
    let ghost p = strs_view(path@);
    let mut out: Vec<char> = Vec::new();
    let mut i: usize = 0;
    while i < path.len()
        invariant
            i <= path.len(),
            p == strs_view(path@),
            out@ == join(p.take(i as int), "."@),
        decreases path.len() - i,
    {
        proof {
            crate::text::lemma_join_push(p.take(i as int), "."@, p[i as int]);
            assert(p.take(i + 1) =~= p.take(i as int).push(p[i as int]));
        }
        if i > 0 {
            extend_str(&mut out, ".");
        }
        extend_str(&mut out, path[i]);
        i += 1;
    }
    assert(p.take(path.len() as int) =~= p);
    chars_to_string(out.as_slice())
}

fn ensure_required_field<'a>(root: &'a JsonValue, path: &Vec<&str>) -> (r: Result<&'a JsonValue, OmPromptContractParseError>)
    ensures
        match r {
            Ok(x) => required(*root, strs_view(path@)) == Ok::<JsonValue, ParseErrorView>(*x),
            Err(e) => required(*root, strs_view(path@)) == Err::<JsonValue, ParseErrorView>(error_view(e)),
        },
{
    match lookup_field(root, path) {
        Some(value) => match value {
            JsonValue::Null => Err(OmPromptContractParseError::MissingRequiredField { field: field_path(path) }),
            _ => Ok(value),
        },
        None => Err(OmPromptContractParseError::MissingRequiredField { field: field_path(path) }),
    }
}

fn ensure_string_field(root: &JsonValue, path: &Vec<&str>) -> (r: Result<String, OmPromptContractParseError>)
    ensures
        match r {
            Ok(s) => required_string(*root, strs_view(path@)) == Ok::<Seq<char>, ParseErrorView>(s@),
            Err(e) => required_string(*root, strs_view(path@)) == Err::<Seq<char>, ParseErrorView>(error_view(e)),
        },
{
    match ensure_required_field(root, path) {
        Ok(value) => match value {
            JsonValue::String(s) => Ok(s.clone()),
            _ => Err(OmPromptContractParseError::InvalidFieldType { field: field_path(path) }),
        },
        Err(e) => Err(e),
    }
}

fn ensure_required_fields(root: &JsonValue, paths: &Vec<Vec<&str>>) -> (r: Result<(), OmPromptContractParseError>)
    ensures
        result_view(r) == first_missing(*root, paths@.map_values(|p: Vec<&str>| strs_view(p@))),
{
    let ghost ps = paths@.map_values(|p: Vec<&str>| strs_view(p@));
    let mut i: usize = 0;
    assert(ps.skip(0) =~= ps);
    while i < paths.len()
        invariant
            i <= paths.len(),
            ps == paths@.map_values(|p: Vec<&str>| strs_view(p@)),
            first_missing(*root, ps) == first_missing(*root, ps.skip(i as int)),
        decreases paths.len() - i,
    {
        proof {
            assert(ps.skip(i as int)[0] == strs_view(paths@[i as int]@));
            assert(ps.skip(i as int).drop_first() =~= ps.skip(i + 1));
        }
        match ensure_required_field(root, &paths[i]) {
            Ok(_) => {},
            Err(e) => {
                return Err(e);
            },
        }
        i += 1;
    }
    assert(ps.skip(i as int) =~= Seq::<Seq<Seq<char>>>::empty());
    Ok(())
}

fn path1(a: &'static str) -> (r: Vec<&'static str>)
    ensures
        strs_view(r@) == seq![a@],
{
    let mut v: Vec<&'static str> = Vec::new();
    v.push(a);
    assert(strs_view(v@) =~= seq![a@]);
    v
}

fn path2(a: &'static str, b: &'static str) -> (r: Vec<&'static str>)
    ensures
        strs_view(r@) == seq![a@, b@],
{
    let mut v: Vec<&'static str> = Vec::new();
    v.push(a);
    v.push(b);
    assert(strs_view(v@) =~= seq![a@, b@]);
    v
}

// ---------------------------------------------------------------------------
// Contract checks
// ---------------------------------------------------------------------------

pub open spec fn header_paths() -> Seq<Seq<Seq<char>>> {
    seq![
        seq!["header"@],
        seq!["header"@, "contract_name"@],
        seq!["header"@, "contract_version"@],
        seq!["header"@, "protocol_version"@],
        seq!["header"@, "request_kind"@],
        seq!["header"@, "scope"@],
        seq!["header"@, "scope_key"@],
    ]
}

/// The header check: every header field present, then the contract name,
/// contract version and protocol version equal to this library's, then the
/// request kind equal to the expected one when one is expected.
pub open spec fn header_check(v: JsonValue, expected: Option<OmPromptRequestKind>) -> Result<(), ParseErrorView> {
    match first_missing(v, header_paths()) {
        Err(e) => Err(e),
        Ok(()) => match required_string(v, seq!["header"@, "contract_name"@]) {
            Err(e) => Err(e),
            Ok(name) => if name != OM_PROMPT_CONTRACT_NAME@ {
                Err(ParseErrorView::ContractNameMismatch(OM_PROMPT_CONTRACT_NAME@, name))
            } else {
                match required_string(v, seq!["header"@, "contract_version"@]) {
                    Err(e) => Err(e),
                    Ok(version) => if version != OM_PROMPT_CONTRACT_VERSION@ {
                        Err(ParseErrorView::ContractVersionMismatch(OM_PROMPT_CONTRACT_VERSION@, version))
                    } else {
                        match required_string(v, seq!["header"@, "protocol_version"@]) {
                            Err(e) => Err(e),
                            Ok(protocol) => if protocol != OM_PROTOCOL_VERSION@ {
                                Err(ParseErrorView::ProtocolVersionMismatch(OM_PROTOCOL_VERSION@, protocol))
                            } else {
                                match expected {
                                    None => Ok(()),
                                    Some(kind) => match required_string(v, seq!["header"@, "request_kind"@]) {
                                        Err(e) => Err(e),
                                        Ok(actual) => if actual != kind.name() {
                                            Err(ParseErrorView::RequestKindMismatch(kind.name(), actual))
                                        } else {
                                            Ok(())
                                        },
                                    },
                                }
                            },
                        }
                    },
                }
            },
        },
    }
}

fn header_paths_exec() -> (r: Vec<Vec<&'static str>>)
    ensures
        r@.map_values(|p: Vec<&str>| strs_view(p@)) == header_paths(),
{
    let mut v: Vec<Vec<&'static str>> = Vec::new();
    v.push(path1("header"));
    v.push(path2("header", "contract_name"));
    v.push(path2("header", "contract_version"));
    v.push(path2("header", "protocol_version"));
    v.push(path2("header", "request_kind"));
    v.push(path2("header", "scope"));
    v.push(path2("header", "scope_key"));
    assert(v@.map_values(|p: Vec<&str>| strs_view(p@)) =~= header_paths());
    v
}

fn mismatch(expected: &str, actual: &String) -> (r: bool)
    ensures
        r == (actual@ != expected@),
{
    let e = str_to_chars(expected);
    let a = string_chars(actual);
    !chars_eq(a.as_slice(), e.as_slice())
}

pub fn validate_common_contract_header(value: &JsonValue, expected_request_kind: Option<OmPromptRequestKind>) -> (r: Result<(), OmPromptContractParseError>)
    ensures
        result_view(r) == header_check(*value, expected_request_kind),
{
    let paths = header_paths_exec();
    match ensure_required_fields(value, &paths) {
        Err(e) => {
            return Err(e);
        },
        Ok(()) => {},
    }
    let name = match ensure_string_field(value, &path2("header", "contract_name")) {
        Ok(s) => s,
        Err(e) => {
            return Err(e);
        },
    };
    if mismatch(OM_PROMPT_CONTRACT_NAME, &name) {
        return Err(
            OmPromptContractParseError::ContractNameMismatch {
                expected: OM_PROMPT_CONTRACT_NAME.to_string(),
                actual: name,
            },
        );
    }
    let version = match ensure_string_field(value, &path2("header", "contract_version")) {
        Ok(s) => s,
        Err(e) => {
            return Err(e);
        },
    };
    if mismatch(OM_PROMPT_CONTRACT_VERSION, &version) {
        return Err(
            OmPromptContractParseError::ContractVersionMismatch {
                expected: OM_PROMPT_CONTRACT_VERSION.to_string(),
                actual: version,
            },
        );
    }
    let protocol = match ensure_string_field(value, &path2("header", "protocol_version")) {
        Ok(s) => s,
        Err(e) => {
            return Err(e);
        },
    };
    if mismatch(OM_PROTOCOL_VERSION, &protocol) {
        return Err(
            OmPromptContractParseError::ProtocolVersionMismatch {
                expected: OM_PROTOCOL_VERSION.to_string(),
                actual: protocol,
            },
        );
    }
    match expected_request_kind {
        None => Ok(()),
        Some(kind) => {
            let actual = match ensure_string_field(value, &path2("header", "request_kind")) {
                Ok(s) => s,
                Err(e) => {
                    return Err(e);
                },
            };
            let expected_name = kind.as_str();
            if mismatch(expected_name, &actual) {
                Err(OmPromptContractParseError::RequestKindMismatch { expected: expected_name.to_string(), actual })
            } else {
                Ok(())
            }
        },
    }
}

pub open spec fn observer_paths() -> Seq<Seq<Seq<char>>> {
    seq![
        seq!["known_message_ids"@],
        seq!["has_other_conversation_context"@],
        seq!["skip_continuation_hints"@],
        seq!["limits"@],
        seq!["limits"@, "max_output_tokens"@],
        seq!["output_contract"@],
        seq!["output_contract"@, "format"@],
        seq!["output_contract"@, "required_sections"@],
        seq!["output_contract"@, "continuation_enabled"@],
    ]
}

pub open spec fn reflector_paths() -> Seq<Seq<Seq<char>>> {
    seq![
        seq!["generation_count"@],
        seq!["compression_level"@],
        seq!["skip_continuation_hints"@],
        seq!["limits"@],
        seq!["limits"@, "max_output_tokens"@],
        seq!["output_contract"@],
        seq!["output_contract"@, "format"@],
        seq!["output_contract"@, "required_sections"@],
        seq!["output_contract"@, "continuation_enabled"@],
    ]
}

fn body_paths_exec(reflector: bool) -> (r: Vec<Vec<&'static str>>)
    ensures
        r@.map_values(|p: Vec<&str>| strs_view(p@)) == if reflector {
            reflector_paths()
        } else {
            observer_paths()
        },
{
    let mut v: Vec<Vec<&'static str>> = Vec::new();
    if reflector {
        v.push(path1("generation_count"));
        v.push(path1("compression_level"));
    } else {
        v.push(path1("known_message_ids"));
        v.push(path1("has_other_conversation_context"));
    }
    v.push(path1("skip_continuation_hints"));
    v.push(path1("limits"));
    v.push(path2("limits", "max_output_tokens"));
    v.push(path1("output_contract"));
    v.push(path2("output_contract", "format"));
    v.push(path2("output_contract", "required_sections"));
    v.push(path2("output_contract", "continuation_enabled"));
    proof {
        if reflector {
            assert(v@.map_values(|p: Vec<&str>| strs_view(p@)) =~= reflector_paths());
        } else {
            assert(v@.map_values(|p: Vec<&str>| strs_view(p@)) =~= observer_paths());
        }
    }
    v
}

/// The checks an observer contract document passes before it is read: the
/// header, then every observer field present.
pub open spec fn observer_contract_check(v: JsonValue, expected: Option<OmPromptRequestKind>) -> Result<(), ParseErrorView> {
    match header_check(v, expected) {
        Err(e) => Err(e),
        Ok(()) => first_missing(v, observer_paths()),
    }
}

pub fn check_observer_prompt_contract(value: &JsonValue, expected_request_kind: Option<OmPromptRequestKind>) -> (r: Result<(), OmPromptContractParseError>)
    ensures
        result_view(r) == observer_contract_check(*value, expected_request_kind),
{
    match validate_common_contract_header(value, expected_request_kind) {
        Err(e) => Err(e),
        Ok(()) => {
            let paths = body_paths_exec(false);
            ensure_required_fields(value, &paths)
        },
    }
}

/// The checks a reflector contract document passes before it is read: the
/// header, with the reflector request kind, then every reflector field
/// present.
pub open spec fn reflector_contract_check(v: JsonValue) -> Result<(), ParseErrorView> {
    match header_check(v, Some(OmPromptRequestKind::Reflector)) {
        Err(e) => Err(e),
        Ok(()) => first_missing(v, reflector_paths()),
    }
}

pub fn check_reflector_prompt_contract(value: &JsonValue) -> (r: Result<(), OmPromptContractParseError>)
    ensures
        result_view(r) == reflector_contract_check(*value),
{
    match validate_common_contract_header(value, Some(OmPromptRequestKind::Reflector)) {
        Err(e) => Err(e),
        Ok(()) => {
            let paths = body_paths_exec(true);
            ensure_required_fields(value, &paths)
        },
    }
}


// ---------------------------------------------------------------------------
// Reading the JSON text
// ---------------------------------------------------------------------------

#[verifier::external_type_specification]
#[verifier::external_body]
pub struct ExSerdeJsonValue(serde_json::Value);

/// The document that `serde_json::from_str::<serde_json::Value>` reads from a
/// text, as a [`JsonValue`]; none when the text is not JSON.
pub uninterp spec fn json_text_value(text: Seq<char>) -> Option<JsonValue>;

/// Converts a `serde_json::Value` into a [`JsonValue`], variant by variant;
/// a number keeps the decimal text serde_json displays for it, an object its
/// members in serde_json's order.
#[verifier::external_body]
fn json_value_from_serde(value: &serde_json::Value) -> JsonValue {
    match value {
        serde_json::Value::Null => JsonValue::Null,
        serde_json::Value::Bool(b) => JsonValue::Bool(*b),
        serde_json::Value::Number(n) => JsonValue::Number(n.to_string()),
        serde_json::Value::String(t) => JsonValue::String(t.clone()),
        serde_json::Value::Array(items) => JsonValue::Array(items.iter().map(json_value_from_serde).collect()),
        serde_json::Value::Object(map) => JsonValue::Object(
            map.iter().map(|(key, item)| (key.clone(), json_value_from_serde(item))).collect(),
        ),
    }
}

/// Calls `serde_json::from_str::<serde_json::Value>` on the text. The
/// contract claims that the call succeeds exactly when the text has a
/// document under `json_text_value`, and that the document returned is that
/// one; which texts are JSON, and the wording of serde_json's error, are
/// serde_json's.
#[verifier::external_body]
pub(crate) fn parse_json_text(text: &str) -> (r: Result<JsonValue, String>)
    ensures
        r is Ok <==> json_text_value(text@) is Some,
        r matches Ok(v) ==> json_text_value(text@) == Some(v),
{
    serde_json::from_str::<serde_json::Value>(text)
        .map(|value| json_value_from_serde(&value))
        .map_err(|error| error.to_string())
}

/// Reads an observer contract from its JSON text and checks it: text that is
/// not JSON is `InvalidJson`; a document is returned when it passes the
/// observer checks, else their first error.
pub fn check_observer_prompt_contract_text(contract_json: &str, expected_request_kind: Option<OmPromptRequestKind>) -> (r: Result<JsonValue, OmPromptContractParseError>)
    ensures
        json_text_value(contract_json@) is None ==> (r matches Err(e) && error_view(e) is InvalidJson),
        json_text_value(contract_json@) matches Some(v) ==> match r {
            Ok(w) => w == v && observer_contract_check(v, expected_request_kind) is Ok,
            Err(e) => observer_contract_check(v, expected_request_kind) == Err::<(), ParseErrorView>(error_view(e)),
        },
{
    match parse_json_text(contract_json) {
        Err(reason) => Err(OmPromptContractParseError::InvalidJson { reason }),
        Ok(value) => match check_observer_prompt_contract(&value, expected_request_kind) {
            Err(e) => Err(e),
            Ok(()) => Ok(value),
        },
    }
}

/// Reads a reflector contract from its JSON text and checks it: text that
/// is not JSON is `InvalidJson`; a document is returned when it passes the
/// reflector checks, else their first error.
pub fn check_reflector_prompt_contract_text(contract_json: &str) -> (r: Result<JsonValue, OmPromptContractParseError>)
    ensures
        json_text_value(contract_json@) is None ==> (r matches Err(e) && error_view(e) is InvalidJson),
        json_text_value(contract_json@) matches Some(v) ==> match r {
            Ok(w) => w == v && reflector_contract_check(v) is Ok,
            Err(e) => reflector_contract_check(v) == Err::<(), ParseErrorView>(error_view(e)),
        },
{
    match parse_json_text(contract_json) {
        Err(reason) => Err(OmPromptContractParseError::InvalidJson { reason }),
        Ok(value) => match check_reflector_prompt_contract(&value) {
            Err(e) => Err(e),
            Ok(()) => Ok(value),
        },
    }
}

} // verus!
