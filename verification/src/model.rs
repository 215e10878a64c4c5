//! Memory records, observation entries, continuation state and the
//! invariants that stored values must satisfy.
//!
//! Instants are held as nanoseconds since the Unix epoch (UTC).

use vstd::prelude::*;
use crate::text::{is_blank, starts_with, str_to_chars, string_chars, trim, trim_bounds, copy_range, chars_eq, chars_to_string, occurs_at_exec, starts_with_str};
use crate::time::{is_rfc3339, rfc3339_valid};

verus! {

#[derive(Debug, Clone, Copy, PartialEq, Eq, Structural)]
pub enum OmScope {
    Session,
    Thread,
    Resource,
}

impl OmScope {
    /// Lower-case name of the scope.
    pub open spec fn name(self) -> Seq<char> {
        match self {
            OmScope::Session => "session"@,
            OmScope::Thread => "thread"@,
            OmScope::Resource => "resource"@,
        }
    }

    pub fn as_str(self) -> (r: &'static str)
        ensures
            r@ == self.name(),
    {
        match self {
            OmScope::Session => "session",
            OmScope::Thread => "thread",
            OmScope::Resource => "resource",
        }
    }

    /// The scope whose name is exactly `raw`.
    pub open spec fn from_name(raw: Seq<char>) -> Option<OmScope> {
        if raw == "session"@ {
            Some(OmScope::Session)
        } else if raw == "thread"@ {
            Some(OmScope::Thread)
        } else if raw == "resource"@ {
            Some(OmScope::Resource)
        } else {
            None
        }
    }

    pub fn parse(raw: &str) -> (r: Option<OmScope>)
        ensures
            r == OmScope::from_name(raw@),
    {
        let v = str_to_chars(raw);
        if str_is(&v, "session") {
            Some(OmScope::Session)
        } else if str_is(&v, "thread") {
            Some(OmScope::Thread)
        } else if str_is(&v, "resource") {
            Some(OmScope::Resource)
        } else {
            None
        }
    }
}

/// Whether the characters `v` spell `lit`.
pub fn str_is(v: &Vec<char>, lit: &str) -> (r: bool)
    ensures
        r == (v@ == lit@),
{
    let l = str_to_chars(lit);
    chars_eq(v.as_slice(), l.as_slice())
}

#[derive(Debug, Clone, Copy, PartialEq, Eq, Structural)]
pub enum OmOriginType {
    Initial,
    Reflection,
}

impl OmOriginType {
    pub open spec fn name(self) -> Seq<char> {
        match self {
            OmOriginType::Initial => "initial"@,
            OmOriginType::Reflection => "reflection"@,
        }
    }

    pub fn as_str(self) -> (r: &'static str)
        ensures
            r@ == self.name(),
    {
        match self {
            OmOriginType::Initial => "initial",
            OmOriginType::Reflection => "reflection",
        }
    }

    pub open spec fn from_name(raw: Seq<char>) -> Option<OmOriginType> {
        if raw == "initial"@ {
            Some(OmOriginType::Initial)
        } else if raw == "reflection"@ {
            Some(OmOriginType::Reflection)
        } else {
            None
        }
    }

    pub fn parse(raw: &str) -> (r: Option<OmOriginType>)
        ensures
            r == OmOriginType::from_name(raw@),
    {
        let v = str_to_chars(raw);
        if str_is(&v, "initial") {
            Some(OmOriginType::Initial)
        } else if str_is(&v, "reflection") {
            Some(OmOriginType::Reflection)
        } else {
            None
        }
    }
}

/// The stored memory of one scope.
#[derive(Debug, Clone, PartialEq, Eq)]
pub struct OmRecord {
    pub id: String,
    pub scope: OmScope,
    pub scope_key: String,
    pub session_id: Option<String>,
    pub thread_id: Option<String>,
    pub resource_id: Option<String>,
    pub generation_count: u32,
    pub last_applied_outbox_event_id: Option<i64>,
    pub origin_type: OmOriginType,
    pub active_observations: String,
    pub observation_token_count: u32,
    pub pending_message_tokens: u32,
    pub last_observed_at: Option<i128>,
    pub current_task: Option<String>,
    pub suggested_response: Option<String>,
    pub last_activated_message_ids: Vec<String>,
    pub observer_trigger_count_total: u32,
    pub reflector_trigger_count_total: u32,
    pub is_observing: bool,
    pub is_reflecting: bool,
    pub is_buffering_observation: bool,
    pub is_buffering_reflection: bool,
    pub last_buffered_at_tokens: u32,
    pub last_buffered_at_time: Option<i128>,
    pub buffered_reflection: Option<String>,
    pub buffered_reflection_tokens: Option<u32>,
    pub buffered_reflection_input_tokens: Option<u32>,
    pub reflected_observation_line_count: Option<u32>,
    pub created_at: i128,
    pub updated_at: i128,
}

/// Observations buffered by one observer cycle, awaiting activation.
#[derive(Debug, Clone, PartialEq, Eq)]
pub struct OmObservationChunk {
    pub id: String,
    pub record_id: String,
    pub seq: u32,
    pub cycle_id: String,
    pub observations: String,
    pub token_count: u32,
    pub message_tokens: u32,
    pub message_ids: Vec<String>,
    pub last_observed_at: i128,
    pub created_at: i128,
}

#[derive(Debug, Clone, PartialEq, Eq)]
pub struct OmThreadRefV2 {
    pub canonical_thread_id: String,
    pub scope: OmScope,
    pub scope_key: String,
    pub origin_thread_id: Option<String>,
    pub origin_session_id: Option<String>,
    pub resource_id: Option<String>,
}

#[derive(Debug, Clone, Copy, PartialEq, Eq, Structural)]
pub enum OmContinuationSourceKind {
    ObserverLlm,
    ObserverDeterministic,
    Reflector,
    ExplicitUserTask,
}

#[derive(Debug, Clone, PartialEq, Eq)]
pub struct OmContinuationStateV2 {
    pub scope_key: String,
    pub thread_id: String,
    pub current_task: Option<String>,
    pub suggested_response: Option<String>,
    pub confidence_milli: u16,
    pub source_kind: OmContinuationSourceKind,
    pub source_message_ids: Vec<String>,
    pub updated_at_rfc3339: String,
    pub staleness_budget_ms: u64,
}

#[derive(Debug, Clone, PartialEq, Eq)]
pub struct OmContinuationCandidateV2 {
    pub scope_key: String,
    pub thread_id: String,
    pub current_task: Option<String>,
    pub suggested_response: Option<String>,
    pub confidence_milli: u16,
    pub source_kind: OmContinuationSourceKind,
    pub source_message_ids: Vec<String>,
    pub updated_at_rfc3339: String,
    pub staleness_budget_ms: u64,
}

#[derive(Debug, Clone, Copy, PartialEq, Eq, Structural)]
pub struct ContinuationPolicyV2 {
    pub min_confidence_milli_for_task: u16,
    pub min_confidence_milli_for_suggested_response: u16,
    pub preserve_existing_task_on_weaker_update: bool,
    pub only_improve_suggested_response: bool,
}

impl ContinuationPolicyV2 {
    pub open spec fn default_policy() -> ContinuationPolicyV2 {
        ContinuationPolicyV2 {
            min_confidence_milli_for_task: 500,
            min_confidence_milli_for_suggested_response: 700,
            preserve_existing_task_on_weaker_update: true,
            only_improve_suggested_response: true,
        }
    }
}

impl Default for ContinuationPolicyV2 {
    fn default() -> (r: Self)
        ensures
            r == ContinuationPolicyV2::default_policy(),
    {
        ContinuationPolicyV2 {
            min_confidence_milli_for_task: 500,
            min_confidence_milli_for_suggested_response: 700,
            preserve_existing_task_on_weaker_update: true,
            only_improve_suggested_response: true,
        }
    }
}

#[derive(Debug, Clone, Copy, PartialEq, Eq, Structural)]
pub enum OmObservationPriority {
    High,
    Medium,
    Low,
}

#[derive(Debug, Clone, Copy, PartialEq, Eq, Structural)]
pub enum OmObservationOriginKind {
    Observation,
    Chunk,
    Summary,
    Reflection,
}

#[derive(Debug, Clone, PartialEq, Eq)]
pub struct OmObservationEntryV2 {
    pub entry_id: String,
    pub scope_key: String,
    pub thread_id: String,
    pub priority: OmObservationPriority,
    pub text: String,
    pub source_message_ids: Vec<String>,
    pub origin_kind: OmObservationOriginKind,
    pub created_at_rfc3339: String,
    pub superseded_by: Option<String>,
}

#[derive(Debug, Clone, PartialEq, Eq)]
pub struct OmReflectionResponseV2 {
    pub covers_entry_ids: Vec<String>,
    pub reflection_text: String,
    pub current_task: Option<String>,
    pub suggested_response: Option<String>,
}

#[derive(Debug, Clone, Copy, PartialEq, Eq, Structural)]
pub enum OmDeterministicEvidenceKind {
    TaskSignal,
    ErrorSignal,
    ObservationLine,
}

#[derive(Debug, Clone, PartialEq, Eq)]
pub struct OmDeterministicEvidence {
    pub message_id: String,
    pub role: String,
    pub kind: OmDeterministicEvidenceKind,
    pub excerpt: String,
}

#[derive(Debug, Clone, PartialEq, Eq)]
pub struct OmDeterministicObserverResponseV2 {
    pub observations: String,
    pub observation_token_count: u32,
    pub observed_message_ids: Vec<String>,
    pub current_task: Option<String>,
    pub suggested_response: Option<String>,
    pub confidence_milli: u16,
    pub evidence: Vec<OmDeterministicEvidence>,
}

pub const OM_SEARCH_VISIBLE_SNAPSHOT_V2_VERSION: &'static str = "om-search-visible-snapshot-v2";

#[derive(Debug, Clone, PartialEq, Eq)]
pub struct OmSearchVisibleSnapshotV2 {
    pub scope_key: String,
    pub activated_entry_ids: Vec<String>,
    pub buffered_entry_ids: Vec<String>,
    pub current_task: Option<String>,
    pub suggested_response: Option<String>,
    pub rendered_hint: Option<String>,
    pub materialized_at_rfc3339: String,
    pub snapshot_version: String,
    pub visible_entries: Vec<OmObservationEntryV2>,
}

#[derive(Debug, Clone, Copy, PartialEq, Eq, Structural)]
pub struct OmHintPolicyV2 {
    pub max_lines: usize,
    pub max_chars: usize,
    pub reserve_current_task_line: bool,
    pub reserve_suggested_response_line: bool,
    pub high_priority_slots: usize,
    pub include_buffered_entries: bool,
}

impl OmHintPolicyV2 {
    pub open spec fn default_policy() -> OmHintPolicyV2 {
        OmHintPolicyV2 {
            max_lines: 4,
            max_chars: 240,
            reserve_current_task_line: true,
            reserve_suggested_response_line: true,
            high_priority_slots: 1,
            include_buffered_entries: true,
        }
    }
}

impl Default for OmHintPolicyV2 {
    fn default() -> (r: Self)
        ensures
            r == OmHintPolicyV2::default_policy(),
    {
        OmHintPolicyV2 {
            max_lines: 4,
            max_chars: 240,
            reserve_current_task_line: true,
            reserve_suggested_response_line: true,
            high_priority_slots: 1,
            include_buffered_entries: true,
        }
    }
}

// ---------------------------------------------------------------------------
// Record invariants
// ---------------------------------------------------------------------------

#[derive(Debug, Clone, PartialEq, Eq)]
pub enum OmRecordInvariantViolation {
    MissingScopeIdentifier { field: &'static str },
    EmptyIdentifier { field: &'static str },
    EmptyScopeKey,
    ScopeKeyPrefixMismatch { expected_prefix: &'static str },
    ScopeKeyIdentifierMismatch { expected_identifier: String, actual_identifier: String },
    EmptyBufferedReflection,
    BufferedReflectionMetadataWithoutText { field: &'static str },
}

/// A record violation with its texts as character sequences.
pub enum RecordViolation {
    MissingScopeIdentifier(Seq<char>),
    EmptyIdentifier(Seq<char>),
    EmptyScopeKey,
    ScopeKeyPrefixMismatch(Seq<char>),
    ScopeKeyIdentifierMismatch(Seq<char>, Seq<char>),
    EmptyBufferedReflection,
    BufferedReflectionMetadataWithoutText(Seq<char>),
}

impl View for OmRecordInvariantViolation {
    type V = RecordViolation;

    open spec fn view(&self) -> RecordViolation {
        match self {
            OmRecordInvariantViolation::MissingScopeIdentifier { field } => RecordViolation::MissingScopeIdentifier(field@),
            OmRecordInvariantViolation::EmptyIdentifier { field } => RecordViolation::EmptyIdentifier(field@),
            OmRecordInvariantViolation::EmptyScopeKey => RecordViolation::EmptyScopeKey,
            OmRecordInvariantViolation::ScopeKeyPrefixMismatch { expected_prefix } => RecordViolation::ScopeKeyPrefixMismatch(expected_prefix@),
            OmRecordInvariantViolation::ScopeKeyIdentifierMismatch {
                expected_identifier,
                actual_identifier,
            } => RecordViolation::ScopeKeyIdentifierMismatch(expected_identifier@, actual_identifier@),
            OmRecordInvariantViolation::EmptyBufferedReflection => RecordViolation::EmptyBufferedReflection,
            OmRecordInvariantViolation::BufferedReflectionMetadataWithoutText { field } => RecordViolation::BufferedReflectionMetadataWithoutText(field@),
        }
    }
}

/// The trimmed text of an optional value.
pub open spec fn opt_trim(o: Option<String>) -> Option<Seq<char>> {
    match o {
        Some(s) => Some(trim(s@)),
        None => None,
    }
}

/// `Some(s)` only when `s` is not empty.
pub open spec fn non_empty(o: Option<Seq<char>>) -> Option<Seq<char>> {
    match o {
        Some(s) => if s.len() > 0 {
            Some(s)
        } else {
            None
        },
        None => None,
    }
}

/// The one-element sequence `[v]` when `b` holds, else the empty sequence.
pub open spec fn when<T>(b: bool, v: T) -> Seq<T> {
    if b {
        seq![v]
    } else {
        Seq::empty()
    }
}

/// Field name, identifier and key prefix that a scope requires.
pub open spec fn scope_requirement(record: OmRecord) -> (Option<Seq<char>>, Seq<char>, Seq<char>) {
    match record.scope {
        OmScope::Session => (non_empty(opt_trim(record.session_id)), "session_id"@, "session:"@),
        OmScope::Thread => (non_empty(opt_trim(record.thread_id)), "thread_id"@, "thread:"@),
        OmScope::Resource => (non_empty(opt_trim(record.resource_id)), "resource_id"@, "resource:"@),
    }
}

/// Scope-key violations: empty key, wrong prefix, or an identifier after the
/// prefix that differs from the record's own identifier.
pub open spec fn scope_key_violations(record: OmRecord) -> Seq<RecordViolation> {
    let (required, _field, prefix) = scope_requirement(record);
    let key = trim(record.scope_key@);
    if key.len() == 0 {
        seq![RecordViolation::EmptyScopeKey]
    } else if !starts_with(key, prefix) {
        seq![RecordViolation::ScopeKeyPrefixMismatch(prefix)]
    } else {
        match required {
            Some(expected) => {
                let actual = trim(key.skip(prefix.len() as int));
                when(actual != expected, RecordViolation::ScopeKeyIdentifierMismatch(expected, actual))
            },
            None => Seq::empty(),
        }
    }
}

/// Whether the record holds a non-blank buffered reflection.
pub open spec fn has_buffered_reflection_text(record: OmRecord) -> bool {
    match record.buffered_reflection {
        Some(b) => trim(b@).len() > 0,
        None => false,
    }
}

/// All violations of a record, in the order they are reported.
pub open spec fn record_violations(record: OmRecord) -> Seq<RecordViolation> {
    let (required, field, _prefix) = scope_requirement(record);
    let has_text = has_buffered_reflection_text(record);
    when(opt_trim(record.session_id) == Some(Seq::<char>::empty()), RecordViolation::EmptyIdentifier("session_id"@))
        + when(opt_trim(record.thread_id) == Some(Seq::<char>::empty()), RecordViolation::EmptyIdentifier("thread_id"@))
        + when(opt_trim(record.resource_id) == Some(Seq::<char>::empty()), RecordViolation::EmptyIdentifier("resource_id"@))
        + when(required is None, RecordViolation::MissingScopeIdentifier(field))
        + scope_key_violations(record)
        + when(record.buffered_reflection is Some && !has_text, RecordViolation::EmptyBufferedReflection)
        + when(!has_text && record.buffered_reflection_tokens is Some,
            RecordViolation::BufferedReflectionMetadataWithoutText("buffered_reflection_tokens"@))
        + when(!has_text && record.buffered_reflection_input_tokens is Some,
            RecordViolation::BufferedReflectionMetadataWithoutText("buffered_reflection_input_tokens"@))
}

/// Trimmed characters of an optional string.
pub fn opt_trimmed(o: &Option<String>) -> (r: Option<Vec<char>>)
    ensures
        r matches Some(v) ==> opt_trim(*o) == Some(v@),
        r is None <==> o is None,
{
    match o {
        Some(s) => {
            let v = string_chars(s);
            let (a, b) = trim_bounds(v.as_slice());
            Some(copy_range(v.as_slice(), a, b))
        },
        None => None,
    }
}

/// Appends `v` to `out` when `b` holds.
fn push_record_violation(out: &mut Vec<OmRecordInvariantViolation>, b: bool, v: OmRecordInvariantViolation)
    ensures
        final(out)@.map_values(|x: OmRecordInvariantViolation| x@) == old(out)@.map_values(
            |x: OmRecordInvariantViolation| x@,
        ) + when(b, v@),
{
    let ghost v_view = v@;
    if b {
        out.push(v);
        assert(out@.map_values(|x: OmRecordInvariantViolation| x@) =~= old(out)@.map_values(
            |x: OmRecordInvariantViolation| x@,
        ).push(v_view));
    }
    assert(old(out)@.map_values(|x: OmRecordInvariantViolation| x@) + when(b, v_view) =~= out@.map_values(
        |x: OmRecordInvariantViolation| x@,
    ));
}

/// Whether an optional trimmed identifier is present but empty.
fn is_present_empty(o: &Option<Vec<char>>) -> (r: bool)
    ensures
        r == (o matches Some(v) && v@.len() == 0),
{
    match o {
        Some(v) => v.len() == 0,
        None => false,
    }
}

/// The identifier when present and not empty.
fn keep_non_empty(o: Option<Vec<char>>) -> (r: Option<Vec<char>>)
    ensures
        r matches Some(v) ==> o matches Some(w) && w@ == v@ && v@.len() > 0,
        r is None ==> (o is None || o->0@.len() == 0),
{
    match o {
        Some(v) => if v.len() > 0 {
            Some(v)
        } else {
            None
        },
        None => None,
    }
}

/// The violation, if any, of a scope key against a prefix and an identifier.
fn check_scope_key(scope_key: &String, required: &Option<Vec<char>>, prefix: &'static str) -> (r: Option<OmRecordInvariantViolation>)
    ensures
        ({
            let key = trim(scope_key@);
            let req = match required {
                Some(v) => Some(v@),
                None => None,
            };
            let expected = if key.len() == 0 {
                seq![RecordViolation::EmptyScopeKey]
            } else if !starts_with(key, prefix@) {
                seq![RecordViolation::ScopeKeyPrefixMismatch(prefix@)]
            } else {
                match req {
                    Some(e) => {
                        let actual = trim(key.skip(prefix@.len() as int));
                        when(actual != e, RecordViolation::ScopeKeyIdentifierMismatch(e, actual))
                    },
                    None => Seq::empty(),
                }
            };
            match r {
                Some(v) => expected == seq![v@],
                None => expected.len() == 0,
            }
        }),
{
    let key_all = string_chars(scope_key);
    let (ka, kb) = trim_bounds(key_all.as_slice());
    let key = copy_range(key_all.as_slice(), ka, kb);
    let prefix_v = str_to_chars(prefix);
    if key.len() == 0 {
        Some(OmRecordInvariantViolation::EmptyScopeKey)
    } else if !occurs_at_exec(key.as_slice(), prefix_v.as_slice(), 0) {
        Some(OmRecordInvariantViolation::ScopeKeyPrefixMismatch { expected_prefix: prefix })
    } else {
        match required {
            Some(expected) => {
                let rest = copy_range(key.as_slice(), prefix_v.len(), key.len());
                assert(rest@ =~= key@.skip(prefix_v@.len() as int));
                let (ra, rb) = trim_bounds(rest.as_slice());
                let actual = copy_range(rest.as_slice(), ra, rb);
                if !chars_eq(actual.as_slice(), expected.as_slice()) {
                    Some(OmRecordInvariantViolation::ScopeKeyIdentifierMismatch {
                        expected_identifier: chars_to_string(expected.as_slice()),
                        actual_identifier: chars_to_string(actual.as_slice()),
                    })
                } else {
                    None
                }
            },
            None => None,
        }
    }
}

/// The violations of a record, in reporting order.
pub fn validate_om_record_invariants(record: &OmRecord) -> (r: Vec<OmRecordInvariantViolation>)
    ensures
        r@.map_values(|v: OmRecordInvariantViolation| v@) == record_violations(*record),
{
    let mut out: Vec<OmRecordInvariantViolation> = Vec::new();
    let session = opt_trimmed(&record.session_id);
    let thread = opt_trimmed(&record.thread_id);
    let resource = opt_trimmed(&record.resource_id);
    proof {
        reveal_strlit("session_id");
        reveal_strlit("thread_id");
        reveal_strlit("resource_id");
        reveal_strlit("session:");
        reveal_strlit("thread:");
        reveal_strlit("resource:");
        reveal_strlit("buffered_reflection_tokens");
        reveal_strlit("buffered_reflection_input_tokens");
    }
    let ghost s0 = out@.map_values(|x: OmRecordInvariantViolation| x@);
    assert(s0 =~= Seq::<RecordViolation>::empty());
    let e1 = is_present_empty(&session);
    assert(e1 == (opt_trim(record.session_id) == Some(Seq::<char>::empty()))) by {
        if let Some(v) = session { if v@.len() == 0 { assert(v@ =~= Seq::<char>::empty()); } }
    }
    let e2 = is_present_empty(&thread);
    assert(e2 == (opt_trim(record.thread_id) == Some(Seq::<char>::empty()))) by {
        if let Some(v) = thread { if v@.len() == 0 { assert(v@ =~= Seq::<char>::empty()); } }
    }
    let e3 = is_present_empty(&resource);
    assert(e3 == (opt_trim(record.resource_id) == Some(Seq::<char>::empty()))) by {
        if let Some(v) = resource { if v@.len() == 0 { assert(v@ =~= Seq::<char>::empty()); } }
    }
    push_record_violation(&mut out, e1, OmRecordInvariantViolation::EmptyIdentifier { field: "session_id" });
    push_record_violation(&mut out, e2, OmRecordInvariantViolation::EmptyIdentifier { field: "thread_id" });
    push_record_violation(&mut out, e3, OmRecordInvariantViolation::EmptyIdentifier { field: "resource_id" });
    let (required, field, prefix): (Option<Vec<char>>, &'static str, &'static str) = match record.scope {
        OmScope::Session => (keep_non_empty(session), "session_id", "session:"),
        OmScope::Thread => (keep_non_empty(thread), "thread_id", "thread:"),
        OmScope::Resource => (keep_non_empty(resource), "resource_id", "resource:"),
    };
    let ghost req = scope_requirement(*record);
    assert(req.1 == field@);
    assert(req.2 == prefix@);
    assert(required is None <==> req.0 is None);
    assert(required matches Some(v) ==> req.0 == Some(v@));
    push_record_violation(&mut out, required.is_none(), OmRecordInvariantViolation::MissingScopeIdentifier { field });
    let ghost s1 = out@.map_values(|x: OmRecordInvariantViolation| x@);
    let key_violation = check_scope_key(&record.scope_key, &required, prefix);
    match key_violation {
        Some(v) => {
            push_record_violation(&mut out, true, v);
        },
        None => {},
    }
    let ghost s2 = out@.map_values(|x: OmRecordInvariantViolation| x@);
    assert(s2 =~= s1 + scope_key_violations(*record));
    let has_text = match &record.buffered_reflection {
        Some(b) => {
            let bv = string_chars(b);
            !is_blank(bv.as_slice())
        },
        None => false,
    };
    assert(has_text == has_buffered_reflection_text(*record));
    push_record_violation(&mut out, record.buffered_reflection.is_some() && !has_text, OmRecordInvariantViolation::EmptyBufferedReflection);
    push_record_violation(&mut out, !has_text && record.buffered_reflection_tokens.is_some(),
        OmRecordInvariantViolation::BufferedReflectionMetadataWithoutText { field: "buffered_reflection_tokens" });
    push_record_violation(&mut out, !has_text && record.buffered_reflection_input_tokens.is_some(),
        OmRecordInvariantViolation::BufferedReflectionMetadataWithoutText { field: "buffered_reflection_input_tokens" });
    assert(out@.map_values(|x: OmRecordInvariantViolation| x@) =~= record_violations(*record));
    out
}

// ---------------------------------------------------------------------------
// Observation entry and snapshot invariants
// ---------------------------------------------------------------------------

#[derive(Debug, Clone, PartialEq, Eq)]
pub enum OmObservationEntryInvariantViolation {
    EmptyField { field: &'static str },
    InvalidRfc3339 { field: &'static str, value: String },
    EmptySourceMessageId,
    EmptySupersededBy,
}

/// An entry violation with its texts as character sequences.
pub enum EntryViolation {
    EmptyField(Seq<char>),
    InvalidRfc3339(Seq<char>, Seq<char>),
    EmptySourceMessageId,
    EmptySupersededBy,
}

impl View for OmObservationEntryInvariantViolation {
    type V = EntryViolation;

    open spec fn view(&self) -> EntryViolation {
        match self {
            OmObservationEntryInvariantViolation::EmptyField { field } => EntryViolation::EmptyField(field@),
            OmObservationEntryInvariantViolation::InvalidRfc3339 { field, value } => EntryViolation::InvalidRfc3339(field@, value@),
            OmObservationEntryInvariantViolation::EmptySourceMessageId => EntryViolation::EmptySourceMessageId,
            OmObservationEntryInvariantViolation::EmptySupersededBy => EntryViolation::EmptySupersededBy,
        }
    }
}

/// Whether the text is empty once trimmed.
pub open spec fn blank(s: Seq<char>) -> bool {
    trim(s).len() == 0
}

/// Whether some string of the list is blank.
pub open spec fn any_blank(ids: Seq<String>) -> bool {
    exists|i: int| 0 <= i < ids.len() && blank(#[trigger] ids[i]@)
}

/// Violations of a timestamp field: blank, or not RFC 3339.
pub open spec fn timestamp_violation(field: Seq<char>, value: Seq<char>) -> Seq<EntryViolation> {
    if blank(value) {
        seq![EntryViolation::EmptyField(field)]
    } else if !is_rfc3339(value) {
        seq![EntryViolation::InvalidRfc3339(field, value)]
    } else {
        Seq::empty()
    }
}

/// All violations of an observation entry, in reporting order.
pub open spec fn entry_violations(e: OmObservationEntryV2) -> Seq<EntryViolation> {
    when(blank(e.entry_id@), EntryViolation::EmptyField("entry_id"@))
        + when(blank(e.scope_key@), EntryViolation::EmptyField("scope_key"@))
        + when(blank(e.thread_id@), EntryViolation::EmptyField("thread_id"@))
        + when(blank(e.text@), EntryViolation::EmptyField("text"@))
        + timestamp_violation("created_at_rfc3339"@, e.created_at_rfc3339@)
        + when(any_blank(e.source_message_ids@), EntryViolation::EmptySourceMessageId)
        + when(e.superseded_by matches Some(v) && blank(v@), EntryViolation::EmptySupersededBy)
}

fn push_entry_violation(out: &mut Vec<OmObservationEntryInvariantViolation>, b: bool, v: OmObservationEntryInvariantViolation)
    ensures
        final(out)@.map_values(|x: OmObservationEntryInvariantViolation| x@) == old(out)@.map_values(
            |x: OmObservationEntryInvariantViolation| x@,
        ) + when(b, v@),
{
    let ghost v_view = v@;
    if b {
        out.push(v);
        assert(out@.map_values(|x: OmObservationEntryInvariantViolation| x@) =~= old(out)@.map_values(
            |x: OmObservationEntryInvariantViolation| x@,
        ).push(v_view));
    }
    assert(old(out)@.map_values(|x: OmObservationEntryInvariantViolation| x@) + when(b, v_view) =~= out@.map_values(
        |x: OmObservationEntryInvariantViolation| x@,
    ));
}

/// Whether a string is blank.
pub fn string_blank(s: &String) -> (r: bool)
    ensures
        r == blank(s@),
{
    let v = string_chars(s);
    is_blank(v.as_slice())
}

/// Whether some string of the list is blank.
pub fn strings_any_blank(ids: &Vec<String>) -> (r: bool)
    ensures
        r == any_blank(ids@),
{
    let mut i: usize = 0;
    while i < ids.len()
        invariant
            i <= ids.len(),
            forall|j: int| 0 <= j < i ==> !blank(#[trigger] ids@[j]@),
        decreases ids.len() - i,
    {
        if string_blank(&ids[i]) {
            return true;
        }
        i += 1;
    }
    false
}

/// Violation of a timestamp field, if any.
fn check_timestamp(field: &'static str, value: &String) -> (r: Option<OmObservationEntryInvariantViolation>)
    ensures
        match r {
            Some(v) => timestamp_violation(field@, value@) == seq![v@],
            None => timestamp_violation(field@, value@).len() == 0,
        },
{
    if string_blank(value) {
        Some(OmObservationEntryInvariantViolation::EmptyField { field })
    } else if !rfc3339_valid(value.as_str()) {
        Some(OmObservationEntryInvariantViolation::InvalidRfc3339 { field, value: value.clone() })
    } else {
        None
    }
}

/// The violations of an observation entry, in reporting order.
pub fn validate_observation_entry_v2_invariants(entry: &OmObservationEntryV2) -> (r: Vec<OmObservationEntryInvariantViolation>)
    ensures
        r@.map_values(|v: OmObservationEntryInvariantViolation| v@) == entry_violations(*entry),
{
    proof {
        reveal_strlit("entry_id");
        reveal_strlit("scope_key");
        reveal_strlit("thread_id");
        reveal_strlit("text");
        reveal_strlit("created_at_rfc3339");
    }
    let mut out: Vec<OmObservationEntryInvariantViolation> = Vec::new();
    assert(out@.map_values(|x: OmObservationEntryInvariantViolation| x@) =~= Seq::<EntryViolation>::empty());
    push_entry_violation(&mut out, string_blank(&entry.entry_id), OmObservationEntryInvariantViolation::EmptyField { field: "entry_id" });
    push_entry_violation(&mut out, string_blank(&entry.scope_key), OmObservationEntryInvariantViolation::EmptyField { field: "scope_key" });
    push_entry_violation(&mut out, string_blank(&entry.thread_id), OmObservationEntryInvariantViolation::EmptyField { field: "thread_id" });
    push_entry_violation(&mut out, string_blank(&entry.text), OmObservationEntryInvariantViolation::EmptyField { field: "text" });
    let ghost before_ts = out@.map_values(|x: OmObservationEntryInvariantViolation| x@);
    match check_timestamp("created_at_rfc3339", &entry.created_at_rfc3339) {
        Some(v) => push_entry_violation(&mut out, true, v),
        None => {},
    }
    assert(out@.map_values(|x: OmObservationEntryInvariantViolation| x@) =~= before_ts + timestamp_violation("created_at_rfc3339"@, entry.created_at_rfc3339@));
    push_entry_violation(&mut out, strings_any_blank(&entry.source_message_ids), OmObservationEntryInvariantViolation::EmptySourceMessageId);
    let superseded_blank = match &entry.superseded_by {
        Some(v) => string_blank(v),
        None => false,
    };
    push_entry_violation(&mut out, superseded_blank, OmObservationEntryInvariantViolation::EmptySupersededBy);
    assert(out@.map_values(|x: OmObservationEntryInvariantViolation| x@) =~= entry_violations(*entry));
    out
}

#[derive(Debug, Clone, PartialEq, Eq)]
pub enum OmSearchVisibleSnapshotInvariantViolation {
    EmptyField { field: &'static str },
    InvalidRfc3339 { field: &'static str, value: String },
    SnapshotVersionMismatch { expected: &'static str, actual: String },
    EmptyActivatedEntryId,
    EmptyBufferedEntryId,
    VisibleEntryScopeMismatch { entry_id: String, scope_key: String },
    VisibleEntryInvariant { entry_id: String, violation: OmObservationEntryInvariantViolation },
}

/// A snapshot violation with its texts as character sequences.
pub enum SnapshotViolation {
    EmptyField(Seq<char>),
    InvalidRfc3339(Seq<char>, Seq<char>),
    SnapshotVersionMismatch(Seq<char>, Seq<char>),
    EmptyActivatedEntryId,
    EmptyBufferedEntryId,
    VisibleEntryScopeMismatch(Seq<char>, Seq<char>),
    VisibleEntryInvariant(Seq<char>, EntryViolation),
}

impl View for OmSearchVisibleSnapshotInvariantViolation {
    type V = SnapshotViolation;

    open spec fn view(&self) -> SnapshotViolation {
        match self {
            OmSearchVisibleSnapshotInvariantViolation::EmptyField { field } => SnapshotViolation::EmptyField(field@),
            OmSearchVisibleSnapshotInvariantViolation::InvalidRfc3339 { field, value } => SnapshotViolation::InvalidRfc3339(field@, value@),
            OmSearchVisibleSnapshotInvariantViolation::SnapshotVersionMismatch { expected, actual } => SnapshotViolation::SnapshotVersionMismatch(expected@, actual@),
            OmSearchVisibleSnapshotInvariantViolation::EmptyActivatedEntryId => SnapshotViolation::EmptyActivatedEntryId,
            OmSearchVisibleSnapshotInvariantViolation::EmptyBufferedEntryId => SnapshotViolation::EmptyBufferedEntryId,
            OmSearchVisibleSnapshotInvariantViolation::VisibleEntryScopeMismatch { entry_id, scope_key } => SnapshotViolation::VisibleEntryScopeMismatch(entry_id@, scope_key@),
            OmSearchVisibleSnapshotInvariantViolation::VisibleEntryInvariant { entry_id, violation } => SnapshotViolation::VisibleEntryInvariant(entry_id@, violation@),
        }
    }
}

/// Header violations of a snapshot, as snapshot violations.
pub open spec fn lift_timestamp_violation(v: Seq<EntryViolation>) -> Seq<SnapshotViolation> {
    v.map_values(|x: EntryViolation| match x {
        EntryViolation::EmptyField(f) => SnapshotViolation::EmptyField(f),
        EntryViolation::InvalidRfc3339(f, value) => SnapshotViolation::InvalidRfc3339(f, value),
        _ => SnapshotViolation::EmptyActivatedEntryId,
    })
}

/// Violations reported for one visible entry of a snapshot.
pub open spec fn visible_entry_violations(e: OmObservationEntryV2, scope_key: Seq<char>) -> Seq<SnapshotViolation> {
    when(trim(e.scope_key@) != trim(scope_key), SnapshotViolation::VisibleEntryScopeMismatch(e.entry_id@, e.scope_key@))
        + entry_violations(e).map_values(|v: EntryViolation| SnapshotViolation::VisibleEntryInvariant(e.entry_id@, v))
}

/// Violations reported for the visible entries, entry after entry.
pub open spec fn visible_entries_violations(entries: Seq<OmObservationEntryV2>, scope_key: Seq<char>) -> Seq<SnapshotViolation>
    decreases entries.len(),
{
    if entries.len() == 0 {
        Seq::empty()
    } else {
        visible_entries_violations(entries.drop_last(), scope_key) + visible_entry_violations(entries.last(), scope_key)
    }
}

/// All violations of a snapshot, in reporting order.
pub open spec fn snapshot_violations(s: OmSearchVisibleSnapshotV2) -> Seq<SnapshotViolation> {
    when(blank(s.scope_key@), SnapshotViolation::EmptyField("scope_key"@))
        + lift_timestamp_violation(timestamp_violation("materialized_at_rfc3339"@, s.materialized_at_rfc3339@))
        + (if blank(s.snapshot_version@) {
            seq![SnapshotViolation::EmptyField("snapshot_version"@)]
        } else if s.snapshot_version@ != OM_SEARCH_VISIBLE_SNAPSHOT_V2_VERSION@ {
            seq![SnapshotViolation::SnapshotVersionMismatch(OM_SEARCH_VISIBLE_SNAPSHOT_V2_VERSION@, s.snapshot_version@)]
        } else {
            Seq::empty()
        })
        + when(any_blank(s.activated_entry_ids@), SnapshotViolation::EmptyActivatedEntryId)
        + when(any_blank(s.buffered_entry_ids@), SnapshotViolation::EmptyBufferedEntryId)
        + visible_entries_violations(s.visible_entries@, s.scope_key@)
}

fn push_snapshot_violation(out: &mut Vec<OmSearchVisibleSnapshotInvariantViolation>, b: bool, v: OmSearchVisibleSnapshotInvariantViolation)
    ensures
        final(out)@.map_values(|x: OmSearchVisibleSnapshotInvariantViolation| x@) == old(out)@.map_values(
            |x: OmSearchVisibleSnapshotInvariantViolation| x@,
        ) + when(b, v@),
{
    let ghost v_view = v@;
    if b {
        out.push(v);
        assert(out@.map_values(|x: OmSearchVisibleSnapshotInvariantViolation| x@) =~= old(out)@.map_values(
            |x: OmSearchVisibleSnapshotInvariantViolation| x@,
        ).push(v_view));
    }
    assert(old(out)@.map_values(|x: OmSearchVisibleSnapshotInvariantViolation| x@) + when(b, v_view) =~= out@.map_values(
        |x: OmSearchVisibleSnapshotInvariantViolation| x@,
    ));
}

/// A copy of an entry violation.
fn copy_entry_violation(v: &OmObservationEntryInvariantViolation) -> (r: OmObservationEntryInvariantViolation)
    ensures
        r@ == v@,
{
    match v {
        OmObservationEntryInvariantViolation::EmptyField { field } => OmObservationEntryInvariantViolation::EmptyField { field },
        OmObservationEntryInvariantViolation::InvalidRfc3339 { field, value } => OmObservationEntryInvariantViolation::InvalidRfc3339 { field, value: value.clone() },
        OmObservationEntryInvariantViolation::EmptySourceMessageId => OmObservationEntryInvariantViolation::EmptySourceMessageId,
        OmObservationEntryInvariantViolation::EmptySupersededBy => OmObservationEntryInvariantViolation::EmptySupersededBy,
    }
}

/// Appends the violations of one visible entry.
fn push_visible_entry_violations(
    out: &mut Vec<OmSearchVisibleSnapshotInvariantViolation>,
    entry: &OmObservationEntryV2,
    scope_key_trimmed: &Vec<char>,
    Ghost(scope_key): Ghost<Seq<char>>,
)
    requires
        scope_key_trimmed@ == trim(scope_key),
    ensures
        final(out)@.map_values(|x: OmSearchVisibleSnapshotInvariantViolation| x@) == old(out)@.map_values(
            |x: OmSearchVisibleSnapshotInvariantViolation| x@,
        ) + visible_entry_violations(*entry, scope_key),
{
    let ek = string_chars(&entry.scope_key);
    let ekt = crate::text::trim_exec(ek.as_slice());
    let mismatch = !chars_eq(ekt.as_slice(), scope_key_trimmed.as_slice());
    push_snapshot_violation(out, mismatch, OmSearchVisibleSnapshotInvariantViolation::VisibleEntryScopeMismatch {
        entry_id: entry.entry_id.clone(),
        scope_key: entry.scope_key.clone(),
    });
    let ghost mid = out@.map_values(|x: OmSearchVisibleSnapshotInvariantViolation| x@);
    let inner = validate_observation_entry_v2_invariants(entry);
    let ghost lifted = entry_violations(*entry).map_values(|v: EntryViolation| SnapshotViolation::VisibleEntryInvariant(entry.entry_id@, v));
    let mut i: usize = 0;
    while i < inner.len()
        invariant
            i <= inner.len(),
            inner@.map_values(|v: OmObservationEntryInvariantViolation| v@) == entry_violations(*entry),
            lifted == entry_violations(*entry).map_values(|v: EntryViolation| SnapshotViolation::VisibleEntryInvariant(entry.entry_id@, v)),
            out@.map_values(|x: OmSearchVisibleSnapshotInvariantViolation| x@) == mid + lifted.take(i as int),
        decreases inner.len() - i,
    {
        let ghost before = out@.map_values(|x: OmSearchVisibleSnapshotInvariantViolation| x@);
        let v = copy_entry_violation(&inner[i]);
        assert(inner@.map_values(|v: OmObservationEntryInvariantViolation| v@)[i as int] == inner@[i as int]@);
        push_snapshot_violation(out, true, OmSearchVisibleSnapshotInvariantViolation::VisibleEntryInvariant {
            entry_id: entry.entry_id.clone(),
            violation: v,
        });
        assert(lifted.take(i + 1) =~= lifted.take(i as int).push(lifted[i as int]));
        i += 1;
    }
    assert(lifted.take(inner.len() as int) =~= lifted);
}

/// The violations of a search-visible snapshot and of its visible entries,
/// in reporting order.
pub fn validate_search_visible_snapshot_v2_invariants(snapshot: &OmSearchVisibleSnapshotV2) -> (r: Vec<OmSearchVisibleSnapshotInvariantViolation>)
    ensures
        r@.map_values(|v: OmSearchVisibleSnapshotInvariantViolation| v@) == snapshot_violations(*snapshot),
{
    proof {
        reveal_strlit("scope_key");
        reveal_strlit("materialized_at_rfc3339");
        reveal_strlit("snapshot_version");
    }
    let mut out: Vec<OmSearchVisibleSnapshotInvariantViolation> = Vec::new();
    assert(out@.map_values(|x: OmSearchVisibleSnapshotInvariantViolation| x@) =~= Seq::<SnapshotViolation>::empty());
    push_snapshot_violation(&mut out, string_blank(&snapshot.scope_key), OmSearchVisibleSnapshotInvariantViolation::EmptyField { field: "scope_key" });
    let ghost s1 = out@.map_values(|x: OmSearchVisibleSnapshotInvariantViolation| x@);
    match check_timestamp("materialized_at_rfc3339", &snapshot.materialized_at_rfc3339) {
        Some(v) => {
            let lifted = match v {
                OmObservationEntryInvariantViolation::EmptyField { field } => OmSearchVisibleSnapshotInvariantViolation::EmptyField { field },
                OmObservationEntryInvariantViolation::InvalidRfc3339 { field, value } => OmSearchVisibleSnapshotInvariantViolation::InvalidRfc3339 { field, value },
                _ => OmSearchVisibleSnapshotInvariantViolation::EmptyActivatedEntryId,
            };
            push_snapshot_violation(&mut out, true, lifted);
        },
        None => {},
    }
    assert(out@.map_values(|x: OmSearchVisibleSnapshotInvariantViolation| x@) =~= s1 + lift_timestamp_violation(
        timestamp_violation("materialized_at_rfc3339"@, snapshot.materialized_at_rfc3339@)));
    let ghost s2 = out@.map_values(|x: OmSearchVisibleSnapshotInvariantViolation| x@);
    let version_blank = string_blank(&snapshot.snapshot_version);
    let version = string_chars(&snapshot.snapshot_version);
    let version_ok = str_is(&version, OM_SEARCH_VISIBLE_SNAPSHOT_V2_VERSION);
    push_snapshot_violation(&mut out, version_blank, OmSearchVisibleSnapshotInvariantViolation::EmptyField { field: "snapshot_version" });
    push_snapshot_violation(&mut out, !version_blank && !version_ok, OmSearchVisibleSnapshotInvariantViolation::SnapshotVersionMismatch {
        expected: OM_SEARCH_VISIBLE_SNAPSHOT_V2_VERSION,
        actual: snapshot.snapshot_version.clone(),
    });
    assert(out@.map_values(|x: OmSearchVisibleSnapshotInvariantViolation| x@) =~= s2 + (if blank(snapshot.snapshot_version@) {
            seq![SnapshotViolation::EmptyField("snapshot_version"@)]
        } else if snapshot.snapshot_version@ != OM_SEARCH_VISIBLE_SNAPSHOT_V2_VERSION@ {
            seq![SnapshotViolation::SnapshotVersionMismatch(OM_SEARCH_VISIBLE_SNAPSHOT_V2_VERSION@, snapshot.snapshot_version@)]
        } else {
            Seq::empty()
        }));
    push_snapshot_violation(&mut out, strings_any_blank(&snapshot.activated_entry_ids), OmSearchVisibleSnapshotInvariantViolation::EmptyActivatedEntryId);
    push_snapshot_violation(&mut out, strings_any_blank(&snapshot.buffered_entry_ids), OmSearchVisibleSnapshotInvariantViolation::EmptyBufferedEntryId);
    let ghost s3 = out@.map_values(|x: OmSearchVisibleSnapshotInvariantViolation| x@);
    let key = string_chars(&snapshot.scope_key);
    let key_t = crate::text::trim_exec(key.as_slice());
    let mut i: usize = 0;
    while i < snapshot.visible_entries.len()
        invariant
            i <= snapshot.visible_entries.len(),
            key_t@ == trim(snapshot.scope_key@),
            out@.map_values(|x: OmSearchVisibleSnapshotInvariantViolation| x@) == s3 + visible_entries_violations(
                snapshot.visible_entries@.take(i as int), snapshot.scope_key@),
        decreases snapshot.visible_entries.len() - i,
    {
        push_visible_entry_violations(&mut out, &snapshot.visible_entries[i], &key_t, Ghost(snapshot.scope_key@));
        assert(snapshot.visible_entries@.take(i + 1).drop_last() =~= snapshot.visible_entries@.take(i as int));
        i += 1;
    }
    assert(snapshot.visible_entries@.take(i as int) =~= snapshot.visible_entries@);
    assert(out@.map_values(|x: OmSearchVisibleSnapshotInvariantViolation| x@) =~= snapshot_violations(*snapshot));
    out
}

} // verus!
