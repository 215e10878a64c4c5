//! The prompt contract sent along with observer and reflector requests.

use vstd::prelude::*;
use crate::inference::{OmObserverRequest, OmReflectorRequest};
use crate::text::{chars_to_string, opt_string, str_to_chars, string_views, trim, trim_exec};
use crate::transform::observer::continuation::{normalize_ids, normalized_ids};

verus! {

pub const OM_PROMPT_CONTRACT_NAME: &'static str = "axiomme.om.prompt";

pub const OM_PROMPT_CONTRACT_VERSION: &'static str = "2.0.0";

pub const OM_PROTOCOL_VERSION: &'static str = "om-v2";

/// The contract markers, one per line.
pub const OM_PROMPT_CONTRACT_MARKERS_XML_BLOCK: &'static str = "<contract-name>axiomme.om.prompt</contract-name>\n<contract-version>2.0.0</contract-version>\n<protocol-version>om-v2</protocol-version>";

/// The contract markers on one line.
pub const OM_PROMPT_CONTRACT_MARKERS_XML_INLINE: &'static str = "<contract-name>axiomme.om.prompt</contract-name><contract-version>2.0.0</contract-version><protocol-version>om-v2</protocol-version>";

#[derive(Debug, Clone, Copy, PartialEq, Eq, Structural)]
pub enum OmPromptRequestKind {
    ObserverSingle,
    ObserverMulti,
    Reflector,
}

impl OmPromptRequestKind {
    /// The snake-case name used on the wire.
    pub open spec fn name(self) -> Seq<char> {
        match self {
            OmPromptRequestKind::ObserverSingle => "observer_single"@,
            OmPromptRequestKind::ObserverMulti => "observer_multi"@,
            OmPromptRequestKind::Reflector => "reflector"@,
        }
    }

    pub fn as_str(self) -> (r: &'static str)
        ensures
            r@ == self.name(),
    {
        match self {
            OmPromptRequestKind::ObserverSingle => "observer_single",
            OmPromptRequestKind::ObserverMulti => "observer_multi",
            OmPromptRequestKind::Reflector => "reflector",
        }
    }
}

#[derive(Debug, Clone, PartialEq, Eq)]
pub struct OmPromptContractHeader {
    pub contract_name: String,
    pub contract_version: String,
    pub protocol_version: String,
    pub request_kind: OmPromptRequestKind,
    pub scope: String,
    pub scope_key: String,
}

#[derive(Debug, Clone, Copy, PartialEq, Eq, Structural)]
pub struct OmPromptLimitsV2 {
    pub max_output_tokens: u32,
    pub observation_max_chars: Option<usize>,
    pub reflection_max_chars: Option<usize>,
}

#[derive(Debug, Clone, PartialEq, Eq)]
pub struct OmPromptOutputContractV2 {
    pub format: String,
    pub required_sections: Vec<String>,
    pub continuation_enabled: bool,
}

#[derive(Debug, Clone, PartialEq, Eq)]
pub struct OmObserverPromptContractV2 {
    pub header: OmPromptContractHeader,
    pub known_message_ids: Vec<String>,
    pub preferred_thread_id: Option<String>,
    pub has_other_conversation_context: bool,
    pub skip_continuation_hints: bool,
    pub limits: OmPromptLimitsV2,
    pub output_contract: OmPromptOutputContractV2,
}

#[derive(Debug, Clone, PartialEq, Eq)]
pub struct OmReflectorPromptContractV2 {
    pub header: OmPromptContractHeader,
    pub generation_count: u32,
    pub compression_level: u8,
    pub skip_continuation_hints: bool,
    pub limits: OmPromptLimitsV2,
    pub output_contract: OmPromptOutputContractV2,
}

/// The header carries this library's contract name and versions, the
/// request kind, and the request's scope and scope key.
pub open spec fn header_holds(h: OmPromptContractHeader, kind: OmPromptRequestKind, scope: Seq<char>, scope_key: Seq<char>) -> bool {
    &&& h.contract_name@ == OM_PROMPT_CONTRACT_NAME@
    &&& h.contract_version@ == OM_PROMPT_CONTRACT_VERSION@
    &&& h.protocol_version@ == OM_PROTOCOL_VERSION@
    &&& h.request_kind == kind
    &&& h.scope@ == scope
    &&& h.scope_key@ == scope_key
}

/// XML output with the observation section, plus the continuation sections
/// unless they are skipped.
pub open spec fn output_contract_holds(o: OmPromptOutputContractV2, skip_continuation_hints: bool) -> bool {
    &&& o.format@ == "xml"@
    &&& string_views(o.required_sections@) == if skip_continuation_hints {
        seq!["observations"@]
    } else {
        seq!["observations"@, "current-task"@, "suggested-response"@]
    }
    &&& o.continuation_enabled == !skip_continuation_hints
}

fn build_header(kind: OmPromptRequestKind, scope: &'static str, scope_key: &String) -> (r: OmPromptContractHeader)
    ensures
        header_holds(r, kind, scope@, scope_key@),
{
    OmPromptContractHeader {
        contract_name: OM_PROMPT_CONTRACT_NAME.to_string(),
        contract_version: OM_PROMPT_CONTRACT_VERSION.to_string(),
        protocol_version: OM_PROTOCOL_VERSION.to_string(),
        request_kind: kind,
        scope: scope.to_string(),
        scope_key: scope_key.clone(),
    }
}

fn build_output_contract(skip_continuation_hints: bool) -> (r: OmPromptOutputContractV2)
    ensures
        output_contract_holds(r, skip_continuation_hints),
{
    let mut sections: Vec<String> = Vec::new();
    sections.push("observations".to_string());
    if !skip_continuation_hints {
        sections.push("current-task".to_string());
        sections.push("suggested-response".to_string());
    }
    proof {
        if skip_continuation_hints {
            assert(string_views(sections@) =~= seq!["observations"@]);
        } else {
            assert(string_views(sections@) =~= seq!["observations"@, "current-task"@, "suggested-response"@]);
        }
    }
    OmPromptOutputContractV2 {
        format: "xml".to_string(),
        required_sections: sections,
        continuation_enabled: !skip_continuation_hints,
    }
}

/// The observer contract: the known message ids trimmed, sorted and
/// deduplicated; whether other-conversation context is present (not blank);
/// the observation character limit; the output sections.
pub open spec fn observer_contract_holds(c: OmObserverPromptContractV2, request: OmObserverRequest, kind: OmPromptRequestKind, known_message_ids: Seq<Seq<char>>, skip_continuation_hints: bool, preferred_thread_id: Option<Seq<char>>, observation_max_chars: usize) -> bool {
    &&& header_holds(c.header, kind, request.scope.name(), request.scope_key@)
    &&& string_views(c.known_message_ids@) == normalized_ids(known_message_ids)
    &&& opt_string(c.preferred_thread_id) == preferred_thread_id
    &&& c.has_other_conversation_context == (request.other_conversations matches Some(o) && trim(o@).len() > 0)
    &&& c.skip_continuation_hints == skip_continuation_hints
    &&& c.limits == OmPromptLimitsV2 {
        max_output_tokens: request.model.max_output_tokens,
        observation_max_chars: Some(observation_max_chars),
        reflection_max_chars: None,
    }
    &&& output_contract_holds(c.output_contract, skip_continuation_hints)
}

pub open spec fn opt_str_view(o: Option<&str>) -> Option<Seq<char>> {
    match o {
        Some(s) => Some(s@),
        None => None,
    }
}

fn build_observer_prompt_contract(request: &OmObserverRequest, request_kind: OmPromptRequestKind, known_message_ids: &[String], skip_continuation_hints: bool, preferred_thread_id: Option<&str>, observation_max_chars: usize) -> (r: OmObserverPromptContractV2)
    ensures
        observer_contract_holds(
            r,
            *request,
            request_kind,
            string_views(known_message_ids@),
            skip_continuation_hints,
            opt_str_view(preferred_thread_id),
            observation_max_chars,
        ),
{
    let ids = normalize_ids(known_message_ids);
    let has_other = match &request.other_conversations {
        Some(o) => {
            let c = str_to_chars(o.as_str());
            let t = trim_exec(c.as_slice());
            t.len() > 0
        },
        None => false,
    };
    OmObserverPromptContractV2 {
        header: build_header(request_kind, request.scope.as_str(), &request.scope_key),
        known_message_ids: ids,
        preferred_thread_id: match preferred_thread_id {
            Some(t) => Some(t.to_string()),
            None => None,
        },
        has_other_conversation_context: has_other,
        skip_continuation_hints,
        limits: OmPromptLimitsV2 {
            max_output_tokens: request.model.max_output_tokens,
            observation_max_chars: Some(observation_max_chars),
            reflection_max_chars: None,
        },
        output_contract: build_output_contract(skip_continuation_hints),
    }
}

pub fn build_observer_prompt_contract_v2(request: &OmObserverRequest, known_message_ids: &[String], skip_continuation_hints: bool, preferred_thread_id: Option<&str>, observation_max_chars: usize) -> (r: OmObserverPromptContractV2)
    ensures
        observer_contract_holds(
            r,
            *request,
            OmPromptRequestKind::ObserverSingle,
            string_views(known_message_ids@),
            skip_continuation_hints,
            opt_str_view(preferred_thread_id),
            observation_max_chars,
        ),
{
    build_observer_prompt_contract(
        request,
        OmPromptRequestKind::ObserverSingle,
        known_message_ids,
        skip_continuation_hints,
        preferred_thread_id,
        observation_max_chars,
    )
}

pub fn build_multi_thread_observer_prompt_contract_v2(request: &OmObserverRequest, known_message_ids: &[String], skip_continuation_hints: bool, preferred_thread_id: Option<&str>, observation_max_chars: usize) -> (r: OmObserverPromptContractV2)
    ensures
        observer_contract_holds(
            r,
            *request,
            OmPromptRequestKind::ObserverMulti,
            string_views(known_message_ids@),
            skip_continuation_hints,
            opt_str_view(preferred_thread_id),
            observation_max_chars,
        ),
{
    build_observer_prompt_contract(
        request,
        OmPromptRequestKind::ObserverMulti,
        known_message_ids,
        skip_continuation_hints,
        preferred_thread_id,
        observation_max_chars,
    )
}

/// The reflector contract: generation count, compression level, the
/// reflection character limit and the output sections.
pub open spec fn reflector_contract_holds(c: OmReflectorPromptContractV2, request: OmReflectorRequest, compression_level: u8, skip_continuation_hints: bool, reflection_max_chars: usize) -> bool {
    &&& header_holds(c.header, OmPromptRequestKind::Reflector, request.scope.name(), request.scope_key@)
    &&& c.generation_count == request.generation_count
    &&& c.compression_level == compression_level
    &&& c.skip_continuation_hints == skip_continuation_hints
    &&& c.limits == OmPromptLimitsV2 {
        max_output_tokens: request.model.max_output_tokens,
        observation_max_chars: None,
        reflection_max_chars: Some(reflection_max_chars),
    }
    &&& output_contract_holds(c.output_contract, skip_continuation_hints)
}

pub fn build_reflector_prompt_contract_v2(request: &OmReflectorRequest, compression_level: u8, skip_continuation_hints: bool, reflection_max_chars: usize) -> (r: OmReflectorPromptContractV2)
    ensures
        reflector_contract_holds(r, *request, compression_level, skip_continuation_hints, reflection_max_chars),
{
    OmReflectorPromptContractV2 {
        header: build_header(OmPromptRequestKind::Reflector, request.scope.as_str(), &request.scope_key),
        generation_count: request.generation_count,
        compression_level,
        skip_continuation_hints,
        limits: OmPromptLimitsV2 {
            max_output_tokens: request.model.max_output_tokens,
            observation_max_chars: None,
            reflection_max_chars: Some(reflection_max_chars),
        },
        output_contract: build_output_contract(skip_continuation_hints),
    }
}

} // verus!
