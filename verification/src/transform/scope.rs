//! Scope keys and canonical thread references.

use vstd::prelude::*;
use crate::model::{OmRecord, OmScope, OmThreadRefV2, scope_key_violations};
use crate::text::{
    chars_to_string, copy_range, extend, extend_str, opt_string, starts_with, starts_with_str,
    str_to_chars, trim, trim_exec,
};
use crate::transform::types::OmTransformError;

verus! {

/// The trimmed identifier, when it is not empty.
pub open spec fn ident(o: Option<Seq<char>>) -> Option<Seq<char>> {
    match o {
        Some(t) => if trim(t).len() == 0 {
            None
        } else {
            Some(trim(t))
        },
        None => None,
    }
}

pub open spec fn opt_str_view(o: Option<&str>) -> Option<Seq<char>> {
    match o {
        Some(s) => Some(s@),
        None => None,
    }
}

fn normalize_identifier(raw: Option<&str>) -> (r: Option<Vec<char>>)
    ensures
        match r {
            Some(v) => ident(opt_str_view(raw)) == Some(v@),
            None => ident(opt_str_view(raw)) is None,
        },
{
    match raw {
        Some(s) => {
            let c = str_to_chars(s);
            let t = trim_exec(c.as_slice());
            if t.len() == 0 {
                None
            } else {
                Some(t)
            }
        },
        None => None,
    }
}

/// The identifier after `prefix` in the trimmed scope key.
pub open spec fn scope_key_ident(key: Seq<char>, prefix: Seq<char>) -> Option<Seq<char>> {
    let k = trim(key);
    if starts_with(k, prefix) {
        ident(Some(k.skip(prefix.len() as int)))
    } else {
        None
    }
}

fn scope_key_identifier(key: &[char], prefix: &str) -> (r: Option<Vec<char>>)
    ensures
        match r {
            Some(v) => scope_key_ident(key@, prefix@) == Some(v@),
            None => scope_key_ident(key@, prefix@) is None,
        },
{
    let k = trim_exec(key);
    if !starts_with_str(k.as_slice(), prefix) {
        return None;
    }
    let p = str_to_chars(prefix);
    let rest = copy_range(k.as_slice(), p.len(), k.len());
    assert(rest@ =~= k@.skip(prefix@.len() as int));
    let t = trim_exec(rest.as_slice());
    if t.len() == 0 {
        None
    } else {
        Some(t)
    }
}

pub open spec fn or_else(a: Option<Seq<char>>, b: Option<Seq<char>>) -> Option<Seq<char>> {
    if a is Some {
        a
    } else {
        b
    }
}

/// A thread reference with its texts as sequences.
pub struct ThreadRefView {
    pub canonical_thread_id: Seq<char>,
    pub scope: OmScope,
    pub scope_key: Seq<char>,
    pub origin_thread_id: Option<Seq<char>>,
    pub origin_session_id: Option<Seq<char>>,
    pub resource_id: Option<Seq<char>>,
}

pub open spec fn thread_ref_view(r: OmThreadRefV2) -> ThreadRefView {
    ThreadRefView {
        canonical_thread_id: r.canonical_thread_id@,
        scope: r.scope,
        scope_key: r.scope_key@,
        origin_thread_id: opt_string(r.origin_thread_id),
        origin_session_id: opt_string(r.origin_session_id),
        resource_id: opt_string(r.resource_id),
    }
}

/// `kind:id` for the first identifier present in the scope's order of
/// preference (its own kind first), `kind:default` without any.
pub open spec fn canonical_id(scope: OmScope, thread: Option<Seq<char>>, session: Option<Seq<char>>, resource: Option<Seq<char>>) -> Seq<char> {
    match scope {
        OmScope::Session => match (session, thread, resource) {
            (Some(id), _, _) => "session:"@ + id,
            (None, Some(id), _) => "thread:"@ + id,
            (None, None, Some(id)) => "resource:"@ + id,
            (None, None, None) => "session:default"@,
        },
        OmScope::Thread => match (thread, session, resource) {
            (Some(id), _, _) => "thread:"@ + id,
            (None, Some(id), _) => "session:"@ + id,
            (None, None, Some(id)) => "resource:"@ + id,
            (None, None, None) => "thread:default"@,
        },
        OmScope::Resource => match (thread, session, resource) {
            (Some(id), _, _) => "thread:"@ + id,
            (None, Some(id), _) => "session:"@ + id,
            (None, None, Some(id)) => "resource:"@ + id,
            (None, None, None) => "resource:default"@,
        },
    }
}

/// The canonical thread reference: origin ids from the source ids, else the
/// explicit ones; the resource id explicit, else (for resource scope) from
/// the scope key; the canonical id from the preferred of these, with the
/// scope key's own thread or session id as fallback.
pub open spec fn canonical_thread_ref(scope: OmScope, scope_key: Seq<char>, source_thread_id: Option<Seq<char>>, source_session_id: Option<Seq<char>>, thread_id: Option<Seq<char>>, session_id: Option<Seq<char>>, resource_id: Option<Seq<char>>) -> ThreadRefView {
    let key = trim(scope_key);
    let origin_thread = or_else(ident(source_thread_id), ident(thread_id));
    let origin_session = or_else(ident(source_session_id), ident(session_id));
    let resource = or_else(
        ident(resource_id),
        if scope == OmScope::Resource {
            scope_key_ident(key, "resource:"@)
        } else {
            None
        },
    );
    let thread = or_else(origin_thread, scope_key_ident(key, "thread:"@));
    let session = or_else(origin_session, scope_key_ident(key, "session:"@));
    ThreadRefView {
        canonical_thread_id: canonical_id(scope, thread, session, resource),
        scope,
        scope_key: key,
        origin_thread_id: origin_thread,
        origin_session_id: origin_session,
        resource_id: resource,
    }
}

fn first_of(a: Option<Vec<char>>, b: Option<Vec<char>>) -> (r: Option<Vec<char>>)
    ensures
        match r {
            Some(v) => or_else(
                match a {
                    Some(x) => Some(x@),
                    None => None,
                },
                match b {
                    Some(x) => Some(x@),
                    None => None,
                },
            ) == Some(v@),
            None => a is None && b is None,
        },
{
    match a {
        Some(x) => Some(x),
        None => b,
    }
}

pub open spec fn vopt(o: Option<Vec<char>>) -> Option<Seq<char>> {
    match o {
        Some(v) => Some(v@),
        None => None,
    }
}

fn to_opt_string(o: &Option<Vec<char>>) -> (r: Option<String>)
    ensures
        opt_string(r) == vopt(*o),
{
    match o {
        Some(v) => Some(chars_to_string(v.as_slice())),
        None => None,
    }
}

fn prefixed(kind: &str, id: &[char]) -> (r: Vec<char>)
    ensures
        r@ == kind@ + id@,
{
    let mut v = str_to_chars(kind);
    extend(&mut v, id);
    v
}

pub fn resolve_canonical_thread_ref(scope: OmScope, scope_key: &str, source_thread_id: Option<&str>, source_session_id: Option<&str>, thread_id: Option<&str>, session_id: Option<&str>, resource_id: Option<&str>) -> (r: OmThreadRefV2)
    ensures
        thread_ref_view(r) == canonical_thread_ref(
            scope,
            scope_key@,
            opt_str_view(source_thread_id),
            opt_str_view(source_session_id),
            opt_str_view(thread_id),
            opt_str_view(session_id),
            opt_str_view(resource_id),
        ),
{
    let kc = str_to_chars(scope_key);
    let key = trim_exec(kc.as_slice());
    let origin_thread = first_of(normalize_identifier(source_thread_id), normalize_identifier(thread_id));
    let origin_session = first_of(normalize_identifier(source_session_id), normalize_identifier(session_id));
    let thread_from_scope = scope_key_identifier(key.as_slice(), "thread:");
    let session_from_scope = scope_key_identifier(key.as_slice(), "session:");
    let resource_from_scope = if scope == OmScope::Resource {
        scope_key_identifier(key.as_slice(), "resource:")
    } else {
        None
    };
    let resource = first_of(normalize_identifier(resource_id), resource_from_scope);
    let origin_thread_s = to_opt_string(&origin_thread);
    let origin_session_s = to_opt_string(&origin_session);
    let resource_s = to_opt_string(&resource);
    let thread = first_of(origin_thread, thread_from_scope);
    let session = first_of(origin_session, session_from_scope);
    let canonical: Vec<char> = match scope {
        OmScope::Session => match (&session, &thread, &resource) {
            (Some(id), _, _) => prefixed("session:", id.as_slice()),
            (None, Some(id), _) => prefixed("thread:", id.as_slice()),
            (None, None, Some(id)) => prefixed("resource:", id.as_slice()),
            (None, None, None) => str_to_chars("session:default"),
        },
        OmScope::Thread => match (&thread, &session, &resource) {
            (Some(id), _, _) => prefixed("thread:", id.as_slice()),
            (None, Some(id), _) => prefixed("session:", id.as_slice()),
            (None, None, Some(id)) => prefixed("resource:", id.as_slice()),
            (None, None, None) => str_to_chars("thread:default"),
        },
        OmScope::Resource => match (&thread, &session, &resource) {
            (Some(id), _, _) => prefixed("thread:", id.as_slice()),
            (None, Some(id), _) => prefixed("session:", id.as_slice()),
            (None, None, Some(id)) => prefixed("resource:", id.as_slice()),
            (None, None, None) => str_to_chars("resource:default"),
        },
    };
    OmThreadRefV2 {
        canonical_thread_id: chars_to_string(canonical.as_slice()),
        scope,
        scope_key: chars_to_string(key.as_slice()),
        origin_thread_id: origin_thread_s,
        origin_session_id: origin_session_s,
        resource_id: resource_s,
    }
}

/// `prefix` followed by the trimmed identifier of the scope's own kind;
/// an error naming that identifier when it is missing or blank.
pub open spec fn scope_key_for(scope: OmScope, session_id: Option<Seq<char>>, thread_id: Option<Seq<char>>, resource_id: Option<Seq<char>>) -> Result<Seq<char>, Seq<char>> {
    match scope {
        OmScope::Session => match ident(session_id) {
            Some(id) => Ok("session:"@ + id),
            None => Err("session_id"@),
        },
        OmScope::Thread => match ident(thread_id) {
            Some(id) => Ok("thread:"@ + id),
            None => Err("thread_id"@),
        },
        OmScope::Resource => match ident(resource_id) {
            Some(id) => Ok("resource:"@ + id),
            None => Err("resource_id"@),
        },
    }
}

pub fn build_scope_key(scope: OmScope, session_id: Option<&str>, thread_id: Option<&str>, resource_id: Option<&str>) -> (r: Result<String, OmTransformError>)
    ensures
        match r {
            Ok(k) => scope_key_for(scope, opt_str_view(session_id), opt_str_view(thread_id), opt_str_view(resource_id))
                == Ok::<Seq<char>, Seq<char>>(k@),
            Err(OmTransformError::MissingScopeIdentifier(field)) => scope_key_for(
                scope,
                opt_str_view(session_id),
                opt_str_view(thread_id),
                opt_str_view(resource_id),
            ) == Err::<Seq<char>, Seq<char>>(field@),
        },
{
    let (raw, kind, field) = match scope {
        OmScope::Session => (session_id, "session:", "session_id"),
        OmScope::Thread => (thread_id, "thread:", "thread_id"),
        OmScope::Resource => (resource_id, "resource:", "resource_id"),
    };
    match normalize_identifier(raw) {
        Some(id) => {
            let v = prefixed(kind, id.as_slice());
            Ok(chars_to_string(v.as_slice()))
        },
        None => Err(OmTransformError::MissingScopeIdentifier(field)),
    }
}


/// `prefix + id` with a trimmed non-empty id yields `id` back for `prefix`.
proof fn lemma_scope_key_ident(prefix: Seq<char>, id: Seq<char>)
    requires
        prefix.len() > 0,
        !crate::text::is_white_space(prefix[0]),
        id.len() > 0,
        trim(id) == id,
    ensures
        trim(prefix + id) == prefix + id,
        scope_key_ident(prefix + id, prefix) == Some(id),
{
    let k = prefix + id;
    crate::text::lemma_trim_ends(id);
    assert(k[0] == prefix[0]);
    assert(k.last() == id.last());
    crate::text::lemma_trim_fixed(k);
    assert(k.subrange(0, prefix.len() as int) =~= prefix);
    assert(k.skip(prefix.len() as int) =~= id);
}

/// Resolving the key that `build_scope_key` made, with no other ids, names
/// the same scope entity: the canonical thread id is the key itself.
pub proof fn law_scope_key_resolves_to_itself(scope: OmScope, session_id: Option<Seq<char>>, thread_id: Option<Seq<char>>, resource_id: Option<Seq<char>>)
    requires
        scope_key_for(scope, session_id, thread_id, resource_id) is Ok,
    ensures
        canonical_thread_ref(
            scope,
            scope_key_for(scope, session_id, thread_id, resource_id)->Ok_0,
            None,
            None,
            None,
            None,
            None,
        ).canonical_thread_id == scope_key_for(scope, session_id, thread_id, resource_id)->Ok_0,
{
    reveal_strlit("session:");
    reveal_strlit("thread:");
    reveal_strlit("resource:");
    let k = scope_key_for(scope, session_id, thread_id, resource_id)->Ok_0;
    let raw = match scope {
        OmScope::Session => session_id,
        OmScope::Thread => thread_id,
        OmScope::Resource => resource_id,
    };
    let id = trim(raw->0);
    crate::text::lemma_trim_idempotent(raw->0);
    match scope {
        OmScope::Session => {
            lemma_scope_key_ident("session:"@, id);
        },
        OmScope::Thread => {
            lemma_scope_key_ident("thread:"@, id);
        },
        OmScope::Resource => {
            lemma_scope_key_ident("resource:"@, id);
            assert(!starts_with(k, "thread:"@)) by {
                assert(k[0] == 'r');
            }
            assert(!starts_with(k, "session:"@)) by {
                assert(k[0] == 'r');
            }
        },
    }
}


/// A record whose scope key is the one `build_scope_key` makes from the
/// record's own scope and identifiers breaks none of the scope-key
/// invariants that `validate_om_record_invariants` checks, and has the
/// identifier its scope requires.
pub proof fn law_built_scope_key_is_valid(record: OmRecord)
    requires
        scope_key_for(record.scope, opt_string(record.session_id), opt_string(record.thread_id), opt_string(record.resource_id))
            == Ok::<Seq<char>, Seq<char>>(record.scope_key@),
    ensures
        scope_key_violations(record) == Seq::<crate::model::RecordViolation>::empty(),
        crate::model::scope_requirement(record).0 is Some,
{
    reveal_strlit("session:");
    reveal_strlit("thread:");
    reveal_strlit("resource:");
    let raw = match record.scope {
        OmScope::Session => opt_string(record.session_id),
        OmScope::Thread => opt_string(record.thread_id),
        OmScope::Resource => opt_string(record.resource_id),
    };
    let id = trim(raw->0);
    crate::text::lemma_trim_idempotent(raw->0);
    match record.scope {
        OmScope::Session => {
            lemma_scope_key_ident("session:"@, id);
            assert(("session:"@ + id).skip(8) =~= id);
        },
        OmScope::Thread => {
            lemma_scope_key_ident("thread:"@, id);
            assert(("thread:"@ + id).skip(7) =~= id);
        },
        OmScope::Resource => {
            lemma_scope_key_ident("resource:"@, id);
            assert(("resource:"@ + id).skip(9) =~= id);
        },
    }
}

} // verus!
