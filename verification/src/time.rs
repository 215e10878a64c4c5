//! Timestamp handling delegated to `chrono`.

use vstd::prelude::*;

verus! {

/// Whether `chrono::DateTime::parse_from_rfc3339` accepts the text.
pub uninterp spec fn is_rfc3339(s: Seq<char>) -> bool;

/// The text `chrono` renders, with the format `"%b %-d, %Y, %-I:%M %p"`, for
/// the UTC instant of an RFC 3339 timestamp (e.g. `Feb 14, 2026, 8:30 AM`).
pub uninterp spec fn observer_timestamp_text(s: Seq<char>) -> Seq<char>;

/// Calls `chrono::DateTime::parse_from_rfc3339` and reports whether it
/// succeeded. The contract claims only that the answer is a function of the
/// text; which texts `chrono` accepts is left to `chrono`.
#[verifier::external_body]
pub(crate) fn rfc3339_valid(s: &str) -> (b: bool)
    ensures
        b == is_rfc3339(s@),
{
    chrono::DateTime::parse_from_rfc3339(s).is_ok()
}

/// Calls `chrono::DateTime::parse_from_rfc3339`, converts the instant to UTC
/// and formats it with `"%b %-d, %Y, %-I:%M %p"`. The contract claims that the
/// result is present exactly when the parse succeeds and that its text is a
/// function of the input; the rendering itself is `chrono`'s.
#[verifier::external_body]
pub(crate) fn format_observer_timestamp(s: &str) -> (r: Option<String>)
    ensures
        r is Some == is_rfc3339(s@),
        r matches Some(t) ==> t@ == observer_timestamp_text(s@),
{
    chrono::DateTime::parse_from_rfc3339(s)
        .ok()
        .map(|value| value.with_timezone(&chrono::Utc))
        .map(|value| value.format("%b %-d, %Y, %-I:%M %p").to_string())
}

} // verus!
