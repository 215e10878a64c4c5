//! Compression guidance for repeated reflection attempts.

use vstd::prelude::*;

verus! {

/// Guidance after a reflection that did not shrink the observations.
pub const REFLECTOR_COMPRESSION_GUIDANCE: &'static str = "## COMPRESSION REQUIRED

Your previous reflection was the same size or larger than the original observations.

Please re-process with slightly more compression:
- Towards the beginning, condense more observations into higher-level reflections
- Closer to the end, retain more fine details (recent context matters more)
- Memory is getting long - use a more condensed style throughout
- Combine related items more aggressively but do not lose important specific details of names, places, events, and people
- For example if there is a long nested observation list about repeated tool calls, you can combine those into a single line and observe that the tool was called multiple times for x reason, and finally y outcome happened.

Your current detail level was a 10/10, lets aim for a 8/10 detail level.";

/// Guidance after a reflection that stayed too large despite guidance.
pub const REFLECTOR_AGGRESSIVE_COMPRESSION_GUIDANCE: &'static str = "## AGGRESSIVE COMPRESSION REQUIRED

Your previous reflection was still too large after compression guidance.

Please re-process with much more aggressive compression:
- Towards the beginning, heavily condense observations into high-level summaries
- Closer to the end, retain fine details (recent context matters more)
- Memory is getting very long - use a significantly more condensed style throughout
- Combine related items aggressively but do not lose important specific details of names, places, events, and people
- For example if there is a long nested observation list about repeated tool calls, you can combine those into a single line and observe that the tool was called multiple times for x reason, and finally y outcome happened.
- Remove redundant information and merge overlapping observations

Your current detail level was a 10/10, lets aim for a 6/10 detail level.";

/// The guidance for a compression level: none at level 0, the first text
/// at level 1, the aggressive text from level 2 on.
pub open spec fn compression_guidance(level: u8) -> Seq<char> {
    if level == 0 {
        ""@
    } else if level == 1 {
        REFLECTOR_COMPRESSION_GUIDANCE@
    } else {
        REFLECTOR_AGGRESSIVE_COMPRESSION_GUIDANCE@
    }
}

pub fn reflector_compression_guidance(level: u8) -> (r: &'static str)
    ensures
        r@ == compression_guidance(level),
{
    if level == 0 {
        ""
    } else if level == 1 {
        REFLECTOR_COMPRESSION_GUIDANCE
    } else {
        REFLECTOR_AGGRESSIVE_COMPRESSION_GUIDANCE
    }
}

/// A reflection is compressed enough when it is strictly below the target.
pub fn validate_reflection_compression(reflected_tokens: u32, target_threshold_tokens: u32) -> (r: bool)
    ensures
        r == (reflected_tokens < target_threshold_tokens),
{
    reflected_tokens < target_threshold_tokens
}

} // verus!
