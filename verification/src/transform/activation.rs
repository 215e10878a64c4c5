//! Activation of buffered observation chunks into the active observations.

use vstd::prelude::*;
use crate::model::{OmObservationChunk, OmRecord, record_violations};
use crate::text::{chars_to_string, extend, join, join_exec, string_chars, string_views, trim, trim_exec, views};
use crate::transform::helpers::{dedup_non_blank, merge_activated_message_ids};
use crate::transform::types::{ActivationBoundary, ActivationResult};

verus! {

/// The message threshold: the base, or with a shared budget the room left
/// by the observations, never below the base.
pub open spec fn dynamic_threshold(base: u32, budget: Option<u32>, current: u32) -> u32 {
    match budget {
        None => base,
        Some(total) => {
            let room = if total >= current { (total - current) as u32 } else { 0u32 };
            if room >= base { room } else { base }
        },
    }
}

pub fn calculate_dynamic_threshold(base_threshold: u32, maybe_total_budget: Option<u32>, current_observation_tokens: u32) -> (r: u32)
    ensures
        r == dynamic_threshold(base_threshold, maybe_total_budget, current_observation_tokens),
{
    match maybe_total_budget {
        None => base_threshold,
        Some(total_budget) => {
            let room = total_budget.saturating_sub(current_observation_tokens);
            if room >= base_threshold { room } else { base_threshold }
        },
    }
}

/// `min(last_buffered_at_tokens, current_tokens)`.
pub fn normalize_observation_buffer_boundary(current_tokens: u32, last_buffered_at_tokens: u32) -> (r: u32)
    ensures
        r == if last_buffered_at_tokens <= current_tokens { last_buffered_at_tokens } else { current_tokens },
{
    if last_buffered_at_tokens <= current_tokens {
        last_buffered_at_tokens
    } else {
        current_tokens
    }
}

/// Trimmed observations of the chunks, blank ones dropped.
pub open spec fn chunk_texts(chunks: Seq<OmObservationChunk>) -> Seq<Seq<char>>
    decreases chunks.len(),
{
    if chunks.len() == 0 {
        Seq::empty()
    } else {
        chunk_texts(chunks.drop_last()) + if trim(chunks.last().observations@).len() > 0 {
            seq![trim(chunks.last().observations@)]
        } else {
            Seq::empty()
        }
    }
}

/// The active observations followed by the chunks' observations, all
/// trimmed, blank parts dropped, separated by blank lines.
pub open spec fn merged_observations(active: Seq<char>, chunks: Seq<OmObservationChunk>) -> Seq<char> {
    let head = if trim(active).len() > 0 { seq![trim(active)] } else { Seq::empty() };
    join(head + chunk_texts(chunks), seq!['\n', '\n'])
}

pub fn merge_activated_observations(active: &str, activated_chunks: &[OmObservationChunk]) -> (r: String)
    ensures
        r@ == merged_observations(active@, activated_chunks@),
{
    let a = crate::text::str_to_chars(active);
    let v = merge_observation_chars(a.as_slice(), activated_chunks, activated_chunks.len());
    assert(activated_chunks@.take(activated_chunks@.len() as int) =~= activated_chunks@);
    chars_to_string(v.as_slice())
}

/// Merge of the active observations with the first `k` chunks.
fn merge_observation_chars(active: &[char], chunks: &[OmObservationChunk], k: usize) -> (r: Vec<char>)
    requires
        k <= chunks@.len(),
    ensures
        r@ == merged_observations(active@, chunks@.take(k as int)),
{
    let mut parts: Vec<Vec<char>> = Vec::new();
    let t = trim_exec(active);
    if t.len() > 0 {
        parts.push(t);
    }
    let ghost head = views(parts@);
    assert(head =~= if trim(active@).len() > 0 { seq![trim(active@)] } else { Seq::<Seq<char>>::empty() });
    let mut i: usize = 0;
    while i < k
        invariant
            i <= k <= chunks@.len(),
            views(parts@) == head + chunk_texts(chunks@.take(i as int)),
        decreases k - i,
    {
        proof {
            assert(chunks@.take(i + 1).drop_last() =~= chunks@.take(i as int));
            assert(chunks@.take(i + 1).last() == chunks@[i as int]);
        }
        let c = string_chars(&chunks[i].observations);
        let ct = trim_exec(c.as_slice());
        let ghost before = views(parts@);
        if ct.len() > 0 {
            parts.push(ct);
            assert(views(parts@) =~= before.push(ct@));
        }
        assert(views(parts@) =~= head + chunk_texts(chunks@.take(i + 1)));
        i += 1;
    }
    let sep: Vec<char> = vec!['\n', '\n'];
    assert(sep@ =~= seq!['\n', '\n']);
    join_exec(&parts, sep.as_slice())
}

// ---------------------------------------------------------------------------
// Activation boundary
// ---------------------------------------------------------------------------

/// `a + b` capped at `u64::MAX`.
pub open spec fn sat_add(a: u64, b: u64) -> u64 {
    if a + b > u64::MAX { u64::MAX } else { (a + b) as u64 }
}

/// Scan state: best boundary so far, its cumulative message tokens, and the
/// running cumulative message tokens.
pub struct BoundaryScan {
    pub best: nat,
    pub best_tokens: u64,
    pub cumulative: u64,
}

/// Scan of the chunk prefixes: a prefix within `target` message tokens
/// replaces a best that is over the target or smaller; a prefix over the
/// target replaces only a best that is also over it and larger.
pub open spec fn boundary_scan(chunks: Seq<OmObservationChunk>, target: u64) -> BoundaryScan
    decreases chunks.len(),
{
    if chunks.len() == 0 {
        BoundaryScan { best: 0, best_tokens: 0, cumulative: 0 }
    } else {
        let st = boundary_scan(chunks.drop_last(), target);
        let cum = sat_add(st.cumulative, chunks.last().message_tokens as u64);
        let under = cum <= target;
        let best_under = st.best_tokens <= target;
        let replace = if st.best == 0 {
            true
        } else if under {
            !best_under || cum > st.best_tokens
        } else {
            !best_under && cum < st.best_tokens
        };
        if replace {
            BoundaryScan { best: chunks.len(), best_tokens: cum, cumulative: cum }
        } else {
            BoundaryScan { best: st.best, best_tokens: st.best_tokens, cumulative: cum }
        }
    }
}

/// Number of chunks to activate (at least one when there are chunks).
pub open spec fn chunks_to_activate(chunks: Seq<OmObservationChunk>, target: u64) -> nat {
    if chunks.len() == 0 {
        0
    } else {
        let b = boundary_scan(chunks, target).best;
        if b == 0 { 1 } else { b }
    }
}

/// Saturating sum of message tokens (`true`) or observation tokens (`false`).
pub open spec fn token_sum(chunks: Seq<OmObservationChunk>, message: bool) -> u64
    decreases chunks.len(),
{
    if chunks.len() == 0 {
        0
    } else {
        sat_add(token_sum(chunks.drop_last(), message), if message { chunks.last().message_tokens as u64 } else { chunks.last().token_count as u64 })
    }
}

/// The sum capped at `u32::MAX`.
pub open spec fn cap_u32(v: u64) -> u32 {
    if v > u32::MAX { u32::MAX } else { v as u32 }
}

/// Message ids of the chunks, in order.
pub open spec fn chunk_message_ids(chunks: Seq<OmObservationChunk>) -> Seq<Seq<char>>
    decreases chunks.len(),
{
    if chunks.len() == 0 {
        Seq::empty()
    } else {
        chunk_message_ids(chunks.drop_last()) + string_views(chunks.last().message_ids@)
    }
}

pub proof fn lemma_boundary_best_bounded(chunks: Seq<OmObservationChunk>, target: u64)
    ensures
        boundary_scan(chunks, target).best <= chunks.len(),
    decreases chunks.len(),
{
    if chunks.len() > 0 {
        lemma_boundary_best_bounded(chunks.drop_last(), target);
    }
}

fn sat_add_exec(a: u64, b: u64) -> (r: u64)
    ensures
        r == sat_add(a, b),
{
    a.saturating_add(b)
}

/// Sums and ids of the first `k` chunks.
fn activated_totals(chunks: &[OmObservationChunk], k: usize) -> (r: (u32, u32, Vec<String>))
    requires
        k <= chunks@.len(),
    ensures
        r.0 == cap_u32(token_sum(chunks@.take(k as int), true)),
        r.1 == cap_u32(token_sum(chunks@.take(k as int), false)),
        string_views(r.2@) == chunk_message_ids(chunks@.take(k as int)),
{
    let mut msg: u64 = 0;
    let mut obs: u64 = 0;
    let mut ids: Vec<String> = Vec::new();
    let mut i: usize = 0;
    while i < k
        invariant
            i <= k <= chunks@.len(),
            msg == token_sum(chunks@.take(i as int), true),
            obs == token_sum(chunks@.take(i as int), false),
            string_views(ids@) == chunk_message_ids(chunks@.take(i as int)),
        decreases k - i,
    {
        proof {
            assert(chunks@.take(i + 1).drop_last() =~= chunks@.take(i as int));
            assert(chunks@.take(i + 1).last() == chunks@[i as int]);
        }
        msg = sat_add_exec(msg, chunks[i].message_tokens as u64);
        obs = sat_add_exec(obs, chunks[i].token_count as u64);
        let ghost before = string_views(ids@);
        let mut j: usize = 0;
        while j < chunks[i].message_ids.len()
            invariant
                j <= chunks@[i as int].message_ids@.len(),
                i < chunks@.len(),
                string_views(ids@) == before + string_views(chunks@[i as int].message_ids@).take(j as int),
            decreases chunks@[i as int].message_ids@.len() - j,
        {
            let ghost mid = string_views(ids@);
            let id = chunks[i].message_ids[j].clone();
            ids.push(id);
            assert(string_views(ids@) =~= mid.push(chunks@[i as int].message_ids@[j as int]@));
            assert(string_views(chunks@[i as int].message_ids@).take(j + 1) =~= string_views(chunks@[i as int].message_ids@).take(j as int).push(chunks@[i as int].message_ids@[j as int]@));
            assert(string_views(ids@) =~= before + string_views(chunks@[i as int].message_ids@).take(j + 1));
            j += 1;
        }
        assert(string_views(chunks@[i as int].message_ids@).take(j as int) =~= string_views(chunks@[i as int].message_ids@));
        i += 1;
    }
    let m = if msg > u32::MAX as u64 { u32::MAX } else { msg as u32 };
    let o = if obs > u32::MAX as u64 { u32::MAX } else { obs as u32 };
    (m, o, ids)
}

/// The boundary of the chunks to activate given the target number of message
/// tokens (the pending tokens above the retention floor, rounded down).
pub fn select_activation_boundary_for_target(chunks: &[OmObservationChunk], target_message_tokens: u64) -> (r: ActivationBoundary)
    ensures
        r.chunks_activated == chunks_to_activate(chunks@, target_message_tokens),
        r.chunks_activated <= chunks@.len(),
        r.message_tokens_activated == cap_u32(token_sum(chunks@.take(r.chunks_activated as int), true)),
        r.observation_tokens_activated == cap_u32(token_sum(chunks@.take(r.chunks_activated as int), false)),
        string_views(r.activated_message_ids@) == chunk_message_ids(chunks@.take(r.chunks_activated as int)),
{
    if chunks.len() == 0 {
        let empty: Vec<String> = Vec::new();
        assert(chunks@.take(0) =~= Seq::<OmObservationChunk>::empty());
        assert(string_views(empty@) =~= Seq::<Seq<char>>::empty());
        return ActivationBoundary {
            chunks_activated: 0,
            message_tokens_activated: 0,
            observation_tokens_activated: 0,
            activated_message_ids: empty,
        };
    }
    let mut cumulative: u64 = 0;
    let mut best: usize = 0;
    let mut best_tokens: u64 = 0;
    let mut i: usize = 0;
    while i < chunks.len()
        invariant
            i <= chunks@.len(),
            boundary_scan(chunks@.take(i as int), target_message_tokens) == (BoundaryScan { best: best as nat, best_tokens, cumulative }),
        decreases chunks.len() - i,
    {
        proof {
            assert(chunks@.take(i + 1).drop_last() =~= chunks@.take(i as int));
            assert(chunks@.take(i + 1).last() == chunks@[i as int]);
        }
        cumulative = sat_add_exec(cumulative, chunks[i].message_tokens as u64);
        let under = cumulative <= target_message_tokens;
        let best_under = best_tokens <= target_message_tokens;
        let replace = if best == 0 {
            true
        } else if under {
            !best_under || cumulative > best_tokens
        } else {
            !best_under && cumulative < best_tokens
        };
        if replace {
            best = i + 1;
            best_tokens = cumulative;
        }
        i += 1;
    }
    assert(chunks@.take(chunks.len() as int) =~= chunks@);
    proof {
        lemma_boundary_best_bounded(chunks@, target_message_tokens);
    }
    let k = if best == 0 { 1 } else { best };
    let (m, o, ids) = activated_totals(chunks, k);
    ActivationBoundary {
        chunks_activated: k,
        message_tokens_activated: m,
        observation_tokens_activated: o,
        activated_message_ids: ids,
    }
}

/// Moves the chunks chosen by the boundary into the record's active
/// observations: token counts move from pending to observed (saturating),
/// the last observed time and max sequence come from the last activated
/// chunk, message ids are merged, and the buffering state is updated. The
/// record's identity, scope and buffered reflection stay as they were, so it
/// breaks an invariant after activation exactly when it did before.
pub fn activate_buffered_observations_for_target(
    record: &mut OmRecord,
    buffered_chunks: &mut Vec<OmObservationChunk>,
    target_message_tokens: u64,
) -> (r: Option<ActivationResult>)
    ensures
        old(buffered_chunks)@.len() == 0 ==> r is None && *final(record) == *old(record) && final(buffered_chunks)@ == old(buffered_chunks)@,
        old(buffered_chunks)@.len() > 0 ==> {
            let k = chunks_to_activate(old(buffered_chunks)@, target_message_tokens) as int;
            let act = old(buffered_chunks)@.take(k);
            let msg = cap_u32(token_sum(act, true));
            let obs = cap_u32(token_sum(act, false));
            let pending = if old(record).pending_message_tokens >= msg { (old(record).pending_message_tokens - msg) as u32 } else { 0u32 };
            let rest = old(buffered_chunks)@.skip(k);
            &&& r matches Some(res)
            &&& res.chunks_activated == k
            &&& res.activated_max_seq == act.last().seq
            &&& res.message_tokens_activated == msg
            &&& res.observation_tokens_activated == obs
            &&& string_views(res.activated_message_ids@) == chunk_message_ids(act)
            &&& final(buffered_chunks)@ == rest
            &&& final(record).active_observations@ == merged_observations(old(record).active_observations@, act)
            &&& final(record).observation_token_count == (if old(record).observation_token_count + obs > u32::MAX { u32::MAX } else { (old(record).observation_token_count + obs) as u32 })
            &&& final(record).pending_message_tokens == pending
            &&& final(record).last_observed_at == Some(act.last().last_observed_at)
            &&& string_views(final(record).last_activated_message_ids@) == dedup_non_blank(string_views(old(record).last_activated_message_ids@) + chunk_message_ids(act))
            &&& final(record).is_buffering_observation == (rest.len() > 0)
            &&& final(record).last_buffered_at_tokens == (if rest.len() == 0 { 0u32 } else if old(record).last_buffered_at_tokens <= pending { old(record).last_buffered_at_tokens } else { pending })
            &&& final(record).last_buffered_at_time == (if rest.len() == 0 { None } else { old(record).last_buffered_at_time })
            &&& final(record).id == old(record).id
            &&& final(record).scope == old(record).scope
            &&& final(record).scope_key == old(record).scope_key
            &&& final(record).session_id == old(record).session_id
            &&& final(record).thread_id == old(record).thread_id
            &&& final(record).resource_id == old(record).resource_id
            &&& final(record).generation_count == old(record).generation_count
            &&& final(record).last_applied_outbox_event_id == old(record).last_applied_outbox_event_id
            &&& final(record).origin_type == old(record).origin_type
            &&& final(record).current_task == old(record).current_task
            &&& final(record).suggested_response == old(record).suggested_response
            &&& final(record).observer_trigger_count_total == old(record).observer_trigger_count_total
            &&& final(record).reflector_trigger_count_total == old(record).reflector_trigger_count_total
            &&& final(record).is_observing == old(record).is_observing
            &&& final(record).is_reflecting == old(record).is_reflecting
            &&& final(record).is_buffering_reflection == old(record).is_buffering_reflection
            &&& final(record).buffered_reflection == old(record).buffered_reflection
            &&& final(record).buffered_reflection_tokens == old(record).buffered_reflection_tokens
            &&& final(record).buffered_reflection_input_tokens == old(record).buffered_reflection_input_tokens
            &&& final(record).reflected_observation_line_count == old(record).reflected_observation_line_count
            &&& final(record).created_at == old(record).created_at
            &&& final(record).updated_at == old(record).updated_at
        },
        record_violations(*final(record)) == record_violations(*old(record)),
{
    if buffered_chunks.len() == 0 {
        return None;
    }
    let boundary = select_activation_boundary_for_target(buffered_chunks.as_slice(), target_message_tokens);
    let k = boundary.chunks_activated;
    let ghost act = old(buffered_chunks)@.take(k as int);
    let a = string_chars(&record.active_observations);
    let merged = merge_observation_chars(a.as_slice(), buffered_chunks.as_slice(), k);
    record.active_observations = chars_to_string(merged.as_slice());
    record.observation_token_count = record.observation_token_count.saturating_add(boundary.observation_tokens_activated);
    record.pending_message_tokens = record.pending_message_tokens.saturating_sub(boundary.message_tokens_activated);
    let last_observed_at = buffered_chunks[k - 1].last_observed_at;
    let activated_max_seq = buffered_chunks[k - 1].seq;
    proof {
        assert(act.last() == old(buffered_chunks)@[k - 1]);
    }
    record.last_observed_at = Some(last_observed_at);
    record.last_activated_message_ids = merge_activated_message_ids(
        record.last_activated_message_ids.as_slice(),
        boundary.activated_message_ids.as_slice(),
    );
    let tail = buffered_chunks.split_off(k);
    *buffered_chunks = tail;
    record.is_buffering_observation = buffered_chunks.len() > 0;
    if !record.is_buffering_observation {
        record.last_buffered_at_tokens = 0;
        record.last_buffered_at_time = None;
    } else {
        record.last_buffered_at_tokens = normalize_observation_buffer_boundary(
            record.pending_message_tokens,
            record.last_buffered_at_tokens,
        );
    }
    Some(ActivationResult {
        activated_max_seq,
        chunks_activated: k,
        message_tokens_activated: boundary.message_tokens_activated,
        observation_tokens_activated: boundary.observation_tokens_activated,
        activated_message_ids: boundary.activated_message_ids,
    })
}


/// The message threshold never drops below its base.
pub proof fn law_dynamic_threshold_at_least_base(base: u32, budget: Option<u32>, current: u32)
    ensures
        dynamic_threshold(base, budget, current) >= base,
        budget is None ==> dynamic_threshold(base, budget, current) == base,
{
}

/// Activation takes at least one buffered chunk and at most all of them.
pub proof fn law_activation_takes_some_chunks(chunks: Seq<OmObservationChunk>, target: u64)
    ensures
        chunks.len() > 0 ==> 1 <= chunks_to_activate(chunks, target) <= chunks.len(),
        chunks.len() == 0 ==> chunks_to_activate(chunks, target) == 0,
{
    lemma_boundary_best_bounded(chunks, target);
}


/// Message tokens of the first `i` chunks (saturating).
pub open spec fn prefix_message_tokens(chunks: Seq<OmObservationChunk>, i: int) -> u64 {
    token_sum(chunks.take(i), true)
}

proof fn lemma_prefix_tokens_monotone(chunks: Seq<OmObservationChunk>, i: int, j: int)
    requires
        0 <= i <= j <= chunks.len(),
    ensures
        prefix_message_tokens(chunks, i) <= prefix_message_tokens(chunks, j),
    decreases j - i,
{
    if i < j {
        lemma_prefix_tokens_monotone(chunks, i, j - 1);
        assert(chunks.take(j).drop_last() =~= chunks.take(j - 1));
    }
}

/// What the boundary scan has found after each prefix: its running sum is
/// the prefix sum; when the first chunk alone exceeds the target the best
/// boundary is one chunk; otherwise the best boundary is within the target,
/// every shorter prefix holds fewer tokens, and every longer one exceeds the
/// target or holds as many.
proof fn lemma_boundary_scan_best(chunks: Seq<OmObservationChunk>, target: u64)
    ensures
        ({
            let st = boundary_scan(chunks, target);
            let b = st.best as int;
            &&& st.cumulative == prefix_message_tokens(chunks, chunks.len() as int)
            &&& chunks.len() == 0 ==> b == 0
            &&& chunks.len() > 0 ==> 1 <= b <= chunks.len() && st.best_tokens == prefix_message_tokens(chunks, b)
            &&& chunks.len() > 0 && prefix_message_tokens(chunks, 1) > target ==> b == 1
            &&& chunks.len() > 0 && prefix_message_tokens(chunks, 1) <= target ==> {
                &&& prefix_message_tokens(chunks, b) <= target
                &&& forall|j: int| 1 <= j < b ==> #[trigger] prefix_message_tokens(chunks, j) < prefix_message_tokens(chunks, b)
                &&& forall|j: int| b < j <= chunks.len() ==> #[trigger] prefix_message_tokens(chunks, j) > target
                    || prefix_message_tokens(chunks, j) == prefix_message_tokens(chunks, b)
            }
        }),
    decreases chunks.len(),
{
    assert(chunks.take(chunks.len() as int) =~= chunks);
    if chunks.len() > 0 {
        let u = chunks.drop_last();
        let n = chunks.len() as int;
        lemma_boundary_scan_best(u, target);
        assert forall|i: int| 0 <= i < n implies #[trigger] prefix_message_tokens(u, i) == prefix_message_tokens(chunks, i) by {
            assert(u.take(i) =~= chunks.take(i));
        }
        assert(u.take(u.len() as int) =~= u);
        assert(chunks.take(n).drop_last() =~= u);
        let st = boundary_scan(u, target);
        let b = st.best as int;
        if n > 1 {
            assert(prefix_message_tokens(u, 1) == prefix_message_tokens(chunks, 1));
            assert(prefix_message_tokens(u, b) == prefix_message_tokens(chunks, b));
            lemma_prefix_tokens_monotone(chunks, b, n);
            lemma_prefix_tokens_monotone(chunks, 1, n);
            let r = boundary_scan(chunks, target);
            let rb = r.best as int;
            if prefix_message_tokens(chunks, 1) <= target {
                assert forall|j: int| 1 <= j < rb implies #[trigger] prefix_message_tokens(chunks, j) < prefix_message_tokens(chunks, rb) by {
                    assert(prefix_message_tokens(u, j) == prefix_message_tokens(chunks, j));
                    if j < b {
                        assert(prefix_message_tokens(u, j) < prefix_message_tokens(u, b));
                    } else if b < j {
                        assert(prefix_message_tokens(u, j) > target || prefix_message_tokens(u, j) == prefix_message_tokens(u, b));
                        lemma_prefix_tokens_monotone(chunks, j, n);
                    }
                }
                assert forall|j: int| rb < j <= n implies #[trigger] prefix_message_tokens(chunks, j) > target
                    || prefix_message_tokens(chunks, j) == prefix_message_tokens(chunks, rb) by {
                    if j < n {
                        assert(prefix_message_tokens(u, j) == prefix_message_tokens(chunks, j));
                        assert(prefix_message_tokens(u, j) > target || prefix_message_tokens(u, j) == prefix_message_tokens(u, b));
                    }
                }
            }
        } else {
            assert(u.len() == 0);
        }
    }
}

/// Activation takes the prefix of buffered chunks that brings in the most
/// message tokens without exceeding the target, with as few chunks as
/// possible; when even the first chunk exceeds the target it takes that one
/// chunk.
pub proof fn law_activation_boundary_is_best_fit(chunks: Seq<OmObservationChunk>, target: u64)
    requires
        chunks.len() > 0,
    ensures
        ({
            let k = chunks_to_activate(chunks, target) as int;
            &&& prefix_message_tokens(chunks, 1) > target ==> k == 1
            &&& prefix_message_tokens(chunks, 1) <= target ==> {
                &&& prefix_message_tokens(chunks, k) <= target
                &&& forall|j: int| 1 <= j < k ==> #[trigger] prefix_message_tokens(chunks, j) < prefix_message_tokens(chunks, k)
                &&& forall|j: int| k < j <= chunks.len() ==> #[trigger] prefix_message_tokens(chunks, j) > target
                    || prefix_message_tokens(chunks, j) == prefix_message_tokens(chunks, k)
            }
        }),
{
    lemma_boundary_scan_best(chunks, target);
}

} // verus!
