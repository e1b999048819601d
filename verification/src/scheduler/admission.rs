//! Admission under the KV budget, and what rejected requests are told.
use std::collections::HashMap;
use vstd::prelude::*;
use vstd::string::*;
use crate::arith::{
    ceil_div, div_ceil, lemma_ceil_div_is_least, lemma_saturated_keeps_sizes, max_nat, max_size,
    min_nat, min_size, monus, saturated, saturating_mul,
};
use crate::engine::{KvCapacity, TokenEvent};
use crate::metrics::{LoadSnapshot, SpecDecodeCounters};
use crate::scheduler::request::{ActiveRequestState, PendingRequest, RequestId};
use crate::text::{decimal, push_size};

verus! {

broadcast use vstd::std_specs::hash::group_hash_axioms;

/// The longest context a request can be served: the position-encoding window or
/// the KV pool, whichever ends first.
pub fn servable_len(max_context: usize, max_blocks: usize, block_size: usize) -> (r: u32)
    ensures
        r == min_nat(
            u32::MAX as nat,
            min_nat(max_context as nat, saturated(max_blocks * block_size) as nat),
        ),
{
    let len: usize = min_size(max_context, saturating_mul(max_blocks, block_size));
    if len as u64 > u32::MAX as u64 {
        u32::MAX
    } else {
        len as u32
    }
}

pub fn blocks_needed(token_count: usize, block_size: usize) -> (r: usize)
    requires
        block_size > 0,
    ensures
        r == ceil_div(token_count as nat, block_size as nat),
{
    div_ceil(token_count, block_size)
}

/// KV slots a request can occupy. Prefill samples the first output token but
/// does not write its KV; a generated token's KV is written only when it is fed
/// as the next decode input, so `n` completion tokens occupy `n - 1` slots.
pub open spec fn kv_tokens(prompt_len: nat, completion_tokens: nat) -> nat {
    saturated((prompt_len + monus(completion_tokens, 1)) as int) as nat
}

pub fn max_request_tokens(req: &PendingRequest) -> (r: usize)
    ensures
        r == kv_tokens(req.prompt_len(), req.max_tokens as nat),
{
    req.prompt_tokens.len().saturating_add(req.max_tokens.saturating_sub(1))
}

pub fn max_active_tokens(req: &ActiveRequestState) -> (r: usize)
    ensures
        r == kv_tokens(req.prompt_len as nat, req.max_tokens as nat),
{
    req.prompt_len.saturating_add(req.max_tokens.saturating_sub(1))
}

pub fn current_active_tokens(req: &ActiveRequestState) -> (r: usize)
    ensures
        r == kv_tokens(req.prompt_len as nat, req.generated_count as nat),
{
    req.prompt_len.saturating_add(req.generated_count.saturating_sub(1))
}

/// Pool blocks a request can draw over its lifetime. One-token completions
/// finish after prefill, so decode never provisions a dangling block for them;
/// multi-token requests can draw that final block.
pub open spec fn lifetime_blocks(prompt_len: nat, max_tokens: nat, block_size: nat) -> nat {
    let tokens = if max_tokens <= 1 {
        prompt_len
    } else {
        saturated((prompt_len + max_tokens) as int) as nat
    };
    max_nat(ceil_div(tokens, block_size), 1)
}

pub fn request_lifetime_blocks(prompt_len: usize, max_tokens: usize, block_size: usize) -> (r:
    usize)
    requires
        block_size > 0,
    ensures
        r == lifetime_blocks(prompt_len as nat, max_tokens as nat, block_size as nat),
{
    let lifetime_tokens: usize = if max_tokens <= 1 {
        prompt_len
    } else {
        prompt_len.saturating_add(max_tokens)
    };
    max_size(div_ceil(lifetime_tokens, block_size), 1)
}

pub fn pending_lifetime_blocks(req: &PendingRequest, block_size: usize) -> (r: usize)
    requires
        block_size > 0,
    ensures
        r == lifetime_blocks(req.prompt_len(), req.max_tokens as nat, block_size as nat),
{
    request_lifetime_blocks(req.prompt_tokens.len(), req.max_tokens, block_size)
}

pub fn active_lifetime_blocks(req: &ActiveRequestState, block_size: usize) -> (r: usize)
    requires
        block_size > 0,
    ensures
        r == lifetime_blocks(req.prompt_len as nat, req.max_tokens as nat, block_size as nat),
{
    request_lifetime_blocks(req.prompt_len, req.max_tokens, block_size)
}

/// Blocks an active request may still draw.
pub open spec fn active_growth(req: ActiveRequestState, block_size: nat) -> nat {
    monus(
        lifetime_blocks(req.prompt_len as nat, req.max_tokens as nat, block_size),
        ceil_div(kv_tokens(req.prompt_len as nat, req.generated_count as nat), block_size),
    )
}

pub open spec fn active_growth_total(active: Seq<ActiveRequestState>, block_size: nat) -> nat
    decreases active.len(),
{
    if active.len() == 0 {
        0
    } else {
        active_growth_total(active.drop_last(), block_size) + active_growth(
            active.last(),
            block_size,
        )
    }
}

/// Blocks a request already holds from a settled prefetch.
pub open spec fn credit_of(credits: Map<u64, usize>, id: RequestId) -> nat {
    if credits.contains_key(id.0) {
        credits[id.0] as nat
    } else {
        0
    }
}

/// Blocks a request mid-prefill may still draw. Blocks it holds from a settled
/// prefetch are out of the free pool already, so counting them as future need
/// would charge the budget twice.
pub open spec fn pending_growth(
    req: PendingRequest,
    block_size: nat,
    credits: Map<u64, usize>,
) -> nat {
    monus(
        monus(
            lifetime_blocks(req.prompt_len(), req.max_tokens as nat, block_size),
            ceil_div(req.prefill_pos as nat, block_size),
        ),
        credit_of(credits, req.request_id),
    )
}

pub open spec fn pending_growth_total(
    prefilling: Seq<PendingRequest>,
    block_size: nat,
    credits: Map<u64, usize>,
) -> nat
    decreases prefilling.len(),
{
    if prefilling.len() == 0 {
        0
    } else {
        pending_growth_total(prefilling.drop_last(), block_size, credits) + pending_growth(
            prefilling.last(),
            block_size,
            credits,
        )
    }
}

proof fn lemma_active_growth_prefix(active: Seq<ActiveRequestState>, block_size: nat, n: int)
    requires
        0 <= n <= active.len(),
    ensures
        active_growth_total(active.take(n), block_size) <= active_growth_total(active, block_size),
    decreases active.len() - n,
{
    if n == active.len() {
        assert(active.take(n) =~= active);
    } else {
        lemma_active_growth_prefix(active, block_size, n + 1);
        assert(active.take(n + 1).drop_last() =~= active.take(n));
    }
}

proof fn lemma_pending_growth_prefix(
    prefilling: Seq<PendingRequest>,
    block_size: nat,
    credits: Map<u64, usize>,
    n: int,
)
    requires
        0 <= n <= prefilling.len(),
    ensures
        pending_growth_total(prefilling.take(n), block_size, credits) <= pending_growth_total(
            prefilling,
            block_size,
            credits,
        ),
    decreases prefilling.len() - n,
{
    if n == prefilling.len() {
        assert(prefilling.take(n) =~= prefilling);
    } else {
        lemma_pending_growth_prefix(prefilling, block_size, credits, n + 1);
        assert(prefilling.take(n + 1).drop_last() =~= prefilling.take(n));
    }
}

pub fn active_future_blocks(active: &[ActiveRequestState], block_size: usize) -> (r: usize)
    requires
        block_size > 0,
        active_growth_total(active@, block_size as nat) <= usize::MAX,
    ensures
        r == active_growth_total(active@, block_size as nat),
{
    let mut total: usize = 0;
    let mut i: usize = 0;
    while i < active.len()
        invariant
            i <= active.len(),
            block_size > 0,
            active_growth_total(active@, block_size as nat) <= usize::MAX,
            total == active_growth_total(active@.take(i as int), block_size as nat),
        decreases active.len() - i,
    {
        let req = &active[i];
        let growth: usize = active_lifetime_blocks(req, block_size).saturating_sub(
            blocks_needed(current_active_tokens(req), block_size),
        );
        proof {
            assert(active@.take(i as int + 1).drop_last() =~= active@.take(i as int));
            lemma_active_growth_prefix(active@, block_size as nat, i as int + 1);
        }
        total = total + growth;
        i = i + 1;
    }
    assert(active@.take(i as int) =~= active@);
    total
}

fn credit(credits: &HashMap<u64, usize>, id: RequestId) -> (r: usize)
    ensures
        r == credit_of(credits@, id),
{
    match credits.get(&id.0) {
        Some(blocks) => *blocks,
        None => 0,
    }
}

pub fn prefilling_future_blocks(
    prefilling: &[PendingRequest],
    block_size: usize,
    prefetch_credit: &HashMap<u64, usize>,
) -> (r: usize)
    requires
        block_size > 0,
        pending_growth_total(prefilling@, block_size as nat, prefetch_credit@) <= usize::MAX,
    ensures
        r == pending_growth_total(prefilling@, block_size as nat, prefetch_credit@),
{
    let mut total: usize = 0;
    let mut i: usize = 0;
    while i < prefilling.len()
        invariant
            i <= prefilling.len(),
            block_size > 0,
            pending_growth_total(prefilling@, block_size as nat, prefetch_credit@) <= usize::MAX,
            total == pending_growth_total(
                prefilling@.take(i as int),
                block_size as nat,
                prefetch_credit@,
            ),
        decreases prefilling.len() - i,
    {
        let req = &prefilling[i];
        let growth: usize = pending_lifetime_blocks(req, block_size).saturating_sub(
            blocks_needed(req.prefill_pos, block_size),
        ).saturating_sub(credit(prefetch_credit, req.request_id));
        proof {
            assert(prefilling@.take(i as int + 1).drop_last() =~= prefilling@.take(i as int));
            lemma_pending_growth_prefix(
                prefilling@,
                block_size as nat,
                prefetch_credit@,
                i as int + 1,
            );
        }
        total = total + growth;
        i = i + 1;
    }
    assert(prefilling@.take(i as int) =~= prefilling@);
    total
}

/// Free blocks promised to admitted requests (active decode growth plus the
/// remaining prefill chunks).
pub open spec fn promised_blocks(
    active: Seq<ActiveRequestState>,
    prefilling: Seq<PendingRequest>,
    block_size: nat,
    credits: Map<u64, usize>,
) -> nat {
    active_growth_total(active, block_size) + pending_growth_total(prefilling, block_size, credits)
}

/// The reservation floor: a KV prefetch must stay out of these blocks, or a
/// later chunk or decode fails allocation and kills the whole step.
pub fn admitted_future_blocks(
    active: &[ActiveRequestState],
    prefilling: &[PendingRequest],
    block_size: usize,
    prefetch_credit: &HashMap<u64, usize>,
) -> (r: usize)
    requires
        block_size > 0,
        promised_blocks(active@, prefilling@, block_size as nat, prefetch_credit@) <= usize::MAX,
    ensures
        r == promised_blocks(active@, prefilling@, block_size as nat, prefetch_credit@),
{
    active_future_blocks(active, block_size) + prefilling_future_blocks(
        prefilling,
        block_size,
        prefetch_credit,
    )
}

pub fn echo_exceeds_prefill_bound(req: &PendingRequest, max_prefill_tokens: usize) -> (r: bool)
    ensures
        r == (req.echo && req.prompt_len() > max_prefill_tokens),
{
    req.echo && req.prompt_tokens.len() > max_prefill_tokens
}

/// Why a request was rejected at admission, so the client gets an accurate error.
#[derive(Clone, Copy, Debug, PartialEq, Eq, Structural)]
pub enum RejectReason {
    /// Worst-case length exceeds the model's position-encoding window.
    ContextLength { limit: usize },
    /// Echo needs all-position logits in one forward, so it must fit the
    /// profiled prefill bound.
    EchoPrefillTokens { limit: usize },
    /// Worst-case length needs more KV blocks than this instance can ever provide.
    KvBudget,
}

/// What an executor can hold and run.
#[derive(Clone, Copy, Debug, PartialEq, Eq, Structural)]
pub struct ExecutorLimits {
    pub block_size: usize,
    pub available_blocks: usize,
    pub max_request_blocks: usize,
    pub max_context_tokens: usize,
    pub max_decode_batch_size: usize,
    pub max_prefill_tokens: usize,
}

/// The reason a request can never run here, whatever the load.
pub open spec fn reject_reason(req: PendingRequest, limits: ExecutorLimits) -> Option<
    RejectReason,
> {
    if req.prompt_len() + req.max_tokens > limits.max_context_tokens && !(req.prompt_len()
        + req.max_tokens > usize::MAX && limits.max_context_tokens == usize::MAX) {
        Some(RejectReason::ContextLength { limit: limits.max_context_tokens })
    } else if req.echo && req.prompt_len() > limits.max_prefill_tokens {
        Some(RejectReason::EchoPrefillTokens { limit: limits.max_prefill_tokens })
    } else if lifetime_blocks(req.prompt_len(), req.max_tokens as nat, limits.block_size as nat)
        > limits.max_request_blocks {
        Some(RejectReason::KvBudget)
    } else {
        None
    }
}

/// Blocks an admission takes from the free pool: the footprint less what the
/// request's prefetch already holds.
pub open spec fn fresh_blocks(
    req: PendingRequest,
    block_size: nat,
    credits: Map<u64, usize>,
) -> nat {
    monus(
        lifetime_blocks(req.prompt_len(), req.max_tokens as nat, block_size),
        credit_of(credits, req.request_id),
    )
}

/// The state of an admission pass.
pub struct AdmissionState {
    pub pending: Seq<PendingRequest>,
    pub deferred: Seq<PendingRequest>,
    pub rejected: Seq<(PendingRequest, RejectReason)>,
    pub budget: nat,
    pub slots: nat,
}

/// One request's turn.
pub open spec fn admit_one(
    st: AdmissionState,
    req: PendingRequest,
    limits: ExecutorLimits,
    credits: Map<u64, usize>,
) -> AdmissionState {
    let fresh = fresh_blocks(req, limits.block_size as nat, credits);
    match reject_reason(req, limits) {
        Some(reason) => AdmissionState { rejected: st.rejected.push((req, reason)), ..st },
        None => if fresh <= st.budget && st.slots > 0 {
            AdmissionState {
                pending: st.pending.push(req),
                budget: (st.budget - fresh) as nat,
                slots: (st.slots - 1) as nat,
                ..st
            }
        } else {
            AdmissionState { deferred: st.deferred.push(req), ..st }
        },
    }
}

/// The pass over `reqs` in order, from a pool of `budget` blocks and `slots`
/// decode slots.
pub open spec fn admit_all(
    reqs: Seq<PendingRequest>,
    budget: nat,
    slots: nat,
    limits: ExecutorLimits,
    credits: Map<u64, usize>,
) -> AdmissionState
    decreases reqs.len(),
{
    if reqs.len() == 0 {
        AdmissionState {
            pending: Seq::empty(),
            deferred: Seq::empty(),
            rejected: Seq::empty(),
            budget,
            slots,
        }
    } else {
        admit_one(
            admit_all(reqs.drop_last(), budget, slots, limits, credits),
            reqs.last(),
            limits,
            credits,
        )
    }
}

/// Blocks free for new admissions.
pub open spec fn free_budget(
    active: Seq<ActiveRequestState>,
    prefilling: Seq<PendingRequest>,
    limits: ExecutorLimits,
    credits: Map<u64, usize>,
) -> nat {
    monus(
        limits.available_blocks as nat,
        promised_blocks(active, prefilling, limits.block_size as nat, credits),
    )
}

/// Decode slots free for new admissions: requests mid-prefill take one when they
/// promote.
pub open spec fn free_slots(active_len: nat, prefilling_len: nat, limits: ExecutorLimits) -> nat {
    monus(limits.max_decode_batch_size as nat, active_len + prefilling_len)
}

pub struct AdmissionOutcome {
    pub pending: Vec<PendingRequest>,
    pub deferred: Vec<PendingRequest>,
    pub rejected: Vec<(PendingRequest, RejectReason)>,
}

pub fn admit_deferred_requests(
    deferred: Vec<PendingRequest>,
    active: &[ActiveRequestState],
    prefilling: &[PendingRequest],
    limits: &ExecutorLimits,
    prefetch_credit: &HashMap<u64, usize>,
) -> (r: AdmissionOutcome)
    requires
        limits.block_size > 0,
        active_growth_total(active@, limits.block_size as nat) <= usize::MAX,
        pending_growth_total(prefilling@, limits.block_size as nat, prefetch_credit@)
            <= usize::MAX,
    ensures
        ({
            let end = admit_all(
                deferred@,
                free_budget(active@, prefilling@, *limits, prefetch_credit@),
                free_slots(active@.len(), prefilling@.len(), *limits),
                *limits,
                prefetch_credit@,
            );
            &&& r.pending@ == end.pending
            &&& r.deferred@ == end.deferred
            &&& r.rejected@ == end.rejected
        }),
{
    let mut budget: usize = limits.available_blocks.saturating_sub(
        active_future_blocks(active, limits.block_size),
    ).saturating_sub(prefilling_future_blocks(prefilling, limits.block_size, prefetch_credit));
    let mut decode_slots: usize = limits.max_decode_batch_size.saturating_sub(
        active.len(),
    ).saturating_sub(prefilling.len());
    let mut pending: Vec<PendingRequest> = Vec::new();
    let mut still_deferred: Vec<PendingRequest> = Vec::new();
    let mut rejected: Vec<(PendingRequest, RejectReason)> = Vec::new();

    let ghost all = deferred@;
    let ghost budget0 = budget as nat;
    let ghost slots0 = decode_slots as nat;
    let ghost credits = prefetch_credit@;
    assert(all.take(0) =~= Seq::<PendingRequest>::empty());
    for req in it: deferred
        invariant
            it.seq() == all,
            limits.block_size > 0,
            credits == prefetch_credit@,
            ({
                let now = admit_all(
                    all.take(it.index() as int),
                    budget0,
                    slots0,
                    *limits,
                    credits,
                );
                &&& pending@ == now.pending
                &&& still_deferred@ == now.deferred
                &&& rejected@ == now.rejected
                &&& budget == now.budget
                &&& decode_slots == now.slots
            }),
    {
        proof {
            let next = all.take(it.index() as int + 1);
            assert(next.drop_last() =~= all.take(it.index() as int));
            assert(next.last() == req);
        }
        if req.prompt_tokens.len().saturating_add(req.max_tokens) > limits.max_context_tokens {
            rejected.push(
                (req, RejectReason::ContextLength { limit: limits.max_context_tokens }),
            );
        } else if echo_exceeds_prefill_bound(&req, limits.max_prefill_tokens) {
            rejected.push(
                (req, RejectReason::EchoPrefillTokens { limit: limits.max_prefill_tokens }),
            );
        } else {
            // The full physical footprint gates the per-request cap: a request
            // occupies all of it, prefetched or not.
            let footprint: usize = pending_lifetime_blocks(&req, limits.block_size);
            if footprint > limits.max_request_blocks {
                rejected.push((req, RejectReason::KvBudget));
            } else {
                let fresh_needed: usize = footprint.saturating_sub(
                    credit(prefetch_credit, req.request_id),
                );
                if fresh_needed <= budget && decode_slots > 0 {
                    budget = budget - fresh_needed;
                    decode_slots = decode_slots - 1;
                    pending.push(req);
                } else {
                    still_deferred.push(req);
                }
            }
        }
    }
    assert(all.take(all.len() as int) =~= all);
    AdmissionOutcome { pending, deferred: still_deferred, rejected }
}

/// Blocks a set of admissions takes from the free pool.
pub open spec fn fresh_total(
    reqs: Seq<PendingRequest>,
    block_size: nat,
    credits: Map<u64, usize>,
) -> nat
    decreases reqs.len(),
{
    if reqs.len() == 0 {
        0
    } else {
        fresh_total(reqs.drop_last(), block_size, credits) + fresh_blocks(
            reqs.last(),
            block_size,
            credits,
        )
    }
}

/// Admission never overcommits: what it admits fits the free blocks and the free
/// decode slots it started from.
pub proof fn lemma_admission_never_overcommits(
    reqs: Seq<PendingRequest>,
    budget: nat,
    slots: nat,
    limits: ExecutorLimits,
    credits: Map<u64, usize>,
)
    ensures
        ({
            let end = admit_all(reqs, budget, slots, limits, credits);
            &&& fresh_total(end.pending, limits.block_size as nat, credits) + end.budget == budget
            &&& end.pending.len() + end.slots == slots
        }),
    decreases reqs.len(),
{
    if reqs.len() > 0 {
        lemma_admission_never_overcommits(reqs.drop_last(), budget, slots, limits, credits);
        let before = admit_all(reqs.drop_last(), budget, slots, limits, credits);
        assert(before.pending.push(reqs.last()).drop_last() =~= before.pending);
    }
}

/// The requests of a rejection list.
pub open spec fn rejected_requests(rejected: Seq<(PendingRequest, RejectReason)>) -> Seq<
    PendingRequest,
> {
    rejected.map_values(|p: (PendingRequest, RejectReason)| p.0)
}

/// Admission loses no request and invents none: every deferred request is
/// admitted, deferred again or rejected, exactly once.
pub proof fn lemma_admission_partitions_requests(
    reqs: Seq<PendingRequest>,
    budget: nat,
    slots: nat,
    limits: ExecutorLimits,
    credits: Map<u64, usize>,
)
    ensures
        ({
            let end = admit_all(reqs, budget, slots, limits, credits);
            reqs.to_multiset() == end.pending.to_multiset().add(end.deferred.to_multiset()).add(
                rejected_requests(end.rejected).to_multiset(),
            )
        }),
    decreases reqs.len(),
{
    broadcast use vstd::seq_lib::group_to_multiset_ensures;

    if reqs.len() == 0 {
        let end = admit_all(reqs, budget, slots, limits, credits);
        assert(rejected_requests(end.rejected) =~= Seq::<PendingRequest>::empty());
        assert(reqs =~= Seq::<PendingRequest>::empty());
        assert(reqs.to_multiset() =~= end.pending.to_multiset().add(
            end.deferred.to_multiset(),
        ).add(rejected_requests(end.rejected).to_multiset()));
    } else {
        lemma_admission_partitions_requests(reqs.drop_last(), budget, slots, limits, credits);
        let before = admit_all(reqs.drop_last(), budget, slots, limits, credits);
        let end = admit_all(reqs, budget, slots, limits, credits);
        let req = reqs.last();
        assert(reqs =~= reqs.drop_last().push(req));
        match reject_reason(req, limits) {
            Some(reason) => {
                assert(rejected_requests(end.rejected) =~= rejected_requests(
                    before.rejected,
                ).push(req));
            },
            None => {},
        }
        assert(reqs.to_multiset() =~= end.pending.to_multiset().add(
            end.deferred.to_multiset(),
        ).add(rejected_requests(end.rejected).to_multiset()));
    }
}

/// Load decides only between admitting and deferring: which requests are
/// rejected, and why, depends on the requests and the limits alone.
pub proof fn lemma_rejections_ignore_load(
    reqs: Seq<PendingRequest>,
    budget_a: nat,
    slots_a: nat,
    budget_b: nat,
    slots_b: nat,
    limits: ExecutorLimits,
    credits: Map<u64, usize>,
)
    ensures
        admit_all(reqs, budget_a, slots_a, limits, credits).rejected == admit_all(
            reqs,
            budget_b,
            slots_b,
            limits,
            credits,
        ).rejected,
    decreases reqs.len(),
{
    if reqs.len() > 0 {
        lemma_rejections_ignore_load(
            reqs.drop_last(),
            budget_a,
            slots_a,
            budget_b,
            slots_b,
            limits,
            credits,
        );
    }
}

/// On an empty instance no acceptable request waits forever: with every slot
/// free and the per-request cap within the pool, the head of the queue is
/// admitted or rejected, never deferred.
pub proof fn lemma_idle_instance_serves_the_head(
    reqs: Seq<PendingRequest>,
    limits: ExecutorLimits,
    credits: Map<u64, usize>,
)
    requires
        reqs.len() > 0,
        limits.max_request_blocks <= limits.available_blocks,
        limits.max_decode_batch_size > 0,
    ensures
        ({
            let end = admit_all(
                reqs,
                free_budget(Seq::empty(), Seq::empty(), limits, credits),
                free_slots(0, 0, limits),
                limits,
                credits,
            );
            match reject_reason(reqs[0], limits) {
                Some(reason) => end.rejected.len() > 0 && end.rejected[0] == (reqs[0], reason),
                None => end.pending.len() > 0 && end.pending[0] == reqs[0],
            }
        }),
    decreases reqs.len(),
{
    if reqs.len() == 1 {
        assert(reqs.drop_last() =~= Seq::<PendingRequest>::empty());
        reveal_with_fuel(admit_all, 2);
    } else {
        lemma_idle_instance_serves_the_head(reqs.drop_last(), limits, credits);
    }
}

/// The text a rejected client gets.
pub open spec fn rejection_text(req: PendingRequest, reason: RejectReason) -> Seq<char> {
    let prompt = req.prompt_len();
    match reason {
        RejectReason::ContextLength { limit } =>
        "request exceeds this model's maximum context length of "@ + decimal(limit as nat)
            + " tokens: requested "@ + decimal(saturated(prompt + req.max_tokens) as nat)
            + " (prompt="@ + decimal(prompt) + " + max_tokens="@ + decimal(req.max_tokens as nat)
            + ")"@,
        RejectReason::EchoPrefillTokens { limit } =>
        "echo request prompt exceeds the profiled prefill limit of "@ + decimal(limit as nat)
            + " tokens: prompt_tokens="@ + decimal(prompt),
        RejectReason::KvBudget =>
        "request requires more KV blocks than this model instance can provide: prompt_tokens="@
            + decimal(prompt) + ", max_request_tokens="@ + decimal(
            kv_tokens(prompt, req.max_tokens as nat),
        ),
    }
}

/// The event says why the request was rejected.
pub open spec fn says_rejected(
    req: PendingRequest,
    reason: RejectReason,
    event: TokenEvent,
) -> bool {
    event matches TokenEvent::Rejected { message, prompt_tokens, completion_tokens } && message@
        == rejection_text(req, reason) && prompt_tokens == req.prompt_len() && completion_tokens
        == 0
}

/// The event a rejected request is answered with.
pub fn rejection_event(req: &PendingRequest, reason: RejectReason) -> (event: TokenEvent)
    ensures
        says_rejected(*req, reason, event),
{
    let prompt: usize = req.prompt_tokens.len();
    let message = match reason {
        RejectReason::ContextLength { limit } => {
            let mut s = String::from_str("request exceeds this model's maximum context length of ");
            push_size(&mut s, limit);
            s.append(" tokens: requested ");
            push_size(&mut s, prompt.saturating_add(req.max_tokens));
            s.append(" (prompt=");
            push_size(&mut s, prompt);
            s.append(" + max_tokens=");
            push_size(&mut s, req.max_tokens);
            s.append(")");
            s
        },
        RejectReason::EchoPrefillTokens { limit } => {
            let mut s = String::from_str(
                "echo request prompt exceeds the profiled prefill limit of ",
            );
            push_size(&mut s, limit);
            s.append(" tokens: prompt_tokens=");
            push_size(&mut s, prompt);
            s
        },
        RejectReason::KvBudget => {
            let mut s = String::from_str(
                "request requires more KV blocks than this model instance can provide: prompt_tokens=",
            );
            push_size(&mut s, prompt);
            s.append(", max_request_tokens=");
            push_size(&mut s, max_request_tokens(req));
            s
        },
    };
    TokenEvent::Rejected { message, prompt_tokens: prompt, completion_tokens: 0 }
}

/// Tells a rejected request's client why. A client that is gone is ignored.
pub fn send_rejection(req: &PendingRequest, reason: RejectReason)
    ensures
        exists|event: TokenEvent, sent: Result<(), TokenEvent>| #[trigger]
            req.token_tx.emits(event, sent) && says_rejected(*req, reason, event),
{
    let event = rejection_event(req, reason);
    let ghost said = event;
    let sent = req.token_tx.send(event);
    assert(req.token_tx.emits(said, sent));
}

/// Live KV occupancy for the load feed.
pub fn load_snapshot(
    kv_total: u64,
    available_blocks: u64,
    num_running_reqs: u64,
    num_waiting_reqs: u64,
    spec_decode: Option<SpecDecodeCounters>,
) -> (r: LoadSnapshot)
    ensures
        r.kv_used_blocks == monus(kv_total as nat, available_blocks as nat),
        r.kv_total_blocks == kv_total,
        r.num_running_reqs == num_running_reqs,
        r.num_waiting_reqs == num_waiting_reqs,
        r.spec_decode == spec_decode,
{
    LoadSnapshot {
        kv_used_blocks: kv_total.saturating_sub(available_blocks),
        kv_total_blocks: kv_total,
        num_running_reqs,
        num_waiting_reqs,
        spec_decode,
    }
}

/// What a freshly built executor is advertised as.
pub struct EngineProfile {
    pub servable_len: u32,
    pub kv_capacity: KvCapacity,
    pub initial_load: LoadSnapshot,
}

/// The advertisement of an executor that has served nothing yet. Its only
/// committed block is the graph-padding slot, so `available_blocks` is one short
/// of the pool, the right side to err on for a capacity ceiling.
pub fn engine_profile(limits: &ExecutorLimits) -> (r: EngineProfile)
    ensures
        r.servable_len == min_nat(
            u32::MAX as nat,
            min_nat(
                limits.max_context_tokens as nat,
                saturated(limits.max_request_blocks * limits.block_size) as nat,
            ),
        ),
        r.kv_capacity.total_blocks == limits.available_blocks,
        r.kv_capacity.block_size == limits.block_size,
        r.initial_load.kv_total_blocks == limits.available_blocks,
        r.initial_load.kv_used_blocks == 0,
        r.initial_load.num_running_reqs == 0,
        r.initial_load.num_waiting_reqs == 0,
        r.initial_load.spec_decode is None,
{
    EngineProfile {
        servable_len: servable_len(
            limits.max_context_tokens,
            limits.max_request_blocks,
            limits.block_size,
        ),
        kv_capacity: KvCapacity {
            total_blocks: limits.available_blocks,
            block_size: limits.block_size,
        },
        initial_load: load_snapshot(
            limits.available_blocks as u64,
            limits.available_blocks as u64,
            0,
            0,
            None,
        ),
    }
}

/// Tokens whose KV a request has written once `generated` tokens are out: its prompt and
/// all of those tokens but the last.
pub open spec fn written(prompt_len: nat, generated: nat) -> int {
    if generated == 0 {
        prompt_len as int
    } else {
        prompt_len + generated - 1
    }
}

/// Tokens a request has to be given room for: its prompt, and its full completion where
/// it decodes at all.
pub open spec fn room(prompt_len: nat, max_tokens: nat) -> nat {
    if max_tokens <= 1 {
        prompt_len
    } else {
        prompt_len + max_tokens
    }
}

/// A request's lifetime blocks are the least number, of one or more, that hold its prompt
/// and its full completion.
pub proof fn lemma_lifetime_is_least(prompt_len: nat, max_tokens: nat, block_size: nat, n: nat)
    requires
        block_size > 0,
        prompt_len + max_tokens <= usize::MAX,
    ensures
        lifetime_blocks(prompt_len, max_tokens, block_size) <= n <==> n >= 1 && room(
            prompt_len,
            max_tokens,
        ) <= n * block_size,
        forall|generated: nat|
            generated <= max_tokens ==> #[trigger] written(prompt_len, generated)
                <= lifetime_blocks(prompt_len, max_tokens, block_size) * block_size,
{
    lemma_ceil_div_is_least(room(prompt_len, max_tokens), block_size, n);
    let all = lifetime_blocks(prompt_len, max_tokens, block_size);
    lemma_ceil_div_is_least(room(prompt_len, max_tokens), block_size, all);
}

/// The reserve of a running request lets it finish: with it, the blocks that hold what the
/// request has written hold its prompt and its full completion too, and so whatever it has
/// written at any count up to its limit. The reserve is no greater than that takes.
pub proof fn lemma_reserve_lets_a_request_finish(
    req: ActiveRequestState,
    block_size: nat,
    held: nat,
    generated: nat,
    enough: nat,
)
    requires
        block_size > 0,
        req.prompt_len + req.max_tokens <= usize::MAX,
        req.generated_count <= req.max_tokens,
        written(req.prompt_len as nat, req.generated_count as nat) <= held * block_size,
        generated <= req.max_tokens,
    ensures
        room(req.prompt_len as nat, req.max_tokens as nat) <= (held + active_growth(
            req,
            block_size,
        )) * block_size,
        written(req.prompt_len as nat, generated) <= (held + active_growth(req, block_size))
            * block_size,
        enough >= 1 && room(req.prompt_len as nat, req.max_tokens as nat) <= enough * block_size
            && (held - 1) * block_size < written(
            req.prompt_len as nat,
            req.generated_count as nat,
        ) ==> active_growth(req, block_size) == 0 || held + active_growth(req, block_size)
            <= enough,
{
    let prompt = req.prompt_len as nat;
    let limit = req.max_tokens as nat;
    let now = kv_tokens(prompt, req.generated_count as nat);
    let all = lifetime_blocks(prompt, limit, block_size);
    let growth = active_growth(req, block_size);
    lemma_ceil_div_is_least(now, block_size, held);
    lemma_lifetime_is_least(prompt, limit, block_size, all);
    lemma_lifetime_is_least(prompt, limit, block_size, enough);
    assert(written(prompt, generated) <= all * block_size);
    assert(all * block_size <= (held + growth) * block_size) by (nonlinear_arith)
        requires
            all <= held + growth,
    ;
    if (held - 1) * block_size < written(prompt, req.generated_count as nat) && held >= 1 {
        lemma_ceil_div_is_least(now, block_size, (held - 1) as nat);
    }
}

/// The reserve of a request mid-prefill lets it finish as well, beside the blocks that its
/// prefix fills and those that its prefetch brought.
pub proof fn lemma_prefill_reserve_lets_a_request_finish(
    req: PendingRequest,
    block_size: nat,
    credits: Map<u64, usize>,
    held: nat,
)
    requires
        block_size > 0,
        req.prompt_len() + req.max_tokens <= usize::MAX,
        req.prefill_pos <= held * block_size,
    ensures
        room(req.prompt_len(), req.max_tokens as nat) <= (held + credit_of(
            credits,
            req.request_id,
        ) + pending_growth(req, block_size, credits)) * block_size,
{
    let all = lifetime_blocks(req.prompt_len(), req.max_tokens as nat, block_size);
    let with = held + credit_of(credits, req.request_id) + pending_growth(
        req,
        block_size,
        credits,
    );
    lemma_ceil_div_is_least(req.prefill_pos as nat, block_size, held);
    lemma_lifetime_is_least(req.prompt_len(), req.max_tokens as nat, block_size, all);
    assert(all * block_size <= with * block_size) by (nonlinear_arith)
        requires
            all <= with,
    ;
}

/// The blocks a request's prefetch brought are those last recorded under its own id, and
/// none where nothing was.
pub proof fn lemma_credit_is_the_requests_own(
    credits: Map<u64, usize>,
    id: RequestId,
    other: u64,
    blocks: usize,
)
    ensures
        credit_of(Map::empty(), id) == 0,
        credit_of(credits.insert(id.0, blocks), id) == blocks,
        credit_of(credits.remove(id.0), id) == 0,
        other != id.0 ==> credit_of(credits.insert(other, blocks), id) == credit_of(credits, id),
        other != id.0 ==> credit_of(credits.remove(other), id) == credit_of(credits, id),
{
}

/// The sum of some numbers.
pub open spec fn sum_of(numbers: Seq<nat>) -> nat
    decreases numbers.len(),
{
    if numbers.len() == 0 {
        0
    } else {
        sum_of(numbers.drop_last()) + numbers.last()
    }
}

/// `more` blocks are no more than a request lacks beside the blocks it has.
pub open spec fn lacks(
    prompt_len: nat,
    max_tokens: nat,
    block_size: nat,
    held: nat,
    more: nat,
) -> bool {
    more == 0 || (held + more - 1) * block_size < room(prompt_len, max_tokens)
}

proof fn lemma_lacks_bounds(
    prompt_len: nat,
    max_tokens: nat,
    block_size: nat,
    held: nat,
    more: nat,
)
    requires
        block_size > 0,
        prompt_len + max_tokens <= usize::MAX,
        lacks(prompt_len, max_tokens, block_size, held, more),
    ensures
        more <= monus(lifetime_blocks(prompt_len, max_tokens, block_size), held),
{
    let all = lifetime_blocks(prompt_len, max_tokens, block_size);
    if more > 0 {
        lemma_lifetime_is_least(prompt_len, max_tokens, block_size, (held + more - 1) as nat);
        lemma_lifetime_is_least(prompt_len, max_tokens, block_size, all);
        if all < held + more {
            assert(all * block_size <= (held + more - 1) * block_size) by (nonlinear_arith)
                requires
                    all <= held + more - 1,
            ;
        }
    }
}

proof fn lemma_active_needs_bound(
    active: Seq<ActiveRequestState>,
    block_size: nat,
    held: Seq<nat>,
    needs: Seq<nat>,
)
    requires
        block_size > 0,
        held.len() == active.len(),
        needs.len() == active.len(),
        forall|i: int|
            0 <= i < active.len() ==> {
                let req = #[trigger] active[i];
                &&& req.prompt_len + req.max_tokens <= usize::MAX
                &&& req.generated_count <= req.max_tokens
                &&& written(req.prompt_len as nat, req.generated_count as nat) <= held[i]
                    * block_size
                &&& lacks(
                    req.prompt_len as nat,
                    req.max_tokens as nat,
                    block_size,
                    held[i],
                    needs[i],
                )
            },
    ensures
        sum_of(needs) <= active_growth_total(active, block_size),
    decreases active.len(),
{
    if active.len() > 0 {
        let n = active.len() - 1;
        assert forall|i: int| 0 <= i < n implies #[trigger] active.drop_last()[i] == active[i]
            && held.drop_last()[i] == held[i] && needs.drop_last()[i] == needs[i] by {}
        lemma_active_needs_bound(
            active.drop_last(),
            block_size,
            held.drop_last(),
            needs.drop_last(),
        );
        let req = active[n];
        lemma_lacks_bounds(
            req.prompt_len as nat,
            req.max_tokens as nat,
            block_size,
            held[n],
            needs[n],
        );
        lemma_ceil_div_is_least(
            kv_tokens(req.prompt_len as nat, req.generated_count as nat),
            block_size,
            held[n],
        );
    }
}

proof fn lemma_pending_needs_bound(
    prefilling: Seq<PendingRequest>,
    block_size: nat,
    credits: Map<u64, usize>,
    held: Seq<nat>,
    needs: Seq<nat>,
)
    requires
        block_size > 0,
        held.len() == prefilling.len(),
        needs.len() == prefilling.len(),
        forall|i: int|
            0 <= i < prefilling.len() ==> {
                let req = #[trigger] prefilling[i];
                &&& req.prompt_len() + req.max_tokens <= usize::MAX
                &&& req.prefill_pos <= held[i] * block_size
                &&& lacks(
                    req.prompt_len(),
                    req.max_tokens as nat,
                    block_size,
                    held[i] + credit_of(credits, req.request_id),
                    needs[i],
                )
            },
    ensures
        sum_of(needs) <= pending_growth_total(prefilling, block_size, credits),
    decreases prefilling.len(),
{
    if prefilling.len() > 0 {
        let n = prefilling.len() - 1;
        assert forall|i: int| 0 <= i < n implies #[trigger] prefilling.drop_last()[i]
            == prefilling[i] && held.drop_last()[i] == held[i] && needs.drop_last()[i]
            == needs[i] by {}
        lemma_pending_needs_bound(
            prefilling.drop_last(),
            block_size,
            credits,
            held.drop_last(),
            needs.drop_last(),
        );
        let req = prefilling[n];
        let credit = credit_of(credits, req.request_id);
        lemma_lacks_bounds(
            req.prompt_len(),
            req.max_tokens as nat,
            block_size,
            held[n] + credit,
            needs[n],
        );
        lemma_ceil_div_is_least(req.prefill_pos as nat, block_size, held[n]);
    }
}

proof fn lemma_admitted_needs_bound(
    admitted: Seq<PendingRequest>,
    block_size: nat,
    credits: Map<u64, usize>,
    drawn: Seq<nat>,
)
    requires
        block_size > 0,
        drawn.len() == admitted.len(),
        forall|i: int|
            0 <= i < admitted.len() ==> {
                let req = #[trigger] admitted[i];
                &&& req.prompt_len() + req.max_tokens <= usize::MAX
                &&& lacks(
                    req.prompt_len(),
                    req.max_tokens as nat,
                    block_size,
                    credit_of(credits, req.request_id),
                    drawn[i],
                )
            },
    ensures
        sum_of(drawn) <= fresh_total(admitted, block_size, credits),
    decreases admitted.len(),
{
    if admitted.len() > 0 {
        let n = admitted.len() - 1;
        assert forall|i: int| 0 <= i < n implies #[trigger] admitted.drop_last()[i] == admitted[i]
            && drawn.drop_last()[i] == drawn[i] by {}
        lemma_admitted_needs_bound(admitted.drop_last(), block_size, credits, drawn.drop_last());
        let req = admitted[n];
        lemma_lacks_bounds(
            req.prompt_len(),
            req.max_tokens as nat,
            block_size,
            credit_of(credits, req.request_id),
            drawn[n],
        );
    }
}

/// Admission leaves room for every admitted request to finish. Take what each newly
/// admitted request draws to hold its prompt and full completion, what each running
/// request lacks of its own beside the blocks that hold what it has written, and the same
/// for each request mid-prefill: where the admissions draw anything, all of it together
/// lies within the available blocks. The decode slots are never overbooked either.
pub proof fn lemma_admission_leaves_room_to_finish(
    deferred: Vec<PendingRequest>,
    active: &[ActiveRequestState],
    prefilling: &[PendingRequest],
    limits: ExecutorLimits,
    credits: HashMap<u64, usize>,
    outcome: AdmissionOutcome,
    drawn: Seq<nat>,
    active_held: Seq<nat>,
    active_needs: Seq<nat>,
    prefill_held: Seq<nat>,
    prefill_needs: Seq<nat>,
)
    requires
        limits.block_size > 0,
        call_ensures(
            admit_deferred_requests,
            (deferred, active, prefilling, &limits, &credits),
            outcome,
        ),
        drawn.len() == outcome.pending@.len(),
        forall|i: int|
            0 <= i < outcome.pending@.len() ==> {
                let req = #[trigger] outcome.pending@[i];
                &&& req.prompt_len() + req.max_tokens <= usize::MAX
                &&& lacks(
                    req.prompt_len(),
                    req.max_tokens as nat,
                    limits.block_size as nat,
                    credit_of(credits@, req.request_id),
                    drawn[i],
                )
            },
        active_held.len() == active@.len(),
        active_needs.len() == active@.len(),
        forall|i: int|
            0 <= i < active@.len() ==> {
                let req = #[trigger] active@[i];
                &&& req.prompt_len + req.max_tokens <= usize::MAX
                &&& req.generated_count <= req.max_tokens
                &&& written(req.prompt_len as nat, req.generated_count as nat) <= active_held[i]
                    * limits.block_size as nat
                &&& lacks(
                    req.prompt_len as nat,
                    req.max_tokens as nat,
                    limits.block_size as nat,
                    active_held[i],
                    active_needs[i],
                )
            },
        prefill_held.len() == prefilling@.len(),
        prefill_needs.len() == prefilling@.len(),
        forall|i: int|
            0 <= i < prefilling@.len() ==> {
                let req = #[trigger] prefilling@[i];
                &&& req.prompt_len() + req.max_tokens <= usize::MAX
                &&& req.prefill_pos <= prefill_held[i] * limits.block_size as nat
                &&& lacks(
                    req.prompt_len(),
                    req.max_tokens as nat,
                    limits.block_size as nat,
                    prefill_held[i] + credit_of(credits@, req.request_id),
                    prefill_needs[i],
                )
            },
    ensures
        sum_of(drawn) == 0 || sum_of(drawn) + sum_of(active_needs) + sum_of(prefill_needs)
            <= limits.available_blocks,
        outcome.pending@.len() == 0 || outcome.pending@.len() + active@.len() + prefilling@.len()
            <= limits.max_decode_batch_size,
{
    let bs = limits.block_size as nat;
    lemma_admitted_needs_bound(outcome.pending@, bs, credits@, drawn);
    lemma_active_needs_bound(active@, bs, active_held, active_needs);
    lemma_pending_needs_bound(prefilling@, bs, credits@, prefill_held, prefill_needs);
    lemma_admission_never_overcommits(
        deferred@,
        free_budget(active@, prefilling@, limits, credits@),
        free_slots(active@.len(), prefilling@.len(), limits),
        limits,
        credits@,
    );
}

/// A request can run here exactly when its prompt and completion fit the context window,
/// an echoed prompt fits one prefill, and the blocks of one request hold it. Otherwise the
/// first of these that fails is the reason.
pub proof fn lemma_rejection_verdict(req: PendingRequest, limits: ExecutorLimits)
    requires
        limits.block_size > 0,
        req.prompt_len() + req.max_tokens <= usize::MAX,
    ensures
        ({
            let in_context = req.prompt_len() + req.max_tokens <= limits.max_context_tokens;
            let in_prefill = req.echo ==> req.prompt_len() <= limits.max_prefill_tokens;
            let in_pool = limits.max_request_blocks >= 1 && room(
                req.prompt_len(),
                req.max_tokens as nat,
            ) <= limits.max_request_blocks * limits.block_size;
            &&& reject_reason(req, limits) is None <==> in_context && in_prefill && in_pool
            &&& !in_context <==> reject_reason(req, limits) == Some(
                RejectReason::ContextLength { limit: limits.max_context_tokens },
            )
            &&& in_context && !in_prefill <==> reject_reason(req, limits) == Some(
                RejectReason::EchoPrefillTokens { limit: limits.max_prefill_tokens },
            )
            &&& in_context && in_prefill && !in_pool <==> reject_reason(req, limits) == Some(
                RejectReason::KvBudget,
            )
        }),
{
    lemma_lifetime_is_least(
        req.prompt_len(),
        req.max_tokens as nat,
        limits.block_size as nat,
        limits.max_request_blocks as nat,
    );
}

/// Requests are taken in order, and none that fits is passed over: a request that can run
/// here is admitted exactly when the blocks beside those of the requests admitted before
/// it hold it and a slot is left. Later requests change nothing for it.
pub proof fn lemma_admission_is_first_come_first_served(
    reqs: Seq<PendingRequest>,
    i: int,
    budget: nat,
    slots: nat,
    limits: ExecutorLimits,
    credits: Map<u64, usize>,
)
    requires
        0 <= i < reqs.len(),
    ensures
        ({
            let before = admit_all(reqs.take(i), budget, slots, limits, credits);
            let after = admit_all(reqs.take(i + 1), budget, slots, limits, credits);
            let end = admit_all(reqs, budget, slots, limits, credits);
            let fits = fresh_total(before.pending, limits.block_size as nat, credits)
                + fresh_blocks(reqs[i], limits.block_size as nat, credits) <= budget
                && before.pending.len() < slots;
            &&& match reject_reason(reqs[i], limits) {
                Some(reason) => after.rejected == before.rejected.push((reqs[i], reason))
                    && after.pending == before.pending && after.deferred == before.deferred,
                None => if fits {
                    after.pending == before.pending.push(reqs[i]) && after.deferred
                        == before.deferred && after.rejected == before.rejected
                } else {
                    after.deferred == before.deferred.push(reqs[i]) && after.pending
                        == before.pending && after.rejected == before.rejected
                },
            }
            &&& after.pending.is_prefix_of(end.pending)
            &&& after.deferred.is_prefix_of(end.deferred)
            &&& after.rejected.is_prefix_of(end.rejected)
        }),
    decreases reqs.len(),
{
    lemma_admission_never_overcommits(reqs.take(i), budget, slots, limits, credits);
    assert(reqs.take(i + 1).drop_last() =~= reqs.take(i));
    if i + 1 == reqs.len() {
        assert(reqs.take(i + 1) =~= reqs);
    } else {
        let head = reqs.drop_last();
        lemma_admission_is_first_come_first_served(head, i, budget, slots, limits, credits);
        assert(head.take(i) =~= reqs.take(i));
        assert(head.take(i + 1) =~= reqs.take(i + 1));
    }
}

/// A request's blocks are taken from the pool once: what it draws at admission and what
/// its prefetch brought hold it together, and it draws nothing where its prefetch brought
/// enough.
pub proof fn lemma_admission_draws_what_is_missing(
    req: PendingRequest,
    block_size: nat,
    credits: Map<u64, usize>,
    drawn: nat,
)
    requires
        block_size > 0,
        req.prompt_len() + req.max_tokens <= usize::MAX,
    ensures
        fresh_blocks(req, block_size, credits) <= drawn <==> drawn + credit_of(
            credits,
            req.request_id,
        ) >= 1 && room(req.prompt_len(), req.max_tokens as nat) <= (drawn + credit_of(
            credits,
            req.request_id,
        )) * block_size,
{
    lemma_lifetime_is_least(
        req.prompt_len(),
        req.max_tokens as nat,
        block_size,
        drawn + credit_of(credits, req.request_id),
    );
}

/// The advertised context is the longest that can be served: a length is within it exactly
/// when it fits the context window, the pool and the wire.
pub proof fn lemma_servable_len_is_the_greatest(
    max_context: usize,
    max_blocks: usize,
    block_size: usize,
    advertised: u32,
    len: usize,
)
    requires
        call_ensures(servable_len, (max_context, max_blocks, block_size), advertised),
    ensures
        len <= advertised <==> len <= u32::MAX && len <= max_context && len <= max_blocks
            * block_size,
{
    assert(max_blocks * block_size >= 0) by (nonlinear_arith);
    lemma_saturated_keeps_sizes(max_blocks * block_size, len);
}

/// A rejected request is told so with the length of its own prompt, and that nothing was
/// generated.
pub proof fn lemma_rejection_is_told(req: PendingRequest, reason: RejectReason, event: TokenEvent)
    requires
        call_ensures(rejection_event, (&req, reason), event),
    ensures
        event is Rejected,
        event->Rejected_prompt_tokens == req.prompt_tokens@.len(),
        event->Rejected_completion_tokens == 0,
        event->Rejected_message@ == rejection_text(req, reason),
{
}

} // verus!
