//! The dispatcher's side: startup across ranks, command dispatch and the checks
//! around each operation.
use vstd::prelude::*;
use vstd::string::*;
use crate::arith::{min_nat, min_size, monus};
use crate::engine::SamplingParams;
use crate::float_bits::{at_least, ONE_BITS, ZERO_BITS};
use crate::scheduler::request::RequestId;
use crate::text::{decimal, push_size};
use crate::tp::error::{drop_mismatch_text, DropExpectation, PrimaryOperation, TpError};
use crate::tp::gate::{
    poisoned_by, poisoned_text, TpCommandDecision, TpCommandStartGate, TpRuntimePoison,
    TpStartupDecision, TpStartupGate,
};
use crate::tp::plan::{
    decode_rows_fit, lemma_decode_shape_verdict, lemma_ordinal_verdict,
    lemma_prefill_shape_verdict, prefill_rows_fit,
    decode_error, ordinal_error, prefill_error, unified_error, validate_cuda_ordinals,
    validate_decode_requests, validate_prefill_chunks, validate_unified_plan, TpDecodeStepItem,
    TpPrefillChunkItem, TpUnifiedPlan,
};
use crate::tp::responses::{
    ack_error, drop_error, exact_error, exact_replies, existence_agrees, existence_of,
    primary_outcome, response_set_text, validate_ack_responses, validate_decode_responses,
    validate_dispatched_responses, validate_drop_responses, validate_prefill_responses,
    validate_unified_responses, DecodeResult, PrefillResult, TpUnifiedResult, TpWorkerReply,
    TpWorkerResponse,
};

verus! {

/// Bytes every rank keeps free for the runtime.
pub const TP_RUNTIME_MEMORY_RESERVE_BYTES: usize = 536_870_912;

const MIB: usize = 1_048_576;

/// The first thing wrong with the limits of a runtime.
pub open spec fn limits_error(
    enable_cuda_graph: bool,
    device_ordinals: Seq<usize>,
    max_prefill_tokens: usize,
) -> Option<TpError> {
    if ordinal_error(device_ordinals) is Some {
        ordinal_error(device_ordinals)
    } else if device_ordinals.len() <= 1 {
        Some(TpError::TooFewDevices { count: device_ordinals.len() as usize })
    } else if enable_cuda_graph {
        Some(TpError::CudaGraph)
    } else if max_prefill_tokens == 0 {
        Some(TpError::ZeroPrefillBudget)
    } else {
        None
    }
}

/// Checks the limits of a runtime before any model is loaded.
pub fn check_runtime_limits(
    enable_cuda_graph: bool,
    device_ordinals: &[usize],
    max_prefill_tokens: usize,
) -> (r: Result<(), TpError>)
    ensures
        match limits_error(enable_cuda_graph, device_ordinals@, max_prefill_tokens) {
            Some(error) => r == Err::<(), TpError>(error),
            None => r is Ok,
        },
{
    match validate_cuda_ordinals(device_ordinals) {
        Err(error) => {
            return Err(error);
        },
        Ok(()) => {},
    }
    if device_ordinals.len() <= 1 {
        return Err(TpError::TooFewDevices { count: device_ordinals.len() });
    }
    if enable_cuda_graph {
        return Err(TpError::CudaGraph);
    }
    if max_prefill_tokens == 0 {
        return Err(TpError::ZeroPrefillBudget);
    }
    Ok(())
}

/// What a loaded rank offers: the size of its cache pages and how many it has.
#[derive(Clone, Copy, Debug, PartialEq, Eq, Structural)]
pub struct RankPages {
    pub page_size: usize,
    pub capacity_pages: usize,
}

/// The first rank whose page size differs from rank 0's.
pub open spec fn page_error(ranks: Seq<RankPages>) -> Option<TpError>
    decreases ranks.len(),
{
    if ranks.len() == 0 {
        None
    } else {
        match page_error(ranks.drop_last()) {
            Some(error) => Some(error),
            None => if ranks.last().page_size != ranks[0].page_size {
                Some(
                    TpError::PageSizeMismatch {
                        rank: (ranks.len() - 1) as usize,
                        rank_page_size: ranks.last().page_size,
                        page_size: ranks[0].page_size,
                    },
                )
            } else {
                None
            },
        }
    }
}

proof fn lemma_page_error_prefix(ranks: Seq<RankPages>, n: int)
    requires
        1 <= n <= ranks.len(),
        page_error(ranks.take(n)) is Some,
    ensures
        page_error(ranks) == page_error(ranks.take(n)),
    decreases ranks.len() - n,
{
    if n == ranks.len() {
        assert(ranks.take(n) =~= ranks);
    } else {
        assert(ranks.take(n + 1).drop_last() =~= ranks.take(n));
        lemma_page_error_prefix(ranks, n + 1);
    }
}

/// The fewest pages any rank has.
pub open spec fn fewest_pages(ranks: Seq<RankPages>) -> nat
    decreases ranks.len(),
{
    if ranks.len() == 0 {
        usize::MAX as nat
    } else {
        min_nat(fewest_pages(ranks.drop_last()), ranks.last().capacity_pages as nat)
    }
}

/// The page size all ranks share, and the pages that requests may use: one page
/// of the poorest rank stays reserved.
#[verifier::loop_isolation(false)]
pub fn shared_pages(ranks: &[RankPages]) -> (r: Result<RankPages, TpError>)
    requires
        ranks@.len() > 0,
    ensures
        match page_error(ranks@) {
            Some(error) => r == Err::<RankPages, TpError>(error),
            None => r matches Ok(shared) && shared.page_size == ranks@[0].page_size
                && shared.capacity_pages == monus(fewest_pages(ranks@), 1),
        },
{
    let page_size: usize = ranks[0].page_size;
    let mut min_capacity_pages: usize = usize::MAX;
    let mut rank: usize = 0;
    assert(ranks@.take(0) =~= Seq::<RankPages>::empty());
    while rank < ranks.len()
        invariant
            rank <= ranks.len(),
            page_error(ranks@.take(rank as int)) is None,
            min_capacity_pages == fewest_pages(ranks@.take(rank as int)),
        decreases ranks.len() - rank,
    {
        proof {
            assert(ranks@.take(rank as int + 1).drop_last() =~= ranks@.take(rank as int));
            if page_error(ranks@.take(rank as int + 1)) is Some {
                lemma_page_error_prefix(ranks@, rank as int + 1);
            }
        }
        let rank_page_size: usize = ranks[rank].page_size;
        if rank_page_size != page_size {
            return Err(TpError::PageSizeMismatch { rank, rank_page_size, page_size });
        }
        min_capacity_pages = min_size(min_capacity_pages, ranks[rank].capacity_pages);
        rank = rank + 1;
    }
    assert(ranks@.take(rank as int) =~= ranks@);
    Ok(RankPages { page_size, capacity_pages: min_capacity_pages.saturating_sub(1) })
}

/// Tokens the prefill scratch is sized for.
pub fn prefill_scratch_tokens(max_prefill_tokens: usize, prefill_chunk_len: usize) -> (r: usize)
    ensures
        r == min_nat(max_prefill_tokens as nat, prefill_chunk_len as nat),
{
    min_size(max_prefill_tokens, prefill_chunk_len)
}

/// How many requests fit in what the reserve and the scratch leave free.
pub open spec fn recurrent_capacity(
    requested: nat,
    free: nat,
    per_request: nat,
    reserve: nat,
    scratch: nat,
) -> nat {
    if per_request == 0 {
        requested
    } else {
        min_nat(requested, monus(monus(free, reserve), scratch) / per_request)
    }
}

pub fn effective_recurrent_capacity(
    requested_max_batch: usize,
    free_bytes: usize,
    recurrent_bytes_per_request: usize,
    runtime_reserve_bytes: usize,
    prefill_scratch_bytes: usize,
) -> (r: usize)
    ensures
        r == recurrent_capacity(
            requested_max_batch as nat,
            free_bytes as nat,
            recurrent_bytes_per_request as nat,
            runtime_reserve_bytes as nat,
            prefill_scratch_bytes as nat,
        ),
{
    if recurrent_bytes_per_request == 0 {
        return requested_max_batch;
    }
    min_size(
        requested_max_batch,
        free_bytes.saturating_sub(runtime_reserve_bytes).saturating_sub(prefill_scratch_bytes)
            / recurrent_bytes_per_request,
    )
}

/// The capacity is never more than was asked for, and the requests it admits fit
/// beside the reserve and the scratch.
pub proof fn lemma_capacity_fits(
    requested: nat,
    free: nat,
    per_request: nat,
    reserve: nat,
    scratch: nat,
)
    requires
        per_request > 0,
    ensures
        recurrent_capacity(requested, free, per_request, reserve, scratch) <= requested,
        recurrent_capacity(requested, free, per_request, reserve, scratch) > 0 ==>
            recurrent_capacity(requested, free, per_request, reserve, scratch) * per_request
            + reserve + scratch <= free,
{
    let left = monus(monus(free, reserve), scratch);
    let n = recurrent_capacity(requested, free, per_request, reserve, scratch);
    let quotient = left / per_request;
    assert(quotient * per_request <= left) by (nonlinear_arith)
        requires
            per_request > 0,
            quotient == left / per_request,
    ;
    assert(n * per_request <= quotient * per_request) by (nonlinear_arith)
        requires
            n <= quotient,
            per_request > 0,
    ;
    if n > 0 {
        assert(n * per_request > 0) by (nonlinear_arith)
            requires
                n > 0,
                per_request > 0,
        ;
    }
}

/// How many requests a rank can hold, or why it can hold none.
pub fn rank_capacity(
    rank: usize,
    requested_max_batch: usize,
    free_bytes: usize,
    recurrent_bytes: usize,
    scratch_bytes: usize,
    scratch_tokens: usize,
) -> (r: Result<usize, TpError>)
    ensures
        ({
            let capacity = recurrent_capacity(
                requested_max_batch as nat,
                free_bytes as nat,
                recurrent_bytes as nat,
                TP_RUNTIME_MEMORY_RESERVE_BYTES as nat,
                scratch_bytes as nat,
            );
            if capacity > 0 {
                r == Ok::<usize, TpError>(capacity as usize) && capacity <= usize::MAX
            } else {
                r == Err::<usize, TpError>(
                    TpError::RankOutOfMemory {
                        rank,
                        free_mib: free_bytes / 1_048_576,
                        request_mib: recurrent_bytes / 1_048_576,
                        reserve_mib: 512,
                        scratch_mib: scratch_bytes / 1_048_576,
                        scratch_tokens,
                    },
                )
            }
        }),
{
    let max_batch: usize = effective_recurrent_capacity(
        requested_max_batch,
        free_bytes,
        recurrent_bytes,
        TP_RUNTIME_MEMORY_RESERVE_BYTES,
        scratch_bytes,
    );
    if max_batch == 0 {
        return Err(
            TpError::RankOutOfMemory {
                rank,
                free_mib: free_bytes / MIB,
                request_mib: recurrent_bytes / MIB,
                reserve_mib: TP_RUNTIME_MEMORY_RESERVE_BYTES / MIB,
                scratch_mib: scratch_bytes / MIB,
                scratch_tokens,
            },
        );
    }
    Ok(max_batch)
}

/// What a rank said before the communicator is set up.
pub enum PreflightReply {
    /// How many requests the rank can hold.
    Ready(usize),
    Failed(String),
    /// The rank is gone.
    Exited,
}

/// What a rank said after it connected.
pub enum StartupReply {
    Connected,
    Failed(String),
    /// The rank is gone.
    Exited,
}

/// The failure of a preflight, by rank.
pub open spec fn preflight_error(replies: Seq<PreflightReply>) -> Option<TpError>
    decreases replies.len(),
{
    if replies.len() == 0 {
        None
    } else {
        match preflight_error(replies.drop_last()) {
            Some(error) => Some(error),
            None => match replies.last() {
                PreflightReply::Ready(_) => None,
                PreflightReply::Failed(message) => Some(TpError::PreflightFailed { message }),
                PreflightReply::Exited => Some(
                    TpError::PreflightExited { rank: (replies.len() - 1) as usize },
                ),
            },
        }
    }
}

/// The batch all ranks can hold.
pub open spec fn agreed_batch(max_batch: nat, replies: Seq<PreflightReply>) -> nat
    decreases replies.len(),
{
    if replies.len() == 0 {
        max_batch
    } else {
        let before = agreed_batch(max_batch, replies.drop_last());
        match replies.last() {
            PreflightReply::Ready(rank_max_batch) => min_nat(before, rank_max_batch as nat),
            _ => before,
        }
    }
}

/// What a startup does next.
#[derive(Clone, Copy, Debug, PartialEq, Eq, Structural)]
pub enum StartupStep {
    /// Spawn the worker of this rank.
    Spawn { rank: usize },
    /// Hear what this rank found before it connects.
    Preflight { rank: usize },
    /// Agree on a batch, arm the watchdog and let the workers connect.
    Agree,
    /// Hear whether this rank connected.
    Start { rank: usize },
    /// Every rank is connected.
    Ready,
    /// Something failed: nothing is left to do.
    Stop,
}

/// Startup across ranks. All workers are spawned, then heard before they connect, then
/// let go, then heard again. Replies are taken rank by rank; the first failure cancels
/// the start of all prepared workers.
pub struct TpStartup {
    world_size: usize,
    max_batch: usize,
    gate: TpStartupGate,
    spawned: usize,
    heard: usize,
    started: usize,
    agreed: usize,
    failed: bool,
}

impl TpStartup {
    pub closed spec fn world(self) -> usize {
        self.world_size
    }

    pub closed spec fn requested(self) -> usize {
        self.max_batch
    }

    pub closed spec fn gate_decision(self) -> TpStartupDecision {
        self.gate.decided()
    }

    pub closed spec fn spawned_spec(self) -> usize {
        self.spawned
    }

    pub closed spec fn heard_spec(self) -> usize {
        self.heard
    }

    pub closed spec fn started_spec(self) -> usize {
        self.started
    }

    pub closed spec fn agreed_spec(self) -> usize {
        self.agreed
    }

    pub closed spec fn has_failed(self) -> bool {
        self.failed
    }

    /// No rank is heard before all were spawned, none is let go before all were heard
    /// and agreed on a batch, and none connects before it was let go.
    pub open spec fn well_formed(self) -> bool {
        &&& self.spawned_spec() <= self.world()
        &&& self.heard_spec() <= self.world()
        &&& self.started_spec() <= self.world()
        &&& self.heard_spec() > 0 ==> self.spawned_spec() == self.world()
        &&& self.agreed_spec() <= self.requested()
        &&& self.gate_decision() == TpStartupDecision::Connect ==> self.spawned_spec()
            == self.world() && self.heard_spec() == self.world() && self.agreed_spec() > 0
        &&& self.started_spec() > 0 ==> self.gate_decision() == TpStartupDecision::Connect
        &&& self.gate_decision() == TpStartupDecision::Cancel ==> self.has_failed()
    }

    /// What comes next.
    pub open spec fn step(self) -> StartupStep {
        if self.has_failed() {
            StartupStep::Stop
        } else if self.spawned_spec() < self.world() {
            StartupStep::Spawn { rank: self.spawned_spec() }
        } else if self.heard_spec() < self.world() {
            StartupStep::Preflight { rank: self.heard_spec() }
        } else if self.gate_decision() == TpStartupDecision::Pending {
            StartupStep::Agree
        } else if self.started_spec() < self.world() {
            StartupStep::Start { rank: self.started_spec() }
        } else {
            StartupStep::Ready
        }
    }

    /// The same runtime is being started.
    pub open spec fn same_runtime(self, other: TpStartup) -> bool {
        &&& self.world() == other.world()
        &&& self.requested() == other.requested()
    }

    /// The workers that wait are released, and none of them connects.
    pub open spec fn cancelled(self, post: TpStartup) -> bool {
        &&& post.has_failed()
        &&& post.gate_decision() == (if self.gate_decision() == TpStartupDecision::Pending {
            TpStartupDecision::Cancel
        } else {
            self.gate_decision()
        })
        &&& post.agreed_spec() == self.agreed_spec()
    }

    pub fn new(world_size: usize, max_batch: usize) -> (r: Self)
        ensures
            r.well_formed(),
            r.world() == world_size,
            r.requested() == max_batch,
            r.gate_decision() == TpStartupDecision::Pending,
            r.spawned_spec() == 0,
            r.heard_spec() == 0,
            r.started_spec() == 0,
            r.agreed_spec() == max_batch,
            !r.has_failed(),
    {
        TpStartup {
            world_size,
            max_batch,
            gate: TpStartupGate::default(),
            spawned: 0,
            heard: 0,
            started: 0,
            agreed: max_batch,
            failed: false,
        }
    }

    pub fn gate(&self) -> (r: TpStartupGate)
        ensures
            r.decided() == self.gate_decision(),
    {
        self.gate
    }

    pub fn next_step(&self) -> (r: StartupStep)
        requires
            self.well_formed(),
        ensures
            r == self.step(),
    {
        if self.failed {
            StartupStep::Stop
        } else if self.spawned < self.world_size {
            StartupStep::Spawn { rank: self.spawned }
        } else if self.heard < self.world_size {
            StartupStep::Preflight { rank: self.heard }
        } else {
            match self.gate.may_connect() {
                None => StartupStep::Agree,
                Some(_) => if self.started < self.world_size {
                    StartupStep::Start { rank: self.started }
                } else {
                    StartupStep::Ready
                },
            }
        }
    }

    /// The next worker runs.
    pub fn worker_spawned(&mut self)
        requires
            old(self).well_formed(),
            old(self).step() is Spawn,
        ensures
            final(self).well_formed(),
            final(self).same_runtime(*old(self)),
            final(self).spawned_spec() == old(self).spawned_spec() + 1,
            final(self).heard_spec() == old(self).heard_spec(),
            final(self).started_spec() == old(self).started_spec(),
            final(self).agreed_spec() == old(self).agreed_spec(),
            final(self).gate_decision() == old(self).gate_decision(),
            !final(self).has_failed(),
    {
        self.spawned = self.spawned + 1;
    }

    /// A worker or the watchdog could not be spawned, or no batch fits: the workers that
    /// wait are released.
    pub fn give_up(&mut self)
        requires
            old(self).well_formed(),
        ensures
            final(self).well_formed(),
            final(self).same_runtime(*old(self)),
            old(self).cancelled(*final(self)),
    {
        self.gate.cancel();
        self.failed = true;
    }

    /// Takes in the preflight reply of the next rank.
    pub fn preflight(&mut self, reply: PreflightReply) -> (r: Result<(), TpError>)
        requires
            old(self).well_formed(),
            old(self).step() is Preflight,
        ensures
            final(self).well_formed(),
            final(self).same_runtime(*old(self)),
            match reply {
                PreflightReply::Ready(rank_max_batch) => {
                    &&& r is Ok
                    &&& !final(self).has_failed()
                    &&& final(self).spawned_spec() == old(self).spawned_spec()
                    &&& final(self).heard_spec() == old(self).heard_spec() + 1
                    &&& final(self).started_spec() == old(self).started_spec()
                    &&& final(self).agreed_spec() == min_nat(
                        old(self).agreed_spec() as nat,
                        rank_max_batch as nat,
                    )
                    &&& final(self).gate_decision() == old(self).gate_decision()
                },
                PreflightReply::Failed(message) => {
                    &&& r == Err::<(), TpError>(TpError::PreflightFailed { message })
                    &&& old(self).cancelled(*final(self))
                },
                PreflightReply::Exited => {
                    &&& r == Err::<(), TpError>(
                        TpError::PreflightExited { rank: old(self).heard_spec() },
                    )
                    &&& old(self).cancelled(*final(self))
                },
            },
    {
        let rank: usize = self.heard;
        match reply {
            PreflightReply::Ready(rank_max_batch) => {
                self.heard = self.heard + 1;
                self.agreed = min_size(self.agreed, rank_max_batch);
                Ok(())
            },
            PreflightReply::Failed(message) => {
                self.give_up();
                Err(TpError::PreflightFailed { message })
            },
            PreflightReply::Exited => {
                self.give_up();
                Err(TpError::PreflightExited { rank })
            },
        }
    }

    /// The batch every rank can hold, once all of them were heard.
    pub fn agree(&self) -> (r: Result<usize, TpError>)
        requires
            self.well_formed(),
            self.step() is Agree,
        ensures
            r == (if self.agreed_spec() > 0 {
                Ok::<usize, TpError>(self.agreed_spec())
            } else {
                Err(TpError::NoRecurrentCapacity)
            }),
    {
        if self.agreed > 0 {
            Ok(self.agreed)
        } else {
            Err(TpError::NoRecurrentCapacity)
        }
    }

    /// What is logged where the ranks hold less than was asked for.
    pub fn reduction_notice(&self) -> (r: Option<String>)
        ensures
            if self.agreed_spec() < self.requested() {
                r matches Some(text) && text@ == "Qwen3.5 TP max_batch reduced from "@ + decimal(
                    self.requested() as nat,
                ) + " to "@ + decimal(self.agreed_spec() as nat)
                    + " by rank-local recurrent-state memory capacity"@
            } else {
                r is None
            },
    {
        if self.agreed < self.max_batch {
            let mut s = String::from_str("Qwen3.5 TP max_batch reduced from ");
            push_size(&mut s, self.max_batch);
            s.append(" to ");
            push_size(&mut s, self.agreed);
            s.append(" by rank-local recurrent-state memory capacity");
            Some(s)
        } else {
            None
        }
    }

    /// Lets the prepared workers connect, once they agreed on a batch.
    pub fn connect(&mut self)
        requires
            old(self).well_formed(),
            old(self).step() is Agree,
            old(self).agreed_spec() > 0,
        ensures
            final(self).well_formed(),
            final(self).same_runtime(*old(self)),
            final(self).gate_decision() == TpStartupDecision::Connect,
            final(self).spawned_spec() == old(self).spawned_spec(),
            final(self).heard_spec() == old(self).heard_spec(),
            final(self).started_spec() == old(self).started_spec(),
            final(self).agreed_spec() == old(self).agreed_spec(),
            !final(self).has_failed(),
    {
        self.gate.connect();
    }

    /// Takes in the startup reply of the next rank.
    pub fn started(&mut self, reply: StartupReply) -> (r: Result<(), TpError>)
        requires
            old(self).well_formed(),
            old(self).step() is Start,
        ensures
            final(self).well_formed(),
            final(self).same_runtime(*old(self)),
            final(self).agreed_spec() == old(self).agreed_spec(),
            final(self).spawned_spec() == old(self).spawned_spec(),
            final(self).heard_spec() == old(self).heard_spec(),
            final(self).gate_decision() == old(self).gate_decision(),
            final(self).has_failed() == (r is Err),
            final(self).started_spec() == old(self).started_spec() + (if r is Ok {
                1int
            } else {
                0int
            }),
            r == (match reply {
                StartupReply::Connected => Ok::<(), TpError>(()),
                StartupReply::Failed(message) => Err(TpError::PreflightFailed { message }),
                StartupReply::Exited => Err(TpError::StartupExited { rank: old(self).started_spec() }),
            }),
    {
        let rank: usize = self.started;
        match reply {
            StartupReply::Connected => {
                self.started = self.started + 1;
                Ok(())
            },
            StartupReply::Failed(message) => {
                self.failed = true;
                Err(TpError::PreflightFailed { message })
            },
            StartupReply::Exited => {
                self.failed = true;
                Err(TpError::StartupExited { rank })
            },
        }
    }

    /// The executor over the connected ranks: what they agreed on, the pages they share,
    /// and what the model says of itself.
    pub fn finish(
        &self,
        pages: RankPages,
        max_position_embeddings: usize,
        eos_token_id: u32,
    ) -> (r: Qwen35TpExecutor)
        requires
            self.well_formed(),
            self.step() is Ready,
        ensures
            r.world_size == self.world(),
            r.max_batch == self.agreed_spec(),
            r.page_size == pages.page_size,
            r.capacity_pages_for_requests == pages.capacity_pages,
            r.max_position_embeddings == max_position_embeddings,
            r.eos_token_id == eos_token_id,
    {
        Qwen35TpExecutor {
            world_size: self.world_size,
            max_batch: self.agreed,
            page_size: pages.page_size,
            capacity_pages_for_requests: pages.capacity_pages,
            max_position_embeddings,
            eos_token_id,
        }
    }
}

/// A startup is ready only once every rank was spawned, heard, let go and connected, and
/// all of them hold at least one request. Once something failed it is never ready.
pub proof fn lemma_ready_only_after_every_rank(startup: TpStartup)
    requires
        startup.well_formed(),
        startup.step() is Ready,
    ensures
        startup.spawned_spec() == startup.world(),
        startup.heard_spec() == startup.world(),
        startup.started_spec() == startup.world(),
        startup.gate_decision() == TpStartupDecision::Connect,
        0 < startup.agreed_spec() <= startup.requested(),
        !startup.has_failed(),
{
}

/// What a run of preflight replies comes to: the first failure, or the batch that
/// every rank can hold.
#[verifier::loop_isolation(false)]
pub fn preflight_ranks(startup: &mut TpStartup, replies: Vec<PreflightReply>) -> (r: Result<
    usize,
    TpError,
>)
    requires
        old(startup).well_formed(),
        !old(startup).has_failed(),
        old(startup).gate_decision() == TpStartupDecision::Pending,
        old(startup).spawned_spec() == old(startup).world(),
        old(startup).heard_spec() == 0,
        old(startup).agreed_spec() == old(startup).requested(),
        replies@.len() == old(startup).world(),
    ensures
        final(startup).well_formed(),
        final(startup).same_runtime(*old(startup)),
        match preflight_error(replies@) {
            Some(error) => {
                &&& r == Err::<usize, TpError>(error)
                &&& final(startup).gate_decision() == TpStartupDecision::Cancel
                &&& final(startup).step() is Stop
            },
            None => {
                let agreed = agreed_batch(old(startup).requested() as nat, replies@);
                &&& final(startup).gate_decision() == TpStartupDecision::Pending
                &&& final(startup).step() is Agree
                &&& final(startup).agreed_spec() == agreed
                &&& r == (if agreed > 0 {
                    Ok::<usize, TpError>(agreed as usize)
                } else {
                    Err(TpError::NoRecurrentCapacity)
                })
            },
        },
{
    let ghost all = replies@;
    let ghost requested = startup.requested();
    let ghost world = startup.world();
    assert(all.take(0) =~= Seq::<PreflightReply>::empty());
    for reply in it: replies
        invariant
            it.seq() == all,
            all.len() == world,
            startup.well_formed(),
            !startup.has_failed(),
            startup.requested() == requested,
            startup.world() == world,
            startup.spawned_spec() == world,
            startup.heard_spec() == it.index(),
            startup.gate_decision() == TpStartupDecision::Pending,
            preflight_error(all.take(it.index() as int)) is None,
            startup.agreed_spec() == agreed_batch(requested as nat, all.take(it.index() as int)),
    {
        proof {
            assert(all.take(it.index() as int + 1).drop_last() =~= all.take(it.index() as int));
            assert(all.take(it.index() as int + 1).last() == reply);
            if preflight_error(all.take(it.index() as int + 1)) is Some {
                lemma_preflight_error_prefix(all, it.index() as int + 1);
            }
        }
        match startup.preflight(reply) {
            Err(error) => {
                return Err(error);
            },
            Ok(()) => {},
        }
    }
    assert(all.take(all.len() as int) =~= all);
    startup.agree()
}

proof fn lemma_preflight_error_prefix(replies: Seq<PreflightReply>, n: int)
    requires
        0 <= n <= replies.len(),
        preflight_error(replies.take(n)) is Some,
    ensures
        preflight_error(replies) == preflight_error(replies.take(n)),
    decreases replies.len() - n,
{
    if n == replies.len() {
        assert(replies.take(n) =~= replies);
    } else {
        assert(replies.take(n + 1).drop_last() =~= replies.take(n));
        lemma_preflight_error_prefix(replies, n + 1);
    }
}

/// The batch agreed on is one that every rank said it can hold.
pub proof fn lemma_agreed_batch_fits_every_rank(max_batch: nat, replies: Seq<PreflightReply>)
    ensures
        agreed_batch(max_batch, replies) <= max_batch,
        forall|i: int|
            0 <= i < replies.len() ==> ((#[trigger] replies[i]) matches PreflightReply::Ready(
                capacity,
            ) ==> agreed_batch(max_batch, replies) <= capacity),
    decreases replies.len(),
{
    if replies.len() > 0 {
        lemma_agreed_batch_fits_every_rank(max_batch, replies.drop_last());
        assert forall|i: int| 0 <= i < replies.len() implies ((#[trigger] replies[i]) matches
        PreflightReply::Ready(capacity) ==> agreed_batch(max_batch, replies) <= capacity) by {
            if i < replies.len() - 1 {
                assert(replies.drop_last()[i] == replies[i]);
            }
        }
    }
}

/// One command on its way to every rank. The ranks hold it behind a gate until
/// the last of them was reached; a rank that cannot be reached cancels it, so that
/// no rank runs what another one never got. It is decided either way once there is
/// no rank left to reach.
pub struct MutatingDispatch {
    world_size: usize,
    operation: &'static str,
    reached: usize,
    gate: TpCommandStartGate,
}

impl MutatingDispatch {
    pub closed spec fn world(self) -> usize {
        self.world_size
    }

    pub closed spec fn operation_spec(self) -> Seq<char> {
        self.operation@
    }

    pub closed spec fn reached_spec(self) -> usize {
        self.reached
    }

    pub closed spec fn gate_decision(self) -> TpCommandDecision {
        self.gate.decided()
    }

    pub open spec fn well_formed(self) -> bool {
        &&& self.reached_spec() <= self.world()
        &&& self.gate_decision() == TpCommandDecision::Execute ==> self.reached_spec()
            == self.world()
        &&& self.gate_decision() == TpCommandDecision::Pending ==> self.reached_spec()
            < self.world()
    }

    /// A command that has reached no rank yet. Without ranks there is none to wait
    /// for, and the command is released at once.
    pub fn new(world_size: usize, operation: &'static str) -> (r: Self)
        ensures
            r.well_formed(),
            r.world() == world_size,
            r.operation_spec() == operation@,
            r.reached_spec() == 0,
            r.gate_decision() == (if world_size == 0 {
                TpCommandDecision::Execute
            } else {
                TpCommandDecision::Pending
            }),
    {
        let mut gate = TpCommandStartGate::default();
        if world_size == 0 {
            let _ = gate.execute();
        }
        MutatingDispatch { world_size, operation, reached: 0, gate }
    }

    /// The rank to send the command to next.
    pub fn next_rank(&self) -> (r: Option<usize>)
        ensures
            r == (if self.reached_spec() < self.world() {
                Some(self.reached_spec())
            } else {
                None::<usize>
            }),
    {
        if self.reached < self.world_size {
            Some(self.reached)
        } else {
            None
        }
    }

    /// The decision that the ranks wait for.
    pub fn decision(&self) -> (r: TpCommandDecision)
        ensures
            r == self.gate_decision(),
    {
        self.gate.decision()
    }

    /// The rank was reached. Reaching the last one releases the command.
    pub fn delivered(&mut self)
        requires
            old(self).well_formed(),
            old(self).reached_spec() < old(self).world(),
            old(self).gate_decision() == TpCommandDecision::Pending,
        ensures
            final(self).well_formed(),
            final(self).world() == old(self).world(),
            final(self).operation_spec() == old(self).operation_spec(),
            final(self).reached_spec() == old(self).reached_spec() + 1,
            final(self).gate_decision() == (if final(self).reached_spec() == old(self).world() {
                TpCommandDecision::Execute
            } else {
                TpCommandDecision::Pending
            }),
    {
        self.reached = self.reached + 1;
        if self.reached == self.world_size {
            self.gate.execute();
        }
    }

    /// The rank could not be reached: the ranks that were drop the command, and
    /// the runtime is poisoned. Returns the failure that stands.
    pub fn failed(&mut self, error: &str, poison: &mut TpRuntimePoison) -> (reason: String)
        requires
            old(self).well_formed(),
            old(self).gate_decision() == TpCommandDecision::Pending,
        ensures
            final(self).well_formed(),
            final(self).world() == old(self).world(),
            final(self).operation_spec() == old(self).operation_spec(),
            final(self).reached_spec() == old(self).reached_spec(),
            final(self).gate_decision() == TpCommandDecision::Cancel,
            final(poison)@ == poisoned_by(
                old(poison)@,
                dispatch_failure_text(
                    old(self).operation_spec(),
                    old(self).reached_spec() as nat,
                    error@,
                ),
            ),
            final(poison)@ == Some(reason@),
    {
        self.gate.cancel();
        let mut s = String::from_str("failed to dispatch ");
        s.append(self.operation);
        s.append(" to TP worker rank ");
        push_size(&mut s, self.reached);
        s.append(": ");
        s.append(error);
        poison.poison(s)
    }
}

pub open spec fn dispatch_failure_text(
    operation: Seq<char>,
    rank: nat,
    error: Seq<char>,
) -> Seq<char> {
    "failed to dispatch "@ + operation + " to TP worker rank "@ + decimal(rank) + ": "@ + error
}

/// A panicked worker poisons the runtime.
pub fn worker_panicked(rank: usize, poison: &mut TpRuntimePoison) -> (reason: String)
    ensures
        final(poison)@ == poisoned_by(
            old(poison)@,
            "worker rank "@ + decimal(rank as nat) + " panicked"@,
        ),
        final(poison)@ == Some(reason@),
{
    let mut s = String::from_str("worker rank ");
    push_size(&mut s, rank);
    s.append(" panicked");
    poison.poison(s)
}

/// Why an operation was refused before anything was dispatched.
pub enum Refusal {
    Poisoned(String),
    Invalid(TpError),
}

/// A request of a prefill plan.
pub struct PrefillStepItem {
    pub request_id: RequestId,
    pub prompt_tokens: Vec<u32>,
    pub logprobs: usize,
}

/// A request of a decode plan.
#[derive(Clone, Copy)]
pub struct DecodeStepItem {
    pub request_id: RequestId,
    pub token_id: u32,
    pub logprobs: usize,
}

pub open spec fn greedy(params: SamplingParams) -> bool {
    &&& params.temperature == 0
    &&& params.top_k == -1
    &&& params.top_p == 0x3f80_0000
    &&& !params.ignore_eos
}

/// The chunks of a prefill plan: each request's whole prompt, sampled greedily.
pub fn prefill_plan_chunks(requests: Vec<PrefillStepItem>) -> (r: Result<
    Vec<TpPrefillChunkItem>,
    TpError,
>)
    ensures
        if requests@.len() == 0 {
            r == Err::<Vec<TpPrefillChunkItem>, TpError>(TpError::EmptyPrefillPlan)
        } else {
            &&& r matches Ok(chunks)
            &&& chunks@.len() == requests@.len()
            &&& forall|i: int|
                0 <= i < requests@.len() ==> {
                    &&& (#[trigger] chunks@[i]).request_id == requests@[i].request_id
                    &&& chunks@[i].prompt_tokens == requests@[i].prompt_tokens
                    &&& chunks@[i].logprobs == requests@[i].logprobs
                    &&& chunks@[i].finish_prefill
                    &&& greedy(chunks@[i].sampling_params)
                }
        },
{
    if requests.is_empty() {
        return Err(TpError::EmptyPrefillPlan);
    }
    let ghost all = requests@;
    let mut chunks: Vec<TpPrefillChunkItem> = Vec::new();
    for request in it: requests
        invariant
            it.seq() == all,
            chunks@.len() == it.index(),
            forall|i: int|
                0 <= i < it.index() ==> {
                    &&& (#[trigger] chunks@[i]).request_id == all[i].request_id
                    &&& chunks@[i].prompt_tokens == all[i].prompt_tokens
                    &&& chunks@[i].logprobs == all[i].logprobs
                    &&& chunks@[i].finish_prefill
                    &&& greedy(chunks@[i].sampling_params)
                },
    {
        chunks.push(
            TpPrefillChunkItem::new(
                request.request_id,
                request.prompt_tokens,
                request.logprobs,
                true,
            ),
        );
    }
    Ok(chunks)
}

/// The rows of a decode plan, sampled greedily.
pub fn decode_plan_items(requests: &[DecodeStepItem]) -> (r: Result<
    Vec<TpDecodeStepItem>,
    TpError,
>)
    ensures
        if requests@.len() == 0 {
            r == Err::<Vec<TpDecodeStepItem>, TpError>(TpError::EmptyDecodePlan)
        } else {
            &&& r matches Ok(items)
            &&& items@.len() == requests@.len()
            &&& forall|i: int|
                0 <= i < requests@.len() ==> {
                    &&& (#[trigger] items@[i]).request_id == requests@[i].request_id
                    &&& items@[i].token_id == requests@[i].token_id
                    &&& items@[i].logprobs == requests@[i].logprobs
                    &&& greedy(items@[i].sampling_params)
                }
        },
{
    if requests.len() == 0 {
        return Err(TpError::EmptyDecodePlan);
    }
    let mut items: Vec<TpDecodeStepItem> = Vec::new();
    let mut i: usize = 0;
    while i < requests.len()
        invariant
            i <= requests.len(),
            items@.len() == i,
            forall|k: int|
                0 <= k < i ==> {
                    &&& (#[trigger] items@[k]).request_id == requests@[k].request_id
                    &&& items@[k].token_id == requests@[k].token_id
                    &&& items@[k].logprobs == requests@[k].logprobs
                    &&& greedy(items@[k].sampling_params)
                },
        decreases requests.len() - i,
    {
        let request = requests[i];
        items.push(
            TpDecodeStepItem::new(
                request.request_id,
                request.token_id,
                request.logprobs,
                SamplingParams::default(),
            ),
        );
        i = i + 1;
    }
    Ok(items)
}

/// What a poisoned runtime, or else a check, answers.
pub open spec fn refusal_of(
    poison: Option<Seq<char>>,
    error: Option<TpError>,
    r: Result<(), Refusal>,
) -> bool {
    match poison {
        Some(reason) => r matches Err(Refusal::Poisoned(message)) && message@ == poisoned_text(
            reason,
        ),
        None => match error {
            Some(error) => r == Err::<(), Refusal>(Refusal::Invalid(error)),
            None => r is Ok,
        },
    }
}

/// The dispatcher of a tensor-parallel runtime. Rank 0 returns what the scheduler
/// sees; every rank runs the same commands in the same order.
#[derive(Clone, Copy, Debug)]
pub struct Qwen35TpExecutor {
    pub world_size: usize,
    pub max_batch: usize,
    pub page_size: usize,
    pub capacity_pages_for_requests: usize,
    pub max_position_embeddings: usize,
    pub eos_token_id: u32,
}

impl Qwen35TpExecutor {
    pub fn world_size(&self) -> (r: usize)
        ensures
            r == self.world_size,
    {
        self.world_size
    }

    pub fn max_batch(&self) -> (r: usize)
        ensures
            r == self.max_batch,
    {
        self.max_batch
    }

    pub fn page_size(&self) -> (r: usize)
        ensures
            r == self.page_size,
    {
        self.page_size
    }

    pub fn capacity_pages_for_requests(&self) -> (r: usize)
        ensures
            r == self.capacity_pages_for_requests,
    {
        self.capacity_pages_for_requests
    }

    pub fn max_position_embeddings(&self) -> (r: usize)
        ensures
            r == self.max_position_embeddings,
    {
        self.max_position_embeddings
    }

    pub fn is_stop_token(&self, token_id: u32) -> (r: bool)
        ensures
            r == (token_id == self.eos_token_id),
    {
        token_id == self.eos_token_id
    }

    /// Checks a prefill before it is dispatched.
    pub fn begin_prefill(&self, poison: &TpRuntimePoison, chunks: &[TpPrefillChunkItem]) -> (r:
        Result<(), Refusal>)
        ensures
            refusal_of(
                poison@,
                if chunks@.len() == 0 {
                    Some(TpError::EmptyPrefillCommand)
                } else {
                    prefill_error(chunks@)
                },
                r,
            ),
    {
        match poison.ensure_healthy() {
            Err(message) => {
                return Err(Refusal::Poisoned(message));
            },
            Ok(()) => {},
        }
        if chunks.len() == 0 {
            return Err(Refusal::Invalid(TpError::EmptyPrefillCommand));
        }
        match validate_prefill_chunks(chunks) {
            Err(error) => Err(Refusal::Invalid(error)),
            Ok(()) => Ok(()),
        }
    }

    /// The result of a prefill, from the responses of all ranks.
    pub fn complete_prefill(
        &self,
        responses: Vec<TpWorkerResponse>,
        poison: &mut TpRuntimePoison,
    ) -> (r: Result<PrefillResult, String>)
        ensures
            match primary_outcome(
                responses@,
                self.world_size,
                PrimaryOperation::Prefill,
                "prefill",
            ) {
                Ok(reply) => {
                    &&& r matches Ok(result)
                    &&& reply == TpWorkerReply::Prefill(result)
                    &&& final(poison)@ == old(poison)@
                },
                Err(error) => {
                    &&& r matches Err(reason)
                    &&& final(poison)@ == Some(reason@)
                    &&& final(poison)@ == poisoned_by(
                        old(poison)@,
                        response_set_text("prefill chunks"@, error.text()),
                    )
                },
            },
    {
        validate_dispatched_responses(
            validate_prefill_responses(responses, self.world_size),
            "prefill chunks",
            poison,
        )
    }

    /// Checks a decode before it is dispatched.
    pub fn begin_decode(&self, poison: &TpRuntimePoison, requests: &[TpDecodeStepItem]) -> (r:
        Result<(), Refusal>)
        ensures
            refusal_of(
                poison@,
                if requests@.len() == 0 {
                    Some(TpError::EmptyDecodePlan)
                } else {
                    decode_error(requests@)
                },
                r,
            ),
    {
        match poison.ensure_healthy() {
            Err(message) => {
                return Err(Refusal::Poisoned(message));
            },
            Ok(()) => {},
        }
        if requests.len() == 0 {
            return Err(Refusal::Invalid(TpError::EmptyDecodePlan));
        }
        match validate_decode_requests(requests) {
            Err(error) => Err(Refusal::Invalid(error)),
            Ok(()) => Ok(()),
        }
    }

    /// The result of a decode, from the responses of all ranks.
    pub fn complete_decode(
        &self,
        responses: Vec<TpWorkerResponse>,
        poison: &mut TpRuntimePoison,
    ) -> (r: Result<DecodeResult, String>)
        ensures
            match primary_outcome(
                responses@,
                self.world_size,
                PrimaryOperation::Decode,
                "decode",
            ) {
                Ok(reply) => {
                    &&& r matches Ok(result)
                    &&& reply == TpWorkerReply::Decode(result)
                    &&& final(poison)@ == old(poison)@
                },
                Err(error) => {
                    &&& r matches Err(reason)
                    &&& final(poison)@ == Some(reason@)
                    &&& final(poison)@ == poisoned_by(
                        old(poison)@,
                        response_set_text("decode step"@, error.text()),
                    )
                },
            },
    {
        validate_dispatched_responses(
            validate_decode_responses(responses, self.world_size),
            "decode step",
            poison,
        )
    }

    /// Checks a unified step before it is dispatched.
    pub fn begin_unified(&self, poison: &TpRuntimePoison, plan: &TpUnifiedPlan) -> (r: Result<
        (),
        Refusal,
    >)
        ensures
            refusal_of(poison@, unified_error(*plan, self.max_batch), r),
    {
        match poison.ensure_healthy() {
            Err(message) => {
                return Err(Refusal::Poisoned(message));
            },
            Ok(()) => {},
        }
        match validate_unified_plan(plan, self.max_batch) {
            Err(error) => Err(Refusal::Invalid(error)),
            Ok(()) => Ok(()),
        }
    }

    /// The result of a unified step, from the responses of all ranks.
    pub fn complete_unified(
        &self,
        responses: Vec<TpWorkerResponse>,
        poison: &mut TpRuntimePoison,
    ) -> (r: Result<TpUnifiedResult, String>)
        ensures
            match primary_outcome(
                responses@,
                self.world_size,
                PrimaryOperation::Unified,
                "unified step",
            ) {
                Ok(reply) => {
                    &&& r matches Ok(result)
                    &&& reply == TpWorkerReply::Unified(result)
                    &&& final(poison)@ == old(poison)@
                },
                Err(error) => {
                    &&& r matches Err(reason)
                    &&& final(poison)@ == Some(reason@)
                    &&& final(poison)@ == poisoned_by(
                        old(poison)@,
                        response_set_text("unified step"@, error.text()),
                    )
                },
            },
    {
        validate_dispatched_responses(
            validate_unified_responses(responses, self.world_size),
            "unified step",
            poison,
        )
    }

    /// Checks that a request may be dropped.
    pub fn begin_drop(&self, poison: &TpRuntimePoison) -> (r: Result<(), Refusal>)
        ensures
            refusal_of(poison@, None, r),
    {
        match poison.ensure_healthy() {
            Err(message) => Err(Refusal::Poisoned(message)),
            Ok(()) => Ok(()),
        }
    }

    /// Settles a drop: every rank must have held the request, or none.
    pub fn complete_drop(
        &self,
        responses: Vec<TpWorkerResponse>,
        expectation: DropExpectation,
        poison: &mut TpRuntimePoison,
    ) -> (r: Result<(), String>)
        ensures
            match drop_failure(responses@, self.world_size, expectation) {
                Some(text) => {
                    &&& r matches Err(reason)
                    &&& final(poison)@ == Some(reason@)
                    &&& final(poison)@ == poisoned_by(
                        old(poison)@,
                        response_set_text("drop request"@, text),
                    )
                },
                None => r is Ok && final(poison)@ == old(poison)@,
            },
    {
        validate_dispatched_responses(
            validate_drop_responses(responses, self.world_size, expectation),
            "drop request",
            poison,
        )
    }

    /// Settles a ping: every rank acknowledged.
    pub fn complete_ping(
        &self,
        responses: Vec<TpWorkerResponse>,
        poison: &mut TpRuntimePoison,
    ) -> (r: Result<(), String>)
        ensures
            ({
                let error = match exact_error(responses@, self.world_size, "ping") {
                    Some(error) => Some(error),
                    None => ack_error(exact_replies(responses@, self.world_size), "ping"),
                };
                match error {
                    Some(error) => {
                        &&& r matches Err(reason)
                        &&& final(poison)@ == Some(reason@)
                        &&& final(poison)@ == poisoned_by(
                            old(poison)@,
                            response_set_text("ping"@, error.text()),
                        )
                    },
                    None => r is Ok && final(poison)@ == old(poison)@,
                }
            }),
    {
        validate_dispatched_responses(
            validate_ack_responses(responses, self.world_size, "ping"),
            "ping",
            poison,
        )
    }

    /// A result that does not fit the plan it came from poisons the runtime.
    pub fn poison_artifact_contract(
        &self,
        operation: &str,
        error: &str,
        poison: &mut TpRuntimePoison,
    ) -> (reason: String)
        ensures
            final(poison)@ == poisoned_by(
                old(poison)@,
                "invalid Qwen3.5 TP "@ + operation@ + " artifact set: "@ + error@,
            ),
            final(poison)@ == Some(reason@),
    {
        let mut s = String::from_str("invalid Qwen3.5 TP ");
        s.append(operation);
        s.append(" artifact set: ");
        s.append(error);
        poison.poison(s)
    }
}

/// What is wrong with the answers to a drop.
pub open spec fn drop_failure(
    responses: Seq<TpWorkerResponse>,
    world_size: usize,
    expectation: DropExpectation,
) -> Option<Seq<char>> {
    let replies = exact_replies(responses, world_size);
    match exact_error(responses, world_size, "drop request") {
        Some(error) => Some(error.text()),
        None => match drop_error(replies) {
            Some(error) => Some(error.text()),
            None => if existence_agrees(existence_of(replies), expectation) {
                None
            } else {
                Some(drop_mismatch_text(expectation, existence_of(replies)))
            },
        },
    }
}

/// A runtime's limits are accepted exactly when there are two or more devices, all
/// different and below sixteen, the graph is off, and there is a prefill budget.
pub proof fn lemma_limits_verdict(
    enable_cuda_graph: bool,
    device_ordinals: Seq<usize>,
    max_prefill_tokens: usize,
)
    ensures
        limits_error(enable_cuda_graph, device_ordinals, max_prefill_tokens) is None <==> {
            &&& device_ordinals.len() >= 2
            &&& device_ordinals.no_duplicates()
            &&& forall|i: int|
                0 <= i < device_ordinals.len() ==> (#[trigger] device_ordinals[i]) < 16
            &&& !enable_cuda_graph
            &&& max_prefill_tokens > 0
        },
{
    lemma_ordinal_verdict(device_ordinals);
}

/// The ranks share a page size exactly when all of theirs are equal, and the fewest
/// pages are what one of the ranks has and none has less of.
pub proof fn lemma_pages_verdict(ranks: Seq<RankPages>)
    requires
        ranks.len() > 0,
    ensures
        page_error(ranks) is None <==> forall|i: int, j: int|
            0 <= i < ranks.len() && 0 <= j < ranks.len() ==> (#[trigger] ranks[i]).page_size == (
            #[trigger] ranks[j]).page_size,
        forall|i: int| 0 <= i < ranks.len() ==> fewest_pages(ranks) <= (
        #[trigger] ranks[i]).capacity_pages,
        exists|i: int|
            0 <= i < ranks.len() && fewest_pages(ranks) == (#[trigger] ranks[i]).capacity_pages,
    decreases ranks.len(),
{
    let head = ranks.drop_last();
    let n = ranks.len() - 1;
    assert forall|i: int| 0 <= i < n implies head[i] == #[trigger] ranks[i] by {}
    if n > 0 {
        lemma_pages_verdict(head);
        let low = choose|i: int|
            0 <= i < head.len() && fewest_pages(head) == (#[trigger] head[i]).capacity_pages;
        assert(ranks[low] == head[low]);
        assert(ranks[n] == ranks.last());
        assert forall|i: int| 0 <= i < ranks.len() implies fewest_pages(ranks) <= (
        #[trigger] ranks[i]).capacity_pages by {
            if i < n {
                assert(fewest_pages(head) <= head[i].capacity_pages);
            }
        }
        if page_error(ranks) is None {
            assert forall|i: int, j: int| 0 <= i < ranks.len() && 0 <= j < ranks.len() implies (
            #[trigger] ranks[i]).page_size == (#[trigger] ranks[j]).page_size by {
                if i < n {
                    assert(head[i].page_size == head[0].page_size);
                }
                if j < n {
                    assert(head[j].page_size == head[0].page_size);
                }
            }
        } else if page_error(head) is Some {
            let (i, j) = choose|i: int, j: int|
                0 <= i < head.len() && 0 <= j < head.len() && (#[trigger] head[i]).page_size != (
                #[trigger] head[j]).page_size;
            assert(ranks[i].page_size != ranks[j].page_size);
        } else {
            assert(ranks[n].page_size != ranks[0].page_size);
        }
    } else {
        assert(head =~= Seq::<RankPages>::empty());
        reveal_with_fuel(page_error, 2);
        reveal_with_fuel(fewest_pages, 2);
        assert(ranks[0] == ranks.last());
    }
}

/// The capacity of a rank is the greatest that fits: as much as was asked for, or one
/// request more would not fit beside the reserve and the scratch.
pub proof fn lemma_capacity_is_the_greatest(
    requested: nat,
    free: nat,
    per_request: nat,
    reserve: nat,
    scratch: nat,
    n: nat,
)
    requires
        0 < n <= requested,
        n * per_request + reserve + scratch <= free,
    ensures
        n <= recurrent_capacity(requested, free, per_request, reserve, scratch),
{
    if per_request > 0 {
        let left = monus(monus(free, reserve), scratch);
        assert(n * per_request >= 0) by (nonlinear_arith);
        assert(left >= n * per_request);
        assert(left / per_request >= n) by (nonlinear_arith)
            requires
                left >= n * per_request,
                per_request > 0,
        ;
    }
}

/// The preflight passes exactly when every rank is ready, and then the batch agreed on
/// is what was asked for or what one of the ranks said, whichever is least.
pub proof fn lemma_preflight_verdict(max_batch: nat, replies: Seq<PreflightReply>)
    ensures
        preflight_error(replies) is None <==> forall|i: int|
            0 <= i < replies.len() ==> (#[trigger] replies[i]) is Ready,
        agreed_batch(max_batch, replies) == max_batch || exists|i: int|
            0 <= i < replies.len() && (#[trigger] replies[i]) is Ready && replies[i]->Ready_0
                == agreed_batch(max_batch, replies),
    decreases replies.len(),
{
    if replies.len() > 0 {
        let head = replies.drop_last();
        let n = replies.len() - 1;
        lemma_preflight_verdict(max_batch, head);
        assert forall|i: int| 0 <= i < n implies head[i] == #[trigger] replies[i] by {}
        assert(replies[n] == replies.last());
        if preflight_error(head) is Some {
            let i = choose|i: int| 0 <= i < head.len() && !((#[trigger] head[i]) is Ready);
            assert(!(replies[i] is Ready));
        }
        if agreed_batch(max_batch, head) != max_batch {
            let i = choose|i: int|
                0 <= i < head.len() && (#[trigger] head[i]) is Ready && head[i]->Ready_0
                    == agreed_batch(max_batch, head);
            assert(replies[i] == head[i]);
        }
    }
}

/// A poisoned runtime runs nothing: every operation is refused with the first failure,
/// whatever is asked of it. A healthy one refuses only what is wrong in itself.
pub proof fn lemma_poisoned_runtime_refuses(
    poison: Option<Seq<char>>,
    error: Option<TpError>,
    r: Result<(), Refusal>,
)
    requires
        refusal_of(poison, error, r),
    ensures
        r is Ok <==> poison is None && error is None,
        (r matches Err(Refusal::Poisoned(_))) <==> poison is Some,
        r matches Err(Refusal::Invalid(e)) ==> poison is None && error == Some(e),
{
}

/// A prefill is dispatched exactly on a healthy runtime, with rows that fit one command.
pub proof fn lemma_prefill_begins(
    executor: Qwen35TpExecutor,
    poison: TpRuntimePoison,
    chunks: &[TpPrefillChunkItem],
    r: Result<(), Refusal>,
)
    requires
        call_ensures(Qwen35TpExecutor::begin_prefill, (&executor, &poison, chunks), r),
    ensures
        r is Ok <==> poison@ is None && chunks@.len() > 0 && prefill_rows_fit(chunks@),
{
    lemma_prefill_shape_verdict(chunks@);
}

/// A decode is dispatched exactly on a healthy runtime, with one or more rows of distinct
/// requests.
pub proof fn lemma_decode_begins(
    executor: Qwen35TpExecutor,
    poison: TpRuntimePoison,
    requests: &[TpDecodeStepItem],
    r: Result<(), Refusal>,
)
    requires
        call_ensures(Qwen35TpExecutor::begin_decode, (&executor, &poison, requests), r),
    ensures
        r is Ok <==> poison@ is None && requests@.len() > 0 && decode_rows_fit(requests@),
{
    lemma_decode_shape_verdict(requests@);
}

/// A poisoned runtime answers with the reason it was poisoned for.
pub proof fn lemma_poisoned_runtime_says_why(
    reason: Seq<char>,
    error: Option<TpError>,
    r: Result<(), Refusal>,
)
    requires
        refusal_of(Some(reason), error, r),
    ensures
        r is Err,
        r->Err_0 is Poisoned,
        ({
            let text = r->Err_0->Poisoned_0@;
            &&& text.len() >= reason.len()
            &&& text.skip(text.len() - reason.len()) == reason
        }),
{
    let text = r->Err_0->Poisoned_0@;
    assert(text.skip(text.len() - reason.len()) =~= reason);
}

/// Plans sample greedily: without temperature, from the whole distribution, up to the end
/// of the sequence. There is only one way to do so.
pub proof fn lemma_plans_sample_greedily(a: SamplingParams, b: SamplingParams)
    requires
        greedy(a),
    ensures
        at_least(ZERO_BITS, a.temperature) && at_least(a.temperature, ZERO_BITS),
        at_least(a.top_p, ONE_BITS) && at_least(ONE_BITS, a.top_p),
        a.top_k < 0,
        !a.ignore_eos,
        greedy(b) <==> a == b,
{
}

/// The first rank at fault is named: the first whose pages differ from the first rank's,
/// and the first that is gone before it was ready.
pub proof fn lemma_first_rank_at_fault_is_named(
    ranks: Seq<RankPages>,
    replies: Seq<PreflightReply>,
    i: int,
)
    requires
        ranks.len() <= usize::MAX,
        replies.len() <= usize::MAX,
    ensures
        0 < i < ranks.len() && ranks[i].page_size != ranks[0].page_size && (forall|k: int|
            0 <= k < i ==> (#[trigger] ranks[k]).page_size == ranks[0].page_size) ==> page_error(
            ranks,
        ) == Some(
            TpError::PageSizeMismatch {
                rank: i as usize,
                rank_page_size: ranks[i].page_size,
                page_size: ranks[0].page_size,
            },
        ),
        0 <= i < replies.len() && replies[i] is Exited && (forall|k: int|
            0 <= k < i ==> (#[trigger] replies[k]) is Ready) ==> preflight_error(replies) == Some(
            TpError::PreflightExited { rank: i as usize },
        ),
        0 <= i < replies.len() && replies[i] is Failed && (forall|k: int|
            0 <= k < i ==> (#[trigger] replies[k]) is Ready) ==> preflight_error(replies) == Some(
            TpError::PreflightFailed { message: replies[i]->Failed_0 },
        ),
    decreases ranks.len() + replies.len(),
{
    if 0 < i < ranks.len() {
        let head = ranks.drop_last();
        let n = ranks.len() - 1;
        assert forall|k: int| 0 <= k < n implies head[k] == #[trigger] ranks[k] by {}
        assert(ranks[n] == ranks.last());
        if i < n {
            lemma_first_rank_at_fault_is_named(head, Seq::empty(), i);
        } else {
            lemma_pages_verdict(head);
        }
    }
    if 0 <= i < replies.len() {
        let head = replies.drop_last();
        let n = replies.len() - 1;
        assert forall|k: int| 0 <= k < n implies head[k] == #[trigger] replies[k] by {}
        assert(replies[n] == replies.last());
        if i < n {
            lemma_first_rank_at_fault_is_named(Seq::empty(), head, i);
        } else {
            lemma_preflight_verdict(0, head);
        }
    }
}

} // verus!
