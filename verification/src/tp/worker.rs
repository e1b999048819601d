//! The requests one rank holds, and the decisions around each of its rows.
//!
//! The device work of a row happens outside; a worker is asked for the next step
//! of a command, the step is carried out, and the worker is told.
use vstd::prelude::*;
use vstd::string::*;
use crate::scheduler::request::RequestId;
use crate::tp::error::TpError;
use crate::tp::gate::{poisoned_by, TpCommandDecision, TpRuntimePoison};
use crate::tp::plan::{
    decode_error, decode_rows_fit, lemma_decode_shape_verdict, lemma_prefill_ids_are_the_rows,
    lemma_prefill_shape_verdict, lemma_unified_shape_verdict, prefill_error, prefill_ids,
    prefill_rows_fit, unified_error, validate_decode_requests, validate_prefill_chunks,
    validate_unified_plan, TpDecodeStepItem, TpPrefillChunkItem, TpUnifiedPlan,
};
use crate::tp::responses::{
    rank_failure, rank_failure_text, DecodeRequestResult, DecodeResult, PrefillRequestResult,
    PrefillResult, TpUnifiedResult, TpWorkerReply, TpWorkerResponse, WorkerStateSnapshot,
};

verus! {

#[derive(Clone, Copy, Debug, PartialEq, Eq, Structural)]
pub enum TpRequestPhase {
    Prefilling,
    Decoding,
}

/// One resident request, with the device resources that belong to it.
pub struct TpRequestState<S> {
    pub request_id: RequestId,
    pub phase: TpRequestPhase,
    pub resources: S,
}

/// The requests of one rank.
pub struct TpWorkerState<S> {
    rank: usize,
    max_batch: usize,
    requests: Vec<TpRequestState<S>>,
}

/// Request ids and phases, in slot order.
pub type RequestTable = Seq<(u64, TpRequestPhase)>;

/// The slot of a request.
pub open spec fn position(table: RequestTable, id: u64) -> Option<int>
    decreases table.len(),
{
    if table.len() == 0 {
        None
    } else {
        match position(table.drop_last(), id) {
            Some(i) => Some(i),
            None => if table.last().0 == id {
                Some(table.len() - 1)
            } else {
                None
            },
        }
    }
}

/// The phase of a request, if it is resident.
pub open spec fn phase_of(table: RequestTable, id: u64) -> Option<TpRequestPhase> {
    match position(table, id) {
        Some(i) => Some(table[i].1),
        None => None,
    }
}

/// No request is resident twice.
pub open spec fn distinct(table: RequestTable) -> bool {
    forall|i: int, j: int|
        0 <= i < j < table.len() ==> (#[trigger] table[i]).0 != (#[trigger] table[j]).0
}

pub(crate) proof fn lemma_position(table: RequestTable, id: u64)
    ensures
        match position(table, id) {
            Some(i) => 0 <= i < table.len() && table[i].0 == id && forall|j: int|
                0 <= j < i ==> (#[trigger] table[j]).0 != id,
            None => forall|j: int| 0 <= j < table.len() ==> (#[trigger] table[j]).0 != id,
        },
    decreases table.len(),
{
    if table.len() > 0 {
        let head = table.drop_last();
        lemma_position(head, id);
        assert forall|j: int|
            0 <= j < table.len() - 1 implies (#[trigger] table[j]) == head[j] by {}
    }
}

/// How many of the chunks need a new slot.
pub open spec fn new_rows(table: RequestTable, chunks: Seq<TpPrefillChunkItem>) -> nat
    decreases chunks.len(),
{
    if chunks.len() == 0 {
        0
    } else {
        new_rows(table, chunks.drop_last()) + (if position(table, chunks.last().request_id.0)
            is None {
            1nat
        } else {
            0nat
        })
    }
}

/// The table after one prefill row: the request gets a slot if it has none, and
/// the last chunk of its prompt makes it ready to decode.
pub open spec fn row_effect(table: RequestTable, chunk: TpPrefillChunkItem) -> RequestTable {
    let id = chunk.request_id.0;
    let entered = entered(table, id);
    if chunk.finish_prefill {
        entered.update(slot_of(table, id), (id, TpRequestPhase::Decoding))
    } else {
        entered
    }
}

pub open spec fn entered(table: RequestTable, id: u64) -> RequestTable {
    match position(table, id) {
        Some(_) => table,
        None => table.push((id, TpRequestPhase::Prefilling)),
    }
}

pub open spec fn slot_of(table: RequestTable, id: u64) -> int {
    match position(table, id) {
        Some(i) => i,
        None => table.len() as int,
    }
}

/// The table after a run of prefill rows.
pub open spec fn rows_effect(table: RequestTable, chunks: Seq<TpPrefillChunkItem>) -> RequestTable
    decreases chunks.len(),
{
    if chunks.len() == 0 {
        table
    } else {
        row_effect(rows_effect(table, chunks.drop_last()), chunks.last())
    }
}

/// Why a prefill command is refused before its first row.
pub open spec fn prefill_refusal(
    table: RequestTable,
    max_batch: usize,
    chunks: Seq<TpPrefillChunkItem>,
) -> Option<TpError> {
    if chunks.len() == 0 {
        Some(TpError::EmptyPrefillCommand)
    } else if prefill_error(chunks) is Some {
        prefill_error(chunks)
    } else if table.len() + new_rows(table, chunks) > max_batch {
        Some(TpError::PrefillCapacity { max_batch })
    } else {
        None
    }
}

/// Why a decode command is refused before its first row.
pub open spec fn decode_refusal(
    max_batch: usize,
    requests: Seq<TpDecodeStepItem>,
) -> Option<TpError> {
    if requests.len() == 0 {
        Some(TpError::EmptyDecodeCommand)
    } else if decode_error(requests) is Some {
        decode_error(requests)
    } else if requests.len() > max_batch {
        Some(TpError::DecodeCapacity { batch: requests.len() as usize, max_batch })
    } else {
        None
    }
}

/// The first prefill row of a unified plan whose request is decoding already.
pub open spec fn unified_prefill_refusal(
    table: RequestTable,
    chunks: Seq<TpPrefillChunkItem>,
) -> Option<TpError>
    decreases chunks.len(),
{
    if chunks.len() == 0 {
        None
    } else {
        match unified_prefill_refusal(table, chunks.drop_last()) {
            Some(error) => Some(error),
            None => if phase_of(table, chunks.last().request_id.0) == Some(
                TpRequestPhase::Decoding,
            ) {
                Some(TpError::UnifiedAlreadyDecoding { request: chunks.last().request_id.0 })
            } else {
                None
            },
        }
    }
}

/// The first decode row of a unified plan whose request is not ready.
pub open spec fn unified_decode_refusal(
    table: RequestTable,
    requests: Seq<TpDecodeStepItem>,
) -> Option<TpError>
    decreases requests.len(),
{
    if requests.len() == 0 {
        None
    } else {
        let request = requests.last().request_id.0;
        match unified_decode_refusal(table, requests.drop_last()) {
            Some(error) => Some(error),
            None => match phase_of(table, request) {
                None => Some(TpError::UnifiedNoState { request }),
                Some(TpRequestPhase::Prefilling) => Some(TpError::UnifiedNotReady { request }),
                Some(TpRequestPhase::Decoding) => None,
            },
        }
    }
}

/// Why a unified plan is refused before its first row.
pub open spec fn unified_refusal(
    table: RequestTable,
    max_batch: usize,
    plan: TpUnifiedPlan,
) -> Option<TpError> {
    if unified_error(plan, max_batch) is Some {
        unified_error(plan, max_batch)
    } else if table.len() + new_rows(table, plan.prefill@) > max_batch {
        Some(TpError::UnifiedCapacity { max_batch })
    } else if unified_prefill_refusal(table, plan.prefill@) is Some {
        unified_prefill_refusal(table, plan.prefill@)
    } else {
        unified_decode_refusal(table, plan.decode@)
    }
}

proof fn lemma_unified_prefill_prefix(
    table: RequestTable,
    chunks: Seq<TpPrefillChunkItem>,
    n: int,
)
    requires
        0 <= n <= chunks.len(),
        unified_prefill_refusal(table, chunks.take(n)) is Some,
    ensures
        unified_prefill_refusal(table, chunks) == unified_prefill_refusal(table, chunks.take(n)),
    decreases chunks.len() - n,
{
    if n == chunks.len() {
        assert(chunks.take(n) =~= chunks);
    } else {
        assert(chunks.take(n + 1).drop_last() =~= chunks.take(n));
        lemma_unified_prefill_prefix(table, chunks, n + 1);
    }
}

proof fn lemma_unified_decode_prefix(
    table: RequestTable,
    requests: Seq<TpDecodeStepItem>,
    n: int,
)
    requires
        0 <= n <= requests.len(),
        unified_decode_refusal(table, requests.take(n)) is Some,
    ensures
        unified_decode_refusal(table, requests) == unified_decode_refusal(table, requests.take(n)),
    decreases requests.len() - n,
{
    if n == requests.len() {
        assert(requests.take(n) =~= requests);
    } else {
        assert(requests.take(n + 1).drop_last() =~= requests.take(n));
        lemma_unified_decode_prefix(table, requests, n + 1);
    }
}

/// Progress through the rows of a prefill command.
pub struct PrefillRun {
    pub row: usize,
    pub final_rows: usize,
    pub results: Vec<PrefillRequestResult>,
}

impl PrefillRun {
    pub fn new() -> (r: Self)
        ensures
            r.row == 0,
            r.final_rows == 0,
            r.results@.len() == 0,
    {
        PrefillRun { row: 0, final_rows: 0, results: Vec::new() }
    }
}

/// How many of the chunks end their prompt.
pub open spec fn final_count(chunks: Seq<TpPrefillChunkItem>) -> nat
    decreases chunks.len(),
{
    if chunks.len() == 0 {
        0
    } else {
        final_count(chunks.drop_last()) + (if chunks.last().finish_prefill {
            1nat
        } else {
            0nat
        })
    }
}

/// What a prefill command needs next.
pub enum PrefillStep {
    /// Every row is done.
    Done,
    /// The row's request has no slot: allocate its resources and admit it.
    Allocate { request_id: RequestId },
    /// Run the row on this slot, then sample with the seed if there is one.
    Forward { slot: usize, seed: Option<u64> },
    /// The row cannot run.
    Fail(TpError),
}

/// The step of a row, by the table and the row's place.
pub open spec fn prefill_step_of(
    table: RequestTable,
    rank: usize,
    chunks: Seq<TpPrefillChunkItem>,
    row: int,
    final_rows: usize,
    sample_seed: u64,
) -> PrefillStep {
    if row >= chunks.len() {
        PrefillStep::Done
    } else {
        let chunk = chunks[row];
        match position(table, chunk.request_id.0) {
            None => PrefillStep::Allocate { request_id: chunk.request_id },
            Some(slot) => match table[slot].1 {
                TpRequestPhase::Decoding => PrefillStep::Fail(
                    TpError::AlreadyDecoding { request: chunk.request_id.0 },
                ),
                TpRequestPhase::Prefilling => PrefillStep::Forward {
                    slot: slot as usize,
                    seed: if chunk.finish_prefill && rank == 0 {
                        Some(wrapped_seed(sample_seed, final_rows as nat))
                    } else {
                        None
                    },
                },
            },
        }
    }
}

/// The sampling seed of a row: the command's seed plus the row, modulo two to the
/// 64th, so that rows of one command do not share a sampling stream.
pub open spec fn wrapped_seed(sample_seed: u64, row: nat) -> u64 {
    ((sample_seed + row) % 0x1_0000_0000_0000_0000) as u64
}

pub fn row_seed(sample_seed: u64, row: usize) -> (r: u64)
    ensures
        r == wrapped_seed(sample_seed, row as nat),
{
    sample_seed.wrapping_add(row as u64)
}

/// What a decode row needs.
pub enum DecodeStep {
    /// Every row is done.
    Done,
    /// Run the row on this slot, then sample with the seed if there is one.
    Forward { slot: usize, seed: Option<u64> },
    /// The row cannot run.
    Fail(TpError),
}

pub open spec fn decode_step_of(
    table: RequestTable,
    rank: usize,
    requests: Seq<TpDecodeStepItem>,
    row: int,
    sample_seed: u64,
) -> DecodeStep {
    if row >= requests.len() {
        DecodeStep::Done
    } else {
        let request = requests[row].request_id.0;
        match position(table, request) {
            None => DecodeStep::Fail(TpError::DecodeNoState { request }),
            Some(slot) => match table[slot].1 {
                TpRequestPhase::Prefilling => DecodeStep::Fail(TpError::DecodeNotReady { request }),
                TpRequestPhase::Decoding => DecodeStep::Forward {
                    slot: slot as usize,
                    seed: if rank == 0 {
                        Some(wrapped_seed(sample_seed, row as nat))
                    } else {
                        None
                    },
                },
            },
        }
    }
}

impl<S> TpWorkerState<S> {
    pub closed spec fn rank_spec(self) -> usize {
        self.rank
    }

    pub closed spec fn max_batch_spec(self) -> usize {
        self.max_batch
    }

    pub closed spec fn table(self) -> RequestTable {
        self.requests@.map_values(|state: TpRequestState<S>| (state.request_id.0, state.phase))
    }

    /// The resources of each slot.
    pub closed spec fn resources(self) -> Seq<S> {
        self.requests@.map_values(|state: TpRequestState<S>| state.resources)
    }

    /// No request is resident twice, and the rank holds no more than it may.
    pub open spec fn well_formed(self) -> bool {
        &&& distinct(self.table())
        &&& self.table().len() <= self.max_batch_spec()
        &&& self.resources().len() == self.table().len()
    }

    /// A rank that has just connected. The batch agreed on by all ranks has to
    /// fit the rank's own capacity.
    pub fn connect(rank: usize, local_capacity: usize, effective_max_batch: usize) -> (r: Result<
        Self,
        TpError,
    >)
        ensures
            if 0 < effective_max_batch <= local_capacity {
                r matches Ok(worker) && worker.well_formed() && worker.rank_spec() == rank
                    && worker.max_batch_spec() == effective_max_batch && worker.table().len() == 0
            } else {
                r == Err::<Self, TpError>(
                    TpError::EffectiveBatch {
                        rank,
                        effective: effective_max_batch,
                        capacity: local_capacity,
                    },
                )
            },
    {
        if effective_max_batch > 0 && effective_max_batch <= local_capacity {
            Ok(TpWorkerState { rank, max_batch: effective_max_batch, requests: Vec::new() })
        } else {
            Err(
                TpError::EffectiveBatch {
                    rank,
                    effective: effective_max_batch,
                    capacity: local_capacity,
                },
            )
        }
    }

    pub fn rank(&self) -> (r: usize)
        ensures
            r == self.rank_spec(),
    {
        self.rank
    }

    pub fn request_index(&self, request_id: RequestId) -> (r: Option<usize>)
        ensures
            match position(self.table(), request_id.0) {
                Some(i) => r == Some(i as usize) && i < self.table().len() <= usize::MAX,
                None => r is None,
            },
    {
        let ghost table = self.table();
        let mut i: usize = 0;
        assert(table.take(0) =~= Seq::empty());
        while i < self.requests.len()
            invariant
                i <= self.requests.len(),
                table == self.table(),
                position(table.take(i as int), request_id.0) is None,
            decreases self.requests.len() - i,
        {
            assert(table.take(i as int + 1).drop_last() =~= table.take(i as int));
            assert(table[i as int] == (
                self.requests@[i as int].request_id.0,
                self.requests@[i as int].phase,
            ));
            if self.requests[i].request_id.0 == request_id.0 {
                proof {
                    lemma_position(table, request_id.0);
                    lemma_position(table.take(i as int), request_id.0);
                    assert(table.take(i as int).len() == i);
                    assert forall|j: int| 0 <= j < i implies (#[trigger] table[j]).0
                        != request_id.0 by {
                        assert(table.take(i as int)[j] == table[j]);
                    }
                }
                return Some(i);
            }
            i = i + 1;
        }
        assert(table.take(i as int) =~= table);
        None
    }

    pub fn phase_for(&self, request_id: RequestId) -> (r: Option<TpRequestPhase>)
        ensures
            r == phase_of(self.table(), request_id.0),
    {
        match self.request_index(request_id) {
            Some(i) => {
                proof {
                    lemma_position(self.table(), request_id.0);
                }
                Some(self.requests[i].phase)
            },
            None => None,
        }
    }

    fn count_new(&self, chunks: &[TpPrefillChunkItem]) -> (n: usize)
        ensures
            n == new_rows(self.table(), chunks@),
            n <= chunks@.len(),
    {
        let ghost table = self.table();
        let mut n: usize = 0;
        let mut i: usize = 0;
        assert(chunks@.take(0) =~= Seq::<TpPrefillChunkItem>::empty());
        while i < chunks.len()
            invariant
                i <= chunks.len(),
                n <= i,
                table == self.table(),
                n == new_rows(table, chunks@.take(i as int)),
            decreases chunks.len() - i,
        {
            assert(chunks@.take(i as int + 1).drop_last() =~= chunks@.take(i as int));
            if self.request_index(chunks[i].request_id).is_none() {
                n = n + 1;
            }
            i = i + 1;
        }
        assert(chunks@.take(i as int) =~= chunks@);
        n
    }

    /// Checks a prefill command before its first row.
    pub fn check_prefill(&self, chunks: &[TpPrefillChunkItem]) -> (r: Result<(), TpError>)
        requires
            self.well_formed(),
        ensures
            match prefill_refusal(self.table(), self.max_batch_spec(), chunks@) {
                Some(error) => r == Err::<(), TpError>(error),
                None => r is Ok,
            },
            r is Ok <==> chunks@.len() > 0 && prefill_rows_fit(chunks@) && resident(
                self.table(),
            ).union(prefill_ids(chunks@)).len() <= self.max_batch_spec(),
    {
        proof {
            lemma_prefill_command_verdict(self.table(), self.max_batch_spec(), chunks@);
        }
        if chunks.len() == 0 {
            return Err(TpError::EmptyPrefillCommand);
        }
        match validate_prefill_chunks(chunks) {
            Err(error) => {
                return Err(error);
            },
            Ok(()) => {},
        }
        let new_requests: usize = self.count_new(chunks);
        if new_requests > self.max_batch - self.requests.len() {
            return Err(TpError::PrefillCapacity { max_batch: self.max_batch });
        }
        Ok(())
    }

    /// What the row that a run has reached needs.
    pub fn next_prefill(
        &self,
        run: &PrefillRun,
        chunks: &[TpPrefillChunkItem],
        sample_seed: u64,
    ) -> (r: PrefillStep)
        ensures
            r == prefill_step_of(
                self.table(),
                self.rank_spec(),
                chunks@,
                run.row as int,
                run.final_rows,
                sample_seed,
            ),
    {
        if run.row >= chunks.len() {
            return PrefillStep::Done;
        }
        let chunk = &chunks[run.row];
        let slot: usize = match self.request_index(chunk.request_id) {
            None => {
                return PrefillStep::Allocate { request_id: chunk.request_id };
            },
            Some(slot) => slot,
        };
        proof {
            lemma_position(self.table(), chunk.request_id.0);
        }
        if self.requests[slot].phase != TpRequestPhase::Prefilling {
            return PrefillStep::Fail(TpError::AlreadyDecoding { request: chunk.request_id.get() });
        }
        let seed = if chunk.finish_prefill && self.rank == 0 {
            Some(row_seed(sample_seed, run.final_rows))
        } else {
            None
        };
        PrefillStep::Forward { slot, seed }
    }

    /// Gives a request its slot. A request that already has one keeps it.
    pub fn ensure_prefill_state(&mut self, request_id: RequestId, resources: S) -> (slot: usize)
        requires
            old(self).well_formed(),
            position(old(self).table(), request_id.0) is Some || old(self).table().len() < old(self).max_batch_spec(),
        ensures
            final(self).well_formed(),
            final(self).rank_spec() == old(self).rank_spec(),
            final(self).max_batch_spec() == old(self).max_batch_spec(),
            final(self).table() == entered(old(self).table(), request_id.0),
            slot == slot_of(old(self).table(), request_id.0),
            final(self).resources() == (if position(old(self).table(), request_id.0) is Some {
                old(self).resources()
            } else {
                old(self).resources().push(resources)
            }),
    {
        proof {
            lemma_position(self.table(), request_id.0);
        }
        if let Some(slot) = self.request_index(request_id) {
            return slot;
        }
        let slot: usize = self.requests.len();
        self.requests.push(
            TpRequestState { request_id, phase: TpRequestPhase::Prefilling, resources },
        );
        assert(self.table() =~= entered(old(self).table(), request_id.0));
        assert(self.resources() =~= old(self).resources().push(resources));
        slot
    }

    /// The resources of a slot, for the device work of a row.
    pub fn slot_resources(&mut self, slot: usize) -> (r: &mut S)
        requires
            slot < old(self).resources().len(),
        ensures
            *r == old(self).resources()[slot as int],
            final(self).table() == old(self).table(),
            final(self).rank_spec() == old(self).rank_spec(),
            final(self).max_batch_spec() == old(self).max_batch_spec(),
            final(self).resources() == old(self).resources().update(slot as int, *final(r)),
    {
        &mut self.requests[slot].resources
    }

    /// Records a finished row, with its sampled result where there is one. The
    /// last chunk of a prompt makes its request ready to decode.
    pub fn prefill_row_done(
        &mut self,
        run: &mut PrefillRun,
        chunks: &[TpPrefillChunkItem],
        result: Option<PrefillRequestResult>,
    )
        requires
            old(self).well_formed(),
            old(run).row < chunks@.len(),
            old(run).final_rows <= old(run).row,
            position(old(self).table(), chunks@[old(run).row as int].request_id.0) is Some,
        ensures
            final(self).well_formed(),
            final(self).rank_spec() == old(self).rank_spec(),
            final(self).max_batch_spec() == old(self).max_batch_spec(),
            final(self).resources() == old(self).resources(),
            final(self).table() == row_effect(old(self).table(), chunks@[old(run).row as int]),
            final(run).row == old(run).row + 1,
            final(run).final_rows == old(run).final_rows + (if chunks@[old(run).row as int].finish_prefill {
                1int
            } else {
                0int
            }),
            final(run).results@ == (match result {
                Some(sampled) => old(run).results@.push(sampled),
                None => old(run).results@,
            }),
    {
        let chunk = &chunks[run.row];
        if let Some(sampled) = result {
            run.results.push(sampled);
        }
        if chunk.finish_prefill {
            proof {
                lemma_position(self.table(), chunk.request_id.0);
            }
            run.final_rows = run.final_rows + 1;
            if let Some(slot) = self.request_index(chunk.request_id) {
                self.requests[slot].phase = TpRequestPhase::Decoding;
            }
            proof {
                assert(self.table() =~= row_effect(
                    old(self).table(),
                    chunks@[old(run).row as int],
                ));
                assert(self.resources() =~= old(self).resources());
            }
        }
        run.row = run.row + 1;
    }

    /// The reply to a prefill command: rank 0 returns the results, the other
    /// ranks acknowledge.
    pub fn prefill_reply(&self, run: PrefillRun) -> (r: TpWorkerReply)
        ensures
            r == (if self.rank_spec() == 0 {
                TpWorkerReply::Prefill(PrefillResult { requests: run.results })
            } else {
                TpWorkerReply::Ack
            }),
    {
        if self.rank == 0 {
            TpWorkerReply::Prefill(PrefillResult { requests: run.results })
        } else {
            TpWorkerReply::Ack
        }
    }

    /// Checks a decode command before its first row.
    pub fn check_decode(&self, requests: &[TpDecodeStepItem]) -> (r: Result<(), TpError>)
        ensures
            match decode_refusal(self.max_batch_spec(), requests@) {
                Some(error) => r == Err::<(), TpError>(error),
                None => r is Ok,
            },
            r is Ok <==> 0 < requests@.len() <= self.max_batch_spec() && decode_rows_fit(requests@),
    {
        proof {
            lemma_decode_command_verdict(self.max_batch_spec(), requests@);
        }
        if requests.len() == 0 {
            return Err(TpError::EmptyDecodeCommand);
        }
        match validate_decode_requests(requests) {
            Err(error) => {
                return Err(error);
            },
            Ok(()) => {},
        }
        if requests.len() > self.max_batch {
            return Err(
                TpError::DecodeCapacity { batch: requests.len(), max_batch: self.max_batch },
            );
        }
        Ok(())
    }

    /// What a decode row needs.
    pub fn next_decode(
        &self,
        requests: &[TpDecodeStepItem],
        row: usize,
        sample_seed: u64,
    ) -> (r: DecodeStep)
        ensures
            r == decode_step_of(
                self.table(),
                self.rank_spec(),
                requests@,
                row as int,
                sample_seed,
            ),
    {
        if row >= requests.len() {
            return DecodeStep::Done;
        }
        let request_id = requests[row].request_id;
        let slot: usize = match self.request_index(request_id) {
            None => {
                return DecodeStep::Fail(TpError::DecodeNoState { request: request_id.get() });
            },
            Some(slot) => slot,
        };
        proof {
            lemma_position(self.table(), request_id.0);
        }
        if self.requests[slot].phase != TpRequestPhase::Decoding {
            return DecodeStep::Fail(TpError::DecodeNotReady { request: request_id.get() });
        }
        let seed = if self.rank == 0 {
            Some(row_seed(sample_seed, row))
        } else {
            None
        };
        DecodeStep::Forward { slot, seed }
    }

    /// The reply to a decode command.
    pub fn decode_reply(&self, results: Vec<DecodeRequestResult>) -> (r: TpWorkerReply)
        ensures
            r == (if self.rank_spec() == 0 {
                TpWorkerReply::Decode(DecodeResult { requests: results })
            } else {
                TpWorkerReply::Ack
            }),
    {
        if self.rank == 0 {
            TpWorkerReply::Decode(DecodeResult { requests: results })
        } else {
            TpWorkerReply::Ack
        }
    }

    /// Checks a unified plan before its first row: the plan's own shape, the
    /// capacity, and the phase of every request in it.
    #[verifier::loop_isolation(false)]
    pub fn validate_unified_worker_layout(&self, plan: &TpUnifiedPlan) -> (r: Result<(), TpError>)
        requires
            self.well_formed(),
        ensures
            match unified_refusal(self.table(), self.max_batch_spec(), *plan) {
                Some(error) => r == Err::<(), TpError>(error),
                None => r is Ok,
            },
    {
        let ghost table = self.table();
        match validate_unified_plan(plan, self.max_batch) {
            Err(error) => {
                return Err(error);
            },
            Ok(()) => {},
        }
        let new_prefill_count: usize = self.count_new(plan.prefill.as_slice());
        if new_prefill_count > self.max_batch - self.requests.len() {
            return Err(TpError::UnifiedCapacity { max_batch: self.max_batch });
        }
        let mut i: usize = 0;
        assert(plan.prefill@.take(0) =~= Seq::<TpPrefillChunkItem>::empty());
        while i < plan.prefill.len()
            invariant
                i <= plan.prefill.len(),
                unified_prefill_refusal(table, plan.prefill@.take(i as int)) is None,
            decreases plan.prefill.len() - i,
        {
            proof {
                assert(plan.prefill@.take(i as int + 1).drop_last() =~= plan.prefill@.take(
                    i as int,
                ));
                if unified_prefill_refusal(table, plan.prefill@.take(i as int + 1)) is Some {
                    lemma_unified_prefill_prefix(table, plan.prefill@, i as int + 1);
                }
            }
            let request_id = plan.prefill[i].request_id;
            if let Some(phase) = self.phase_for(request_id) {
                if phase != TpRequestPhase::Prefilling {
                    return Err(TpError::UnifiedAlreadyDecoding { request: request_id.get() });
                }
            }
            i = i + 1;
        }
        assert(plan.prefill@.take(i as int) =~= plan.prefill@);
        let mut i: usize = 0;
        assert(plan.decode@.take(0) =~= Seq::<TpDecodeStepItem>::empty());
        while i < plan.decode.len()
            invariant
                i <= plan.decode.len(),
                unified_decode_refusal(table, plan.decode@.take(i as int)) is None,
            decreases plan.decode.len() - i,
        {
            proof {
                assert(plan.decode@.take(i as int + 1).drop_last() =~= plan.decode@.take(i as int));
                if unified_decode_refusal(table, plan.decode@.take(i as int + 1)) is Some {
                    lemma_unified_decode_prefix(table, plan.decode@, i as int + 1);
                }
            }
            let request_id = plan.decode[i].request_id;
            match self.phase_for(request_id) {
                None => {
                    return Err(TpError::UnifiedNoState { request: request_id.get() });
                },
                Some(phase) => {
                    if phase != TpRequestPhase::Decoding {
                        return Err(TpError::UnifiedNotReady { request: request_id.get() });
                    }
                },
            }
            i = i + 1;
        }
        assert(plan.decode@.take(i as int) =~= plan.decode@);
        Ok(())
    }

    /// The reply to a unified step.
    pub fn unified_reply(&self, run: PrefillRun, decoded: Vec<DecodeRequestResult>) -> (r:
        TpWorkerReply)
        ensures
            r == (if self.rank_spec() == 0 {
                TpWorkerReply::Unified(
                    TpUnifiedResult {
                        prefill: PrefillResult { requests: run.results },
                        decode: DecodeResult { requests: decoded },
                    },
                )
            } else {
                TpWorkerReply::Ack
            }),
    {
        if self.rank == 0 {
            TpWorkerReply::Unified(
                TpUnifiedResult {
                    prefill: PrefillResult { requests: run.results },
                    decode: DecodeResult { requests: decoded },
                },
            )
        } else {
            TpWorkerReply::Ack
        }
    }

    /// Forgets a request and frees its resources. The last slot moves into the
    /// gap.
    pub fn drop_request(&mut self, request_id: RequestId) -> (existed: bool)
        requires
            old(self).well_formed(),
        ensures
            final(self).well_formed(),
            final(self).rank_spec() == old(self).rank_spec(),
            final(self).max_batch_spec() == old(self).max_batch_spec(),
            match position(old(self).table(), request_id.0) {
                Some(slot) => {
                    &&& existed
                    &&& final(self).table() == old(self).table().update(
                        slot,
                        old(self).table().last(),
                    ).drop_last()
                    &&& final(self).resources() == old(self).resources().update(
                        slot,
                        old(self).resources().last(),
                    ).drop_last()
                },
                None => !existed && final(self).table() == old(self).table() && final(self).resources() == old(self).resources(),
            },
    {
        proof {
            lemma_position(self.table(), request_id.0);
        }
        if let Some(slot) = self.request_index(request_id) {
            self.requests.swap_remove(slot);
            proof {
                let before = old(self).table();
                assert(self.table() =~= before.update(slot as int, before.last()).drop_last());
                assert(self.resources() =~= old(self).resources().update(
                    slot as int,
                    old(self).resources().last(),
                ).drop_last());
            }
            true
        } else {
            false
        }
    }

    /// The requests and phases a rank holds.
    pub fn snapshot(&self) -> (r: WorkerStateSnapshot)
        ensures
            r.rank == self.rank_spec(),
            r.request_count == self.table().len(),
            r.requests@.len() == self.table().len(),
            forall|i: int|
                0 <= i < self.table().len() ==> (#[trigger] r.requests@[i]).0.0
                    == self.table()[i].0 && r.requests@[i].1 == self.table()[i].1,
    {
        let mut requests: Vec<(RequestId, TpRequestPhase)> = Vec::new();
        let mut i: usize = 0;
        while i < self.requests.len()
            invariant
                i <= self.requests.len(),
                requests@.len() == i,
                forall|k: int|
                    0 <= k < i ==> (#[trigger] requests@[k]).0.0 == self.table()[k].0
                        && requests@[k].1 == self.table()[k].1,
            decreases self.requests.len() - i,
        {
            requests.push((self.requests[i].request_id, self.requests[i].phase));
            i = i + 1;
        }
        WorkerStateSnapshot { rank: self.rank, request_count: self.requests.len(), requests }
    }

    /// Turns the outcome of a command into its response. A failure poisons the
    /// runtime and ends the worker, which is what the second value says.
    pub fn respond(
        &self,
        operation: &str,
        result: Result<TpWorkerReply, String>,
        poison: &mut TpRuntimePoison,
    ) -> (r: (TpWorkerResponse, bool))
        ensures
            r.0.rank == self.rank_spec(),
            match result {
                Ok(reply) => {
                    &&& !r.1
                    &&& r.0.result == Ok::<TpWorkerReply, String>(reply)
                    &&& final(poison)@ == old(poison)@
                },
                Err(message) => {
                    &&& r.1
                    &&& final(poison)@ == poisoned_by(
                        old(poison)@,
                        rank_failure_text(self.rank_spec() as nat, operation@, message@),
                    )
                    &&& r.0.result matches Err(reason)
                    &&& final(poison)@ == Some(reason@)
                },
            },
    {
        match result {
            Ok(reply) => (TpWorkerResponse { rank: self.rank, result: Ok(reply) }, false),
            Err(message) => {
                let reason = poison.poison(rank_failure(self.rank, operation, message.as_str()));
                (TpWorkerResponse { rank: self.rank, result: Err(reason) }, true)
            },
        }
    }
}

/// What a worker was told to do.
#[derive(Clone, Copy, Debug, PartialEq, Eq, Structural)]
pub enum TpCommandKind {
    Ping,
    RunPrefillChunks,
    RunDecodeStep,
    RunUnifiedStep,
    DropRequest,
    SnapshotState,
    Shutdown,
}

#[derive(Clone, Copy, Debug, PartialEq, Eq, Structural)]
pub enum TpCommandStep {
    /// Wait for the decision.
    Wait,
    /// Carry the command out and respond.
    Run,
    /// Drop the command without a response.
    Skip,
    /// Leave the loop.
    Stop,
}

pub open spec fn mutates(kind: TpCommandKind) -> bool {
    kind == TpCommandKind::RunPrefillChunks || kind == TpCommandKind::RunDecodeStep || kind
        == TpCommandKind::RunUnifiedStep || kind == TpCommandKind::DropRequest
}

/// What a worker does with a command: one that changes state waits for the
/// decision of its gate, the others run at once.
pub fn command_step(kind: TpCommandKind, decision: TpCommandDecision) -> (r: TpCommandStep)
    ensures
        r == (if kind == TpCommandKind::Shutdown {
            TpCommandStep::Stop
        } else if !mutates(kind) {
            TpCommandStep::Run
        } else {
            match decision {
                TpCommandDecision::Pending => TpCommandStep::Wait,
                TpCommandDecision::Execute => TpCommandStep::Run,
                TpCommandDecision::Cancel => TpCommandStep::Skip,
            }
        }),
{
    match kind {
        TpCommandKind::Shutdown => TpCommandStep::Stop,
        TpCommandKind::Ping | TpCommandKind::SnapshotState => TpCommandStep::Run,
        TpCommandKind::RunPrefillChunks
        | TpCommandKind::RunDecodeStep
        | TpCommandKind::RunUnifiedStep
        | TpCommandKind::DropRequest => match decision {
            TpCommandDecision::Pending => TpCommandStep::Wait,
            TpCommandDecision::Execute => TpCommandStep::Run,
            TpCommandDecision::Cancel => TpCommandStep::Skip,
        },
    }
}

/// The name a command has in a failure.
pub open spec fn command_text(kind: TpCommandKind) -> Seq<char> {
    match kind {
        TpCommandKind::Ping => "ping"@,
        TpCommandKind::RunPrefillChunks => "prefill"@,
        TpCommandKind::RunDecodeStep => "decode"@,
        TpCommandKind::RunUnifiedStep => "unified step"@,
        TpCommandKind::DropRequest => "drop request"@,
        TpCommandKind::SnapshotState => "snapshot state"@,
        TpCommandKind::Shutdown => "shutdown"@,
    }
}

pub fn command_name(kind: TpCommandKind) -> (r: &'static str)
    ensures
        r@ == command_text(kind),
{
    match kind {
        TpCommandKind::Ping => "ping",
        TpCommandKind::RunPrefillChunks => "prefill",
        TpCommandKind::RunDecodeStep => "decode",
        TpCommandKind::RunUnifiedStep => "unified step",
        TpCommandKind::DropRequest => "drop request",
        TpCommandKind::SnapshotState => "snapshot state",
        TpCommandKind::Shutdown => "shutdown",
    }
}

/// A row keeps the table free of duplicates, adds at most one slot, and leaves
/// every other request as it was.
pub proof fn lemma_row_touches_its_request_alone(table: RequestTable, chunk: TpPrefillChunkItem)
    requires
        distinct(table),
    ensures
        distinct(row_effect(table, chunk)),
        row_effect(table, chunk).len() == table.len() + (if position(table, chunk.request_id.0)
            is None {
            1int
        } else {
            0int
        }),
        phase_of(row_effect(table, chunk), chunk.request_id.0) == Some(
            if chunk.finish_prefill {
                TpRequestPhase::Decoding
            } else {
                match phase_of(table, chunk.request_id.0) {
                    Some(phase) => phase,
                    None => TpRequestPhase::Prefilling,
                }
            },
        ),
        forall|id: u64|
            id != chunk.request_id.0 ==> #[trigger] phase_of(row_effect(table, chunk), id)
                == phase_of(table, id),
        forall|id: u64|
            id != chunk.request_id.0 ==> #[trigger] position(row_effect(table, chunk), id)
                == position(table, id),
{
    let own = chunk.request_id.0;
    let after = row_effect(table, chunk);
    lemma_position(table, own);
    lemma_position(after, own);
    assert forall|i: int| 0 <= i < table.len() && table[i].0 != own implies #[trigger] after[i]
        == table[i] by {}
    assert forall|i: int, j: int| 0 <= i < j < after.len() implies (#[trigger] after[i]).0 != (
    #[trigger] after[j]).0 by {
        if j < table.len() {
            assert(after[i].0 == table[i].0);
            assert(after[j].0 == table[j].0);
        } else {
            assert(after[i].0 == table[i].0);
        }
    }
    assert(after[slot_of(table, own)].0 == own);
    assert forall|id: u64| id != own implies #[trigger] position(after, id) == position(
        table,
        id,
    ) by {
        lemma_position(table, id);
        lemma_position(after, id);
        match position(table, id) {
            Some(i) => {
                assert(after[i] == table[i]);
                assert forall|j: int| 0 <= j < i implies (#[trigger] after[j]).0 != id by {
                    assert(after[j].0 == table[j].0);
                }
            },
            None => {
                assert forall|j: int| 0 <= j < after.len() implies (#[trigger] after[j]).0
                    != id by {
                    if j < table.len() {
                        assert(after[j].0 == table[j].0);
                    }
                }
            },
        }
    }
    assert forall|id: u64| id != own implies #[trigger] phase_of(after, id) == phase_of(
        table,
        id,
    ) by {
        lemma_position(table, id);
        assert(position(after, id) == position(table, id));
    }
}

proof fn lemma_rows_step(table: RequestTable, chunks: Seq<TpPrefillChunkItem>)
    requires
        distinct(table),
        prefill_error(chunks) is None,
    ensures
        distinct(rows_effect(table, chunks)),
        rows_effect(table, chunks).len() == table.len() + new_rows(table, chunks),
        forall|id: u64|
            !crate::tp::plan::prefill_ids(chunks).contains(id) ==> #[trigger] position(
                rows_effect(table, chunks),
                id,
            ) == position(table, id) && phase_of(rows_effect(table, chunks), id) == phase_of(
                table,
                id,
            ),
        forall|i: int|
            #![trigger chunks[i]]
            0 <= i < chunks.len() ==> phase_of(rows_effect(table, chunks), chunks[i].request_id.0)
                == Some(
                if chunks[i].finish_prefill {
                    TpRequestPhase::Decoding
                } else {
                    match phase_of(table, chunks[i].request_id.0) {
                        Some(phase) => phase,
                        None => TpRequestPhase::Prefilling,
                    }
                },
            ),
    decreases chunks.len(),
{
    if chunks.len() > 0 {
        let head = chunks.drop_last();
        let before = rows_effect(table, head);
        lemma_rows_step(table, head);
        lemma_row_touches_its_request_alone(before, chunks.last());
        crate::tp::plan::lemma_accepted_prefill_rows_are_distinct(chunks);
        crate::tp::plan::lemma_accepted_prefill_rows_are_distinct(head);
        let own = chunks.last().request_id.0;
        assert(!crate::tp::plan::prefill_ids(head).contains(own));
        assert(position(before, own) == position(table, own));
        assert forall|id: u64|
            !crate::tp::plan::prefill_ids(chunks).contains(id) implies #[trigger] position(
            rows_effect(table, chunks),
            id,
        ) == position(table, id) && phase_of(rows_effect(table, chunks), id) == phase_of(
            table,
            id,
        ) by {
            assert(!crate::tp::plan::prefill_ids(head).contains(id));
            assert(id != own);
            assert(position(before, id) == position(table, id));
            assert(phase_of(row_effect(before, chunks.last()), id) == phase_of(before, id));
        }
        assert forall|i: int|
            #![trigger chunks[i]]
            0 <= i < chunks.len() implies phase_of(
            rows_effect(table, chunks),
            chunks[i].request_id.0,
        ) == Some(
            if chunks[i].finish_prefill {
                TpRequestPhase::Decoding
            } else {
                match phase_of(table, chunks[i].request_id.0) {
                    Some(phase) => phase,
                    None => TpRequestPhase::Prefilling,
                }
            },
        ) by {
            if i < head.len() {
                assert(head[i] == chunks[i]);
                assert(chunks[i].request_id != chunks[chunks.len() - 1].request_id);
                assert(phase_of(row_effect(before, chunks.last()), chunks[i].request_id.0)
                    == phase_of(before, chunks[i].request_id.0));
            }
        }
    }
}

/// An accepted prefill command, run to its end, leaves no more requests resident
/// than the rank may hold, every request of the command in the phase its last
/// chunk asks for, and every other request as it was.
pub proof fn lemma_prefill_command_effect(
    table: RequestTable,
    max_batch: usize,
    chunks: Seq<TpPrefillChunkItem>,
)
    requires
        distinct(table),
        prefill_refusal(table, max_batch, chunks) is None,
    ensures
        distinct(rows_effect(table, chunks)),
        rows_effect(table, chunks).len() <= max_batch,
        forall|i: int|
            #![trigger chunks[i]]
            0 <= i < chunks.len() ==> phase_of(rows_effect(table, chunks), chunks[i].request_id.0)
                == Some(
                if chunks[i].finish_prefill {
                    TpRequestPhase::Decoding
                } else {
                    match phase_of(table, chunks[i].request_id.0) {
                        Some(phase) => phase,
                        None => TpRequestPhase::Prefilling,
                    }
                },
            ),
        forall|id: u64|
            (forall|i: int| 0 <= i < chunks.len() ==> (#[trigger] chunks[i]).request_id.0 != id)
                ==> #[trigger] phase_of(rows_effect(table, chunks), id) == phase_of(table, id),
{
    lemma_rows_step(table, chunks);
    assert forall|id: u64|
        (forall|i: int| 0 <= i < chunks.len() ==> (#[trigger] chunks[i]).request_id.0
            != id) implies #[trigger] phase_of(rows_effect(table, chunks), id) == phase_of(
        table,
        id,
    ) by {
        lemma_absent_from_ids(chunks, id);
        assert(position(rows_effect(table, chunks), id) == position(table, id));
    }
}

proof fn lemma_absent_from_ids(chunks: Seq<TpPrefillChunkItem>, id: u64)
    requires
        forall|i: int| 0 <= i < chunks.len() ==> (#[trigger] chunks[i]).request_id.0 != id,
    ensures
        !crate::tp::plan::prefill_ids(chunks).contains(id),
    decreases chunks.len(),
{
    if chunks.len() > 0 {
        let head = chunks.drop_last();
        assert forall|i: int| 0 <= i < head.len() implies (#[trigger] head[i]).request_id.0
            != id by {
            assert(head[i] == chunks[i]);
        }
        lemma_absent_from_ids(head, id);
        assert(chunks[chunks.len() - 1].request_id.0 != id);
    }
}

/// Dropping a request leaves it absent and every other request resident, in the
/// phase it had: a request can be admitted afresh after it was dropped.
pub proof fn lemma_drop_removes_its_request_alone(table: RequestTable, id: u64)
    requires
        distinct(table),
        position(table, id) is Some,
    ensures
        ({
            let slot = position(table, id)->0;
            let after = table.update(slot, table.last()).drop_last();
            &&& distinct(after)
            &&& after.len() == table.len() - 1
            &&& phase_of(after, id) is None
            &&& forall|other: u64|
                other != id ==> #[trigger] phase_of(after, other) == phase_of(table, other)
        }),
{
    let slot = position(table, id)->0;
    let after = table.update(slot, table.last()).drop_last();
    lemma_position(table, id);
    lemma_position(after, id);
    assert forall|i: int, j: int| 0 <= i < j < after.len() implies (#[trigger] after[i]).0 != (
    #[trigger] after[j]).0 by {
        let last = table.len() - 1;
        let from_i = if i == slot { last } else { i };
        let from_j = if j == slot { last } else { j };
        assert(after[i] == table[from_i]);
        assert(after[j] == table[from_j]);
        if from_i < from_j {
            assert(table[from_i].0 != table[from_j].0);
        } else {
            assert(table[from_j].0 != table[from_i].0);
        }
    }
    if phase_of(after, id) is Some {
        let i = position(after, id)->0;
        let from = if i == slot { table.len() - 1 } else { i };
        assert(after[i] == table[from]);
        if from < slot {
            assert(table[from].0 != table[slot].0);
        } else {
            assert(table[slot].0 != table[from].0);
        }
    }
    assert forall|other: u64| other != id implies #[trigger] phase_of(after, other) == phase_of(
        table,
        other,
    ) by {
        lemma_position(table, other);
        lemma_position(after, other);
        if position(table, other) is Some {
            let i = position(table, other)->0;
            let to = if i == table.len() - 1 { slot } else { i };
            assert(after[to] == table[i]);
            let k = position(after, other)->0;
            if k < to {
                assert(after[k].0 != after[to].0);
            } else if to < k {
                assert(after[to].0 != after[k].0);
            }
        } else if position(after, other) is Some {
            let k = position(after, other)->0;
            let from = if k == slot { table.len() - 1 } else { k };
            assert(after[k] == table[from]);
        }
    }
}

/// A unified plan that passed its check never meets a row it cannot run: each
/// prefill row finds its request absent or prefilling, and each decode row finds
/// its request decoding after the prefill rows as it did before.
pub proof fn lemma_unified_rows_can_run(
    table: RequestTable,
    max_batch: usize,
    plan: TpUnifiedPlan,
)
    requires
        distinct(table),
        unified_refusal(table, max_batch, plan) is None,
    ensures
        prefill_refusal(table, max_batch, plan.prefill@) is None,
        decode_refusal(max_batch, plan.decode@) is None,
        forall|i: int|
            #![trigger plan.prefill@[i]]
            0 <= i < plan.prefill@.len() ==> phase_of(table, plan.prefill@[i].request_id.0)
                != Some(TpRequestPhase::Decoding),
        forall|i: int|
            #![trigger plan.decode@[i]]
            0 <= i < plan.decode@.len() ==> phase_of(
                rows_effect(table, plan.prefill@),
                plan.decode@[i].request_id.0,
            ) == Some(TpRequestPhase::Decoding),
{
    assert(plan.decode@.len() == plan.decode.len());
    lemma_rows_step(table, plan.prefill@);
    lemma_unified_prefill_clear(table, plan.prefill@);
    lemma_unified_decode_clear(table, plan.decode@);
    lemma_no_overlap(crate::tp::plan::prefill_ids(plan.prefill@), plan.decode@);
    assert forall|i: int|
        #![trigger plan.decode@[i]]
        0 <= i < plan.decode@.len() implies phase_of(
        rows_effect(table, plan.prefill@),
        plan.decode@[i].request_id.0,
    ) == Some(TpRequestPhase::Decoding) by {
        let id = plan.decode@[i].request_id.0;
        assert(position(rows_effect(table, plan.prefill@), id) == position(table, id));
    }
}

proof fn lemma_no_overlap(prefill: Set<u64>, decode: Seq<TpDecodeStepItem>)
    requires
        crate::tp::plan::overlap_error(prefill, decode) is None,
    ensures
        forall|i: int|
            0 <= i < decode.len() ==> !prefill.contains((#[trigger] decode[i]).request_id.0),
    decreases decode.len(),
{
    if decode.len() > 0 {
        lemma_no_overlap(prefill, decode.drop_last());
        assert forall|i: int| 0 <= i < decode.len() implies !prefill.contains(
            (#[trigger] decode[i]).request_id.0,
        ) by {
            if i < decode.len() - 1 {
                assert(decode.drop_last()[i] == decode[i]);
            }
        }
    }
}

proof fn lemma_unified_prefill_clear(table: RequestTable, chunks: Seq<TpPrefillChunkItem>)
    requires
        unified_prefill_refusal(table, chunks) is None,
    ensures
        forall|i: int|
            #![trigger chunks[i]]
            0 <= i < chunks.len() ==> phase_of(table, chunks[i].request_id.0) != Some(
                TpRequestPhase::Decoding,
            ),
    decreases chunks.len(),
{
    if chunks.len() > 0 {
        lemma_unified_prefill_clear(table, chunks.drop_last());
        assert forall|i: int|
            #![trigger chunks[i]]
            0 <= i < chunks.len() implies phase_of(table, chunks[i].request_id.0) != Some(
            TpRequestPhase::Decoding,
        ) by {
            if i < chunks.len() - 1 {
                assert(chunks.drop_last()[i] == chunks[i]);
            }
        }
    }
}

proof fn lemma_unified_decode_clear(table: RequestTable, requests: Seq<TpDecodeStepItem>)
    requires
        unified_decode_refusal(table, requests) is None,
    ensures
        forall|i: int|
            #![trigger requests[i]]
            0 <= i < requests.len() ==> phase_of(table, requests[i].request_id.0) == Some(
                TpRequestPhase::Decoding,
            ),
    decreases requests.len(),
{
    if requests.len() > 0 {
        lemma_unified_decode_clear(table, requests.drop_last());
        assert forall|i: int|
            #![trigger requests[i]]
            0 <= i < requests.len() implies phase_of(table, requests[i].request_id.0) == Some(
            TpRequestPhase::Decoding,
        ) by {
            if i < requests.len() - 1 {
                assert(requests.drop_last()[i] == requests[i]);
            }
        }
    }
}

/// The requests that hold a slot.
pub open spec fn resident(table: RequestTable) -> Set<u64> {
    table.map_values(|row: (u64, TpRequestPhase)| row.0).to_set()
}

proof fn lemma_resident(table: RequestTable)
    requires
        distinct(table),
    ensures
        resident(table).finite(),
        resident(table).len() == table.len(),
        forall|id: u64| resident(table).contains(id) <==> #[trigger] position(table, id) is Some,
{
    let ids = table.map_values(|row: (u64, TpRequestPhase)| row.0);
    assert(ids.no_duplicates()) by {
        assert forall|i: int, j: int|
            0 <= i < ids.len() && 0 <= j < ids.len() && i != j implies ids[i] != ids[j] by {
            if i < j {
                assert(table[i].0 != table[j].0);
            } else {
                assert(table[j].0 != table[i].0);
            }
        }
    }
    ids.unique_seq_to_set();
    assert forall|id: u64| resident(table).contains(id) <==> #[trigger] position(table, id)
        is Some by {
        lemma_position(table, id);
        match position(table, id) {
            Some(i) => {
                assert(ids[i] == id);
            },
            None => {
                if ids.contains(id) {
                    let j = choose|j: int| 0 <= j < ids.len() && ids[j] == id;
                    assert(table[j].0 == id);
                }
            },
        }
    }
}

/// A decode command of one or more distinct requests is accepted exactly when the rank's
/// batch holds that many rows, a full batch included.
pub proof fn lemma_decode_command_verdict(max_batch: usize, requests: Seq<TpDecodeStepItem>)
    ensures
        decode_refusal(max_batch, requests) is None <==> 0 < requests.len() <= max_batch
            && decode_rows_fit(requests),
{
    lemma_decode_shape_verdict(requests);
}

/// All resident requests of a rank may decode in one command, however full the rank is.
pub proof fn lemma_all_residents_may_decode(
    table: RequestTable,
    max_batch: usize,
    requests: Seq<TpDecodeStepItem>,
)
    requires
        distinct(table),
        0 < table.len() <= max_batch,
        requests.len() == table.len(),
        forall|i: int|
            0 <= i < requests.len() ==> (#[trigger] requests[i]).request_id.0 == table[i].0,
    ensures
        decode_refusal(max_batch, requests) is None,
{
    assert forall|i: int, j: int| 0 <= i < j < requests.len() implies (
    #[trigger] requests[i]).request_id.0 != (#[trigger] requests[j]).request_id.0 by {
        assert(table[i].0 != table[j].0);
    }
    lemma_decode_command_verdict(max_batch, requests);
}

proof fn lemma_new_rows_are_newcomers(table: RequestTable, chunks: Seq<TpPrefillChunkItem>)
    requires
        distinct(table),
        prefill_rows_fit(chunks),
    ensures
        prefill_ids(chunks).finite(),
        resident(table).union(prefill_ids(chunks)).finite(),
        resident(table).union(prefill_ids(chunks)).len() == table.len() + new_rows(table, chunks),
    decreases chunks.len(),
{
    lemma_resident(table);
    if chunks.len() == 0 {
        assert(resident(table).union(prefill_ids(chunks)) =~= resident(table));
    } else {
        let head = chunks.drop_last();
        let own = chunks.last().request_id.0;
        assert forall|i: int| 0 <= i < head.len() implies head[i] == #[trigger] chunks[i] by {}
        assert(prefill_rows_fit(head)) by {
            assert forall|i: int, j: int| 0 <= i < j < head.len() implies (
            #[trigger] head[i]).request_id.0 != (#[trigger] head[j]).request_id.0 by {
                assert(chunks[i].request_id.0 != chunks[j].request_id.0);
            }
            assert forall|i: int| 0 <= i < head.len() implies (
            #[trigger] head[i]).prompt_tokens@.len() > 0 by {
                assert(chunks[i].prompt_tokens@.len() > 0);
            }
        }
        lemma_new_rows_are_newcomers(table, head);
        lemma_prefill_ids_are_the_rows(head);
        assert(!prefill_ids(head).contains(own)) by {
            assert forall|i: int| 0 <= i < head.len() implies (#[trigger] head[i]).request_id.0
                != own by {
                assert(chunks[i].request_id.0 != chunks[chunks.len() - 1].request_id.0);
            }
        }
        assert(resident(table).contains(own) <==> position(table, own) is Some);
        let before = resident(table).union(prefill_ids(head));
        assert(resident(table).union(prefill_ids(chunks)) =~= before.insert(own));
    }
}

/// A prefill command is accepted exactly when it has rows, every row carries tokens, no
/// request has two, and the requests resident afterwards fit the rank's batch: those
/// that were resident together with those of the command.
pub proof fn lemma_prefill_command_verdict(
    table: RequestTable,
    max_batch: usize,
    chunks: Seq<TpPrefillChunkItem>,
)
    requires
        distinct(table),
    ensures
        prefill_refusal(table, max_batch, chunks) is None <==> chunks.len() > 0
            && prefill_rows_fit(chunks) && resident(table).union(prefill_ids(chunks)).len()
            <= max_batch,
{
    lemma_prefill_shape_verdict(chunks);
    if prefill_rows_fit(chunks) {
        lemma_new_rows_are_newcomers(table, chunks);
    }
}

/// A unified plan is accepted exactly when its shape is in order, the requests resident
/// afterwards fit the rank's batch, no prefill row's request is decoding, and every
/// decode row's request is.
pub proof fn lemma_unified_command_verdict(
    table: RequestTable,
    max_batch: usize,
    plan: TpUnifiedPlan,
)
    requires
        distinct(table),
        plan.prefill@.len() + plan.decode@.len() <= usize::MAX,
    ensures
        unified_refusal(table, max_batch, plan) is None <==> {
            &&& plan.prefill@.len() > 0
            &&& plan.decode@.len() > 0
            &&& prefill_rows_fit(plan.prefill@)
            &&& decode_rows_fit(plan.decode@)
            &&& plan.prefill@.len() + plan.decode@.len() <= max_batch
            &&& resident(table).union(prefill_ids(plan.prefill@)).len() <= max_batch
            &&& forall|i: int|
                0 <= i < plan.prefill@.len() ==> phase_of(
                    table,
                    (#[trigger] plan.prefill@[i]).request_id.0,
                ) != Some(TpRequestPhase::Decoding)
            &&& forall|i: int|
                0 <= i < plan.decode@.len() ==> phase_of(
                    table,
                    (#[trigger] plan.decode@[i]).request_id.0,
                ) == Some(TpRequestPhase::Decoding)
            &&& forall|i: int, j: int|
                0 <= i < plan.prefill@.len() && 0 <= j < plan.decode@.len() ==> (
                #[trigger] plan.prefill@[i]).request_id.0 != (
                #[trigger] plan.decode@[j]).request_id.0
        },
{
    lemma_unified_shape_verdict(plan, max_batch);
    if unified_error(plan, max_batch) is None {
        lemma_new_rows_are_newcomers(table, plan.prefill@);
        lemma_unified_prefill_found(table, plan.prefill@);
        lemma_unified_decode_found(table, plan.decode@);
        if unified_prefill_refusal(table, plan.prefill@) is None {
            lemma_unified_prefill_clear(table, plan.prefill@);
        }
        if unified_decode_refusal(table, plan.decode@) is None {
            lemma_unified_decode_clear(table, plan.decode@);
        }
    }
}

proof fn lemma_unified_prefill_found(table: RequestTable, chunks: Seq<TpPrefillChunkItem>)
    ensures
        unified_prefill_refusal(table, chunks) is Some ==> exists|i: int|
            0 <= i < chunks.len() && phase_of(table, (#[trigger] chunks[i]).request_id.0) == Some(
                TpRequestPhase::Decoding,
            ),
    decreases chunks.len(),
{
    if chunks.len() > 0 {
        let head = chunks.drop_last();
        lemma_unified_prefill_found(table, head);
        if unified_prefill_refusal(table, head) is Some {
            let i = choose|i: int|
                0 <= i < head.len() && phase_of(table, (#[trigger] head[i]).request_id.0) == Some(
                    TpRequestPhase::Decoding,
                );
            assert(chunks[i] == head[i]);
        } else if unified_prefill_refusal(table, chunks) is Some {
            assert(chunks[chunks.len() - 1] == chunks.last());
        }
    }
}

proof fn lemma_unified_decode_found(table: RequestTable, requests: Seq<TpDecodeStepItem>)
    ensures
        unified_decode_refusal(table, requests) is Some ==> exists|i: int|
            0 <= i < requests.len() && phase_of(table, (#[trigger] requests[i]).request_id.0)
                != Some(TpRequestPhase::Decoding),
    decreases requests.len(),
{
    if requests.len() > 0 {
        let head = requests.drop_last();
        lemma_unified_decode_found(table, head);
        if unified_decode_refusal(table, head) is Some {
            let i = choose|i: int|
                0 <= i < head.len() && phase_of(table, (#[trigger] head[i]).request_id.0) != Some(
                    TpRequestPhase::Decoding,
                );
            assert(requests[i] == head[i]);
        } else if unified_decode_refusal(table, requests) is Some {
            assert(requests[requests.len() - 1] == requests.last());
        }
    }
}

/// The first row of a command samples with the command's own seed, and each row with
/// the seed after the one before it, around the end of the range; no two rows of a
/// command share a seed.
pub proof fn lemma_row_seeds_count_up(sample_seed: u64, row: nat, other: nat)
    requires
        row < other < 0x1_0000_0000_0000_0000,
    ensures
        wrapped_seed(sample_seed, 0) == sample_seed,
        wrapped_seed(sample_seed, row + 1) == (if wrapped_seed(sample_seed, row) == u64::MAX {
            0
        } else {
            wrapped_seed(sample_seed, row) + 1
        }),
        wrapped_seed(sample_seed, row) != wrapped_seed(sample_seed, other),
{
    let n: int = 0x1_0000_0000_0000_0000;
    let (a, b) = (sample_seed + row, sample_seed + other);
    if a >= n {
        assert(a % n == a - n);
    }
    if a + 1 >= n {
        assert((a + 1) % n == a + 1 - n) by {
            if a + 1 < 2 * n {
            }
        }
    }
    if b >= n {
        assert(b % n == b - n);
    }
}

/// A decode row runs exactly when its request is resident and decoding. It runs on that
/// request's own slot, and only the first rank samples, each row with its own seed. Rows
/// of different requests run on different slots.
pub proof fn lemma_decode_rows_run_on_their_slots(
    table: RequestTable,
    rank: usize,
    requests: Seq<TpDecodeStepItem>,
    row: int,
    other: int,
    sample_seed: u64,
)
    requires
        distinct(table),
        table.len() <= usize::MAX,
        decode_rows_fit(requests),
        0 <= row < requests.len(),
        0 <= other < requests.len(),
    ensures
        ({
            let step = decode_step_of(table, rank, requests, row, sample_seed);
            &&& !(step is Done)
            &&& step is Forward <==> exists|slot: int|
                0 <= slot < table.len() && #[trigger] table[slot] == (
                    requests[row].request_id.0,
                    TpRequestPhase::Decoding,
                )
            &&& step matches DecodeStep::Forward { slot, seed } ==> {
                &&& slot < table.len()
                &&& table[slot as int] == (requests[row].request_id.0, TpRequestPhase::Decoding)
                &&& seed is Some <==> rank == 0
                &&& seed matches Some(s) ==> s == wrapped_seed(sample_seed, row as nat)
                &&& row != other ==> (decode_step_of(table, rank, requests, other, sample_seed) matches
                    DecodeStep::Forward { slot: elsewhere, .. } ==> elsewhere != slot)
            }
        }),
{
    let (id, else_id) = (requests[row].request_id.0, requests[other].request_id.0);
    assert(row != other ==> id != else_id) by {
        if row == other {
        } else if row < other {
            assert(requests[row].request_id.0 != requests[other].request_id.0);
        } else {
            assert(requests[other].request_id.0 != requests[row].request_id.0);
        }
    }
    lemma_position(table, id);
    lemma_position(table, else_id);
    if exists|slot: int|
        0 <= slot < table.len() && #[trigger] table[slot] == (id, TpRequestPhase::Decoding) {
        let slot = choose|slot: int|
            0 <= slot < table.len() && #[trigger] table[slot] == (id, TpRequestPhase::Decoding);
        let found = position(table, id)->0;
        if found < slot {
            assert(table[found].0 != table[slot].0);
        }
        assert(found == slot);
    }
}

/// A prefill row first gets its request a slot, then runs on it while the request is
/// prefilling; only the first rank samples, and only where the row ends its prompt.
pub proof fn lemma_prefill_rows_run_on_their_slots(
    table: RequestTable,
    rank: usize,
    chunks: Seq<TpPrefillChunkItem>,
    row: int,
    final_rows: usize,
    sample_seed: u64,
)
    requires
        distinct(table),
        table.len() <= usize::MAX,
        0 <= row < chunks.len(),
    ensures
        ({
            let id = chunks[row].request_id.0;
            let step = prefill_step_of(table, rank, chunks, row, final_rows, sample_seed);
            &&& !(step is Done)
            &&& step is Allocate <==> !resident(table).contains(id)
            &&& step matches PrefillStep::Allocate { request_id } ==> request_id
                == chunks[row].request_id
            &&& step is Fail <==> phase_of(table, id) == Some(TpRequestPhase::Decoding)
            &&& step matches PrefillStep::Forward { slot, seed } ==> {
                &&& slot < table.len()
                &&& table[slot as int] == (id, TpRequestPhase::Prefilling)
                &&& seed is Some <==> rank == 0 && chunks[row].finish_prefill
                &&& seed matches Some(s) ==> s == wrapped_seed(sample_seed, final_rows as nat)
            }
        }),
{
    lemma_position(table, chunks[row].request_id.0);
    lemma_resident(table);
    assert(resident(table).contains(chunks[row].request_id.0) <==> position(
        table,
        chunks[row].request_id.0,
    ) is Some);
}

/// What changes a rank's state waits for its command's decision and is skipped where
/// that is to cancel; what only reads runs at once, and a shutdown stops.
pub proof fn lemma_commands_wait_for_their_decision(
    kind: TpCommandKind,
    decision: TpCommandDecision,
    r: TpCommandStep,
)
    requires
        call_ensures(command_step, (kind, decision), r),
    ensures
        r is Stop <==> kind is Shutdown,
        kind is Ping || kind is SnapshotState ==> r is Run,
        kind is RunPrefillChunks || kind is RunDecodeStep || kind is RunUnifiedStep
            || kind is DropRequest ==> (r is Run <==> decision is Execute) && (r is Wait
            <==> decision is Pending) && (r is Skip <==> decision is Cancel),
{
}

} // verus!
