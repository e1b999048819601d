//! The commands a dispatcher hands to every rank, and their shape checks.
use std::collections::HashSet;
use vstd::prelude::*;
use crate::arith::saturated;
use crate::engine::SamplingParams;
use crate::scheduler::request::RequestId;
use crate::tp::error::{TpError, TRITON_AOT_DEVICE_TABLE_LEN};

verus! {

broadcast use vstd::std_specs::hash::group_hash_axioms;

/// One request's prompt tokens of a prefill command.
pub struct TpPrefillChunkItem {
    pub request_id: RequestId,
    pub prompt_tokens: Vec<u32>,
    pub logprobs: usize,
    pub sampling_params: SamplingParams,
    pub finish_prefill: bool,
}

impl TpPrefillChunkItem {
    pub fn new(
        request_id: RequestId,
        prompt_tokens: Vec<u32>,
        logprobs: usize,
        finish_prefill: bool,
    ) -> (r: Self)
        ensures
            r.request_id == request_id,
            r.prompt_tokens == prompt_tokens,
            r.logprobs == logprobs,
            r.finish_prefill == finish_prefill,
            r.sampling_params.temperature == 0,
            r.sampling_params.top_k == -1,
            r.sampling_params.top_p == 0x3f80_0000,
            !r.sampling_params.ignore_eos,
    {
        TpPrefillChunkItem {
            request_id,
            prompt_tokens,
            logprobs,
            sampling_params: SamplingParams::default(),
            finish_prefill,
        }
    }

    pub fn new_with_sampling(
        request_id: RequestId,
        prompt_tokens: Vec<u32>,
        logprobs: usize,
        sampling_params: SamplingParams,
        finish_prefill: bool,
    ) -> (r: Self)
        ensures
            r == (TpPrefillChunkItem {
                request_id,
                prompt_tokens,
                logprobs,
                sampling_params,
                finish_prefill,
            }),
    {
        TpPrefillChunkItem { request_id, prompt_tokens, logprobs, sampling_params, finish_prefill }
    }
}

/// One request's row of a decode command.
#[derive(Clone, Copy)]
pub struct TpDecodeStepItem {
    pub request_id: RequestId,
    pub token_id: u32,
    pub logprobs: usize,
    pub sampling_params: SamplingParams,
}

impl TpDecodeStepItem {
    pub fn new(
        request_id: RequestId,
        token_id: u32,
        logprobs: usize,
        sampling_params: SamplingParams,
    ) -> (r: Self)
        ensures
            r == (TpDecodeStepItem { request_id, token_id, logprobs, sampling_params }),
    {
        TpDecodeStepItem { request_id, token_id, logprobs, sampling_params }
    }
}

/// A step that prefills and decodes at once.
pub struct TpUnifiedPlan {
    pub prefill: Vec<TpPrefillChunkItem>,
    pub decode: Vec<TpDecodeStepItem>,
    pub prefill_sample_seed: u64,
    pub decode_sample_seed: u64,
}

/// The first thing wrong with the chunks of one command, in order.
pub open spec fn prefill_error(chunks: Seq<TpPrefillChunkItem>) -> Option<TpError>
    decreases chunks.len(),
{
    if chunks.len() == 0 {
        None
    } else {
        let last = chunks.last();
        match prefill_error(chunks.drop_last()) {
            Some(error) => Some(error),
            None => if last.prompt_tokens@.len() == 0 {
                Some(TpError::EmptyChunk { request: last.request_id.0 })
            } else if prefill_ids(chunks.drop_last()).contains(last.request_id.0) {
                Some(TpError::DuplicatePrefill { request: last.request_id.0 })
            } else {
                None
            },
        }
    }
}

pub open spec fn prefill_ids(chunks: Seq<TpPrefillChunkItem>) -> Set<u64>
    decreases chunks.len(),
{
    if chunks.len() == 0 {
        Set::empty()
    } else {
        prefill_ids(chunks.drop_last()).insert(chunks.last().request_id.0)
    }
}

pub open spec fn decode_ids(requests: Seq<TpDecodeStepItem>) -> Set<u64>
    decreases requests.len(),
{
    if requests.len() == 0 {
        Set::empty()
    } else {
        decode_ids(requests.drop_last()).insert(requests.last().request_id.0)
    }
}

/// The first request that appears twice in one decode command.
pub open spec fn decode_error(requests: Seq<TpDecodeStepItem>) -> Option<TpError>
    decreases requests.len(),
{
    if requests.len() == 0 {
        None
    } else {
        let last = requests.last();
        match decode_error(requests.drop_last()) {
            Some(error) => Some(error),
            None => if decode_ids(requests.drop_last()).contains(last.request_id.0) {
                Some(TpError::DuplicateDecode { request: last.request_id.0 })
            } else {
                None
            },
        }
    }
}

proof fn lemma_prefill_error_prefix(chunks: Seq<TpPrefillChunkItem>, n: int)
    requires
        0 <= n <= chunks.len(),
        prefill_error(chunks.take(n)) is Some,
    ensures
        prefill_error(chunks) == prefill_error(chunks.take(n)),
    decreases chunks.len() - n,
{
    if n == chunks.len() {
        assert(chunks.take(n) =~= chunks);
    } else {
        assert(chunks.take(n + 1).drop_last() =~= chunks.take(n));
        lemma_prefill_error_prefix(chunks, n + 1);
    }
}

proof fn lemma_decode_error_prefix(requests: Seq<TpDecodeStepItem>, n: int)
    requires
        0 <= n <= requests.len(),
        decode_error(requests.take(n)) is Some,
    ensures
        decode_error(requests) == decode_error(requests.take(n)),
    decreases requests.len() - n,
{
    if n == requests.len() {
        assert(requests.take(n) =~= requests);
    } else {
        assert(requests.take(n + 1).drop_last() =~= requests.take(n));
        lemma_decode_error_prefix(requests, n + 1);
    }
}

pub fn validate_prefill_chunks(chunks: &[TpPrefillChunkItem]) -> (r: Result<(), TpError>)
    ensures
        match prefill_error(chunks@) {
            Some(error) => r == Err::<(), TpError>(error),
            None => r is Ok,
        },
{
    let mut seen: HashSet<u64> = HashSet::new();
    let mut i: usize = 0;
    assert(chunks@.take(0) =~= Seq::<TpPrefillChunkItem>::empty());
    assert(seen@ =~= Set::<u64>::empty());
    while i < chunks.len()
        invariant
            i <= chunks.len(),
            prefill_error(chunks@.take(i as int)) is None,
            seen@ == prefill_ids(chunks@.take(i as int)),
        decreases chunks.len() - i,
    {
        let chunk = &chunks[i];
        proof {
            assert(chunks@.take(i as int + 1).drop_last() =~= chunks@.take(i as int));
            if prefill_error(chunks@.take(i as int + 1)) is Some {
                lemma_prefill_error_prefix(chunks@, i as int + 1);
            }
        }
        if chunk.prompt_tokens.is_empty() {
            return Err(TpError::EmptyChunk { request: chunk.request_id.get() });
        }
        if !seen.insert(chunk.request_id.0) {
            return Err(TpError::DuplicatePrefill { request: chunk.request_id.get() });
        }
        i = i + 1;
    }
    assert(chunks@.take(i as int) =~= chunks@);
    Ok(())
}

pub fn validate_decode_requests(requests: &[TpDecodeStepItem]) -> (r: Result<(), TpError>)
    ensures
        match decode_error(requests@) {
            Some(error) => r == Err::<(), TpError>(error),
            None => r is Ok,
        },
{
    let mut seen: HashSet<u64> = HashSet::new();
    let mut i: usize = 0;
    assert(requests@.take(0) =~= Seq::<TpDecodeStepItem>::empty());
    assert(seen@ =~= Set::<u64>::empty());
    while i < requests.len()
        invariant
            i <= requests.len(),
            decode_error(requests@.take(i as int)) is None,
            seen@ == decode_ids(requests@.take(i as int)),
        decreases requests.len() - i,
    {
        let request = &requests[i];
        proof {
            assert(requests@.take(i as int + 1).drop_last() =~= requests@.take(i as int));
            if decode_error(requests@.take(i as int + 1)) is Some {
                lemma_decode_error_prefix(requests@, i as int + 1);
            }
        }
        if !seen.insert(request.request_id.0) {
            return Err(TpError::DuplicateDecode { request: request.request_id.get() });
        }
        i = i + 1;
    }
    assert(requests@.take(i as int) =~= requests@);
    Ok(())
}

pub open spec fn ordinal_set(ordinals: Seq<usize>) -> Set<usize>
    decreases ordinals.len(),
{
    if ordinals.len() == 0 {
        Set::empty()
    } else {
        ordinal_set(ordinals.drop_last()).insert(ordinals.last())
    }
}

/// The first thing wrong with a device list, in order.
pub open spec fn ordinal_error(ordinals: Seq<usize>) -> Option<TpError>
    decreases ordinals.len(),
{
    if ordinals.len() == 0 {
        None
    } else {
        match ordinal_error(ordinals.drop_last()) {
            Some(error) => Some(error),
            None => if ordinals.last() >= TRITON_AOT_DEVICE_TABLE_LEN {
                Some(TpError::OrdinalOutOfRange { ordinal: ordinals.last() })
            } else if ordinal_set(ordinals.drop_last()).contains(ordinals.last()) {
                Some(TpError::DuplicateOrdinal { ordinal: ordinals.last() })
            } else {
                None
            },
        }
    }
}

proof fn lemma_ordinal_error_prefix(ordinals: Seq<usize>, n: int)
    requires
        0 <= n <= ordinals.len(),
        ordinal_error(ordinals.take(n)) is Some,
    ensures
        ordinal_error(ordinals) == ordinal_error(ordinals.take(n)),
    decreases ordinals.len() - n,
{
    if n == ordinals.len() {
        assert(ordinals.take(n) =~= ordinals);
    } else {
        assert(ordinals.take(n + 1).drop_last() =~= ordinals.take(n));
        lemma_ordinal_error_prefix(ordinals, n + 1);
    }
}

pub fn validate_cuda_ordinals(device_ordinals: &[usize]) -> (r: Result<(), TpError>)
    ensures
        match ordinal_error(device_ordinals@) {
            Some(error) => r == Err::<(), TpError>(error),
            None => r is Ok,
        },
{
    let mut seen: HashSet<usize> = HashSet::new();
    let mut i: usize = 0;
    assert(device_ordinals@.take(0) =~= Seq::<usize>::empty());
    assert(seen@ =~= Set::<usize>::empty());
    while i < device_ordinals.len()
        invariant
            i <= device_ordinals.len(),
            ordinal_error(device_ordinals@.take(i as int)) is None,
            seen@ == ordinal_set(device_ordinals@.take(i as int)),
        decreases device_ordinals.len() - i,
    {
        let ordinal: usize = device_ordinals[i];
        proof {
            assert(device_ordinals@.take(i as int + 1).drop_last() =~= device_ordinals@.take(
                i as int,
            ));
            if ordinal_error(device_ordinals@.take(i as int + 1)) is Some {
                lemma_ordinal_error_prefix(device_ordinals@, i as int + 1);
            }
        }
        if ordinal >= TRITON_AOT_DEVICE_TABLE_LEN {
            return Err(TpError::OrdinalOutOfRange { ordinal });
        }
        if !seen.insert(ordinal) {
            return Err(TpError::DuplicateOrdinal { ordinal });
        }
        i = i + 1;
    }
    assert(device_ordinals@.take(i as int) =~= device_ordinals@);
    Ok(())
}

/// The first decode request that the same plan also prefills.
pub open spec fn overlap_error(
    prefill: Set<u64>,
    decode: Seq<TpDecodeStepItem>,
) -> Option<TpError>
    decreases decode.len(),
{
    if decode.len() == 0 {
        None
    } else {
        match overlap_error(prefill, decode.drop_last()) {
            Some(error) => Some(error),
            None => if prefill.contains(decode.last().request_id.0) {
                Some(TpError::UnifiedInBoth { request: decode.last().request_id.0 })
            } else {
                None
            },
        }
    }
}

proof fn lemma_overlap_error_prefix(prefill: Set<u64>, decode: Seq<TpDecodeStepItem>, n: int)
    requires
        0 <= n <= decode.len(),
        overlap_error(prefill, decode.take(n)) is Some,
    ensures
        overlap_error(prefill, decode) == overlap_error(prefill, decode.take(n)),
    decreases decode.len() - n,
{
    if n == decode.len() {
        assert(decode.take(n) =~= decode);
    } else {
        assert(decode.take(n + 1).drop_last() =~= decode.take(n));
        lemma_overlap_error_prefix(prefill, decode, n + 1);
    }
}

/// What is wrong with a unified plan under a row capacity.
pub open spec fn unified_error(plan: TpUnifiedPlan, max_batch: usize) -> Option<TpError> {
    let rows = saturated((plan.prefill@.len() + plan.decode@.len()) as int);
    if plan.prefill@.len() == 0 {
        Some(TpError::UnifiedNeedsPrefill)
    } else if plan.decode@.len() == 0 {
        Some(TpError::UnifiedNeedsDecode)
    } else if prefill_error(plan.prefill@) is Some {
        prefill_error(plan.prefill@)
    } else if decode_error(plan.decode@) is Some {
        decode_error(plan.decode@)
    } else if rows > max_batch {
        Some(TpError::UnifiedRows { rows, max_batch })
    } else {
        overlap_error(prefill_ids(plan.prefill@), plan.decode@)
    }
}

fn collect_prefill_ids(chunks: &[TpPrefillChunkItem]) -> (r: HashSet<u64>)
    ensures
        r@ == prefill_ids(chunks@),
{
    let mut ids: HashSet<u64> = HashSet::new();
    let mut i: usize = 0;
    assert(chunks@.take(0) =~= Seq::<TpPrefillChunkItem>::empty());
    assert(ids@ =~= Set::<u64>::empty());
    while i < chunks.len()
        invariant
            i <= chunks.len(),
            ids@ == prefill_ids(chunks@.take(i as int)),
        decreases chunks.len() - i,
    {
        assert(chunks@.take(i as int + 1).drop_last() =~= chunks@.take(i as int));
        ids.insert(chunks[i].request_id.0);
        i = i + 1;
    }
    assert(chunks@.take(i as int) =~= chunks@);
    ids
}

#[verifier::loop_isolation(false)]
pub fn validate_unified_plan(plan: &TpUnifiedPlan, max_batch: usize) -> (r: Result<(), TpError>)
    ensures
        match unified_error(*plan, max_batch) {
            Some(error) => r == Err::<(), TpError>(error),
            None => r is Ok,
        },
{
    if plan.prefill.is_empty() {
        return Err(TpError::UnifiedNeedsPrefill);
    }
    if plan.decode.is_empty() {
        return Err(TpError::UnifiedNeedsDecode);
    }
    match validate_prefill_chunks(plan.prefill.as_slice()) {
        Err(error) => {
            return Err(error);
        },
        Ok(()) => {},
    }
    match validate_decode_requests(plan.decode.as_slice()) {
        Err(error) => {
            return Err(error);
        },
        Ok(()) => {},
    }
    let rows: usize = plan.prefill.len().saturating_add(plan.decode.len());
    if rows > max_batch {
        return Err(TpError::UnifiedRows { rows, max_batch });
    }
    let ids = collect_prefill_ids(plan.prefill.as_slice());
    let ghost prefill = prefill_ids(plan.prefill@);
    let mut i: usize = 0;
    assert(plan.decode@.take(0) =~= Seq::<TpDecodeStepItem>::empty());
    while i < plan.decode.len()
        invariant
            i <= plan.decode.len(),
            ids@ == prefill,
            overlap_error(prefill, plan.decode@.take(i as int)) is None,
        decreases plan.decode.len() - i,
    {
        proof {
            assert(plan.decode@.take(i as int + 1).drop_last() =~= plan.decode@.take(i as int));
            if overlap_error(prefill, plan.decode@.take(i as int + 1)) is Some {
                lemma_overlap_error_prefix(prefill, plan.decode@, i as int + 1);
            }
        }
        let id: u64 = plan.decode[i].request_id.0;
        if ids.contains(&id) {
            return Err(TpError::UnifiedInBoth { request: id });
        }
        i = i + 1;
    }
    assert(plan.decode@.take(i as int) =~= plan.decode@);
    Ok(())
}

/// A command that passed its check names every request once: the rows of an
/// accepted prefill command are distinct.
pub proof fn lemma_accepted_prefill_rows_are_distinct(chunks: Seq<TpPrefillChunkItem>)
    requires
        prefill_error(chunks) is None,
    ensures
        forall|i: int, j: int|
            0 <= i < j < chunks.len() ==> (#[trigger] chunks[i]).request_id != (
            #[trigger] chunks[j]).request_id,
        forall|i: int| 0 <= i < chunks.len() ==> (#[trigger] chunks[i]).prompt_tokens@.len() > 0,
        forall|i: int|
            0 <= i < chunks.len() ==> prefill_ids(chunks).contains(
                (#[trigger] chunks[i]).request_id.0,
            ),
    decreases chunks.len(),
{
    if chunks.len() > 0 {
        let head = chunks.drop_last();
        lemma_accepted_prefill_rows_are_distinct(head);
        assert forall|i: int| 0 <= i < chunks.len() implies prefill_ids(chunks).contains(
            (#[trigger] chunks[i]).request_id.0,
        ) && chunks[i].prompt_tokens@.len() > 0 by {
            if i < head.len() {
                assert(head[i] == chunks[i]);
            }
        }
        assert forall|i: int, j: int| 0 <= i < j < chunks.len() implies (
        #[trigger] chunks[i]).request_id != (#[trigger] chunks[j]).request_id by {
            assert(head[i] == chunks[i]);
            if j < head.len() {
                assert(head[j] == chunks[j]);
            } else {
                assert(prefill_ids(head).contains(head[i].request_id.0));
            }
        }
    }
}

/// Rows that may run in one command: every one carries tokens, and no request has two.
pub open spec fn prefill_rows_fit(chunks: Seq<TpPrefillChunkItem>) -> bool {
    &&& forall|i: int| 0 <= i < chunks.len() ==> (#[trigger] chunks[i]).prompt_tokens@.len() > 0
    &&& forall|i: int, j: int|
        0 <= i < j < chunks.len() ==> (#[trigger] chunks[i]).request_id.0 != (
        #[trigger] chunks[j]).request_id.0
}

/// Rows of distinct requests.
pub open spec fn decode_rows_fit(requests: Seq<TpDecodeStepItem>) -> bool {
    forall|i: int, j: int|
        0 <= i < j < requests.len() ==> (#[trigger] requests[i]).request_id.0 != (
        #[trigger] requests[j]).request_id.0
}

/// Row `i` repeats the request of an earlier row.
pub open spec fn repeats_prefill(chunks: Seq<TpPrefillChunkItem>, i: int) -> bool {
    exists|j: int| 0 <= j < i && (#[trigger] chunks[j]).request_id.0 == chunks[i].request_id.0
}

/// Row `i` repeats the request of an earlier row.
pub open spec fn repeats_decode(requests: Seq<TpDecodeStepItem>, i: int) -> bool {
    exists|j: int| 0 <= j < i && (#[trigger] requests[j]).request_id.0 == requests[i].request_id.0
}

/// The ids of a command are those of its rows.
pub proof fn lemma_prefill_ids_are_the_rows(chunks: Seq<TpPrefillChunkItem>)
    ensures
        forall|id: u64|
            prefill_ids(chunks).contains(id) <==> exists|i: int|
                0 <= i < chunks.len() && (#[trigger] chunks[i]).request_id.0 == id,
    decreases chunks.len(),
{
    if chunks.len() > 0 {
        let head = chunks.drop_last();
        lemma_prefill_ids_are_the_rows(head);
        assert forall|id: u64|
            prefill_ids(chunks).contains(id) implies exists|i: int|
            0 <= i < chunks.len() && (#[trigger] chunks[i]).request_id.0 == id by {
            if prefill_ids(head).contains(id) {
                let i = choose|i: int|
                    0 <= i < head.len() && (#[trigger] head[i]).request_id.0 == id;
                assert(chunks[i].request_id.0 == id);
            } else {
                assert(chunks[chunks.len() - 1].request_id.0 == id);
            }
        }
        assert forall|id: u64|
            (exists|i: int| 0 <= i < chunks.len() && (#[trigger] chunks[i]).request_id.0
                == id) implies prefill_ids(chunks).contains(id) by {
            let i = choose|i: int|
                0 <= i < chunks.len() && (#[trigger] chunks[i]).request_id.0 == id;
            if i < head.len() {
                assert(head[i].request_id.0 == id);
                assert(prefill_ids(head).contains(id));
            }
        }
    }
}

/// The ids of a command are those of its rows.
pub proof fn lemma_decode_ids_are_the_rows(requests: Seq<TpDecodeStepItem>)
    ensures
        forall|id: u64|
            decode_ids(requests).contains(id) <==> exists|i: int|
                0 <= i < requests.len() && (#[trigger] requests[i]).request_id.0 == id,
    decreases requests.len(),
{
    if requests.len() > 0 {
        let head = requests.drop_last();
        lemma_decode_ids_are_the_rows(head);
        assert forall|id: u64|
            decode_ids(requests).contains(id) implies exists|i: int|
            0 <= i < requests.len() && (#[trigger] requests[i]).request_id.0 == id by {
            if decode_ids(head).contains(id) {
                let i = choose|i: int|
                    0 <= i < head.len() && (#[trigger] head[i]).request_id.0 == id;
                assert(requests[i].request_id.0 == id);
            } else {
                assert(requests[requests.len() - 1].request_id.0 == id);
            }
        }
        assert forall|id: u64|
            (exists|i: int| 0 <= i < requests.len() && (#[trigger] requests[i]).request_id.0
                == id) implies decode_ids(requests).contains(id) by {
            let i = choose|i: int|
                0 <= i < requests.len() && (#[trigger] requests[i]).request_id.0 == id;
            if i < head.len() {
                assert(head[i].request_id.0 == id);
                assert(decode_ids(head).contains(id));
            }
        }
    }
}

/// A prefill command passes its shape check exactly when every row carries tokens and no
/// request has two rows. Otherwise the error names the first row that breaks this: the
/// rows before it are in order, and it is empty or repeats one of them.
pub proof fn lemma_prefill_shape_verdict(chunks: Seq<TpPrefillChunkItem>)
    ensures
        prefill_error(chunks) is None <==> prefill_rows_fit(chunks),
        prefill_error(chunks) matches Some(error) ==> exists|i: int|
            #![trigger chunks[i]]
            0 <= i < chunks.len() && prefill_rows_fit(chunks.take(i)) && (if chunks[i].prompt_tokens@.len()
                == 0 {
                error == (TpError::EmptyChunk { request: chunks[i].request_id.0 })
            } else {
                repeats_prefill(chunks, i) && error == (TpError::DuplicatePrefill {
                    request: chunks[i].request_id.0,
                })
            }),
    decreases chunks.len(),
{
    if chunks.len() > 0 {
        let head = chunks.drop_last();
        let n = chunks.len() - 1;
        lemma_prefill_shape_verdict(head);
        lemma_prefill_ids_are_the_rows(head);
        assert(chunks.take(n) =~= head);
        assert forall|i: int| 0 <= i < n implies head[i] == #[trigger] chunks[i] by {}
        if prefill_error(head) is Some {
            let error = prefill_error(head)->0;
            let i = choose|i: int|
                #![trigger head[i]]
                0 <= i < head.len() && prefill_rows_fit(head.take(i)) && (if head[i].prompt_tokens@.len()
                    == 0 {
                    error == (TpError::EmptyChunk { request: head[i].request_id.0 })
                } else {
                    repeats_prefill(head, i) && error == (TpError::DuplicatePrefill {
                        request: head[i].request_id.0,
                    })
                });
            assert(chunks.take(i) =~= head.take(i));
            assert(chunks[i] == head[i]);
            if repeats_prefill(head, i) {
                let j = choose|j: int|
                    0 <= j < i && (#[trigger] head[j]).request_id.0 == head[i].request_id.0;
                assert(chunks[j].request_id.0 == chunks[i].request_id.0);
            }
            assert(!prefill_rows_fit(head));
            assert(prefill_rows_fit(chunks) ==> prefill_rows_fit(head));
        } else {
            let last = chunks[n];
            if prefill_ids(head).contains(last.request_id.0) {
                let j = choose|j: int|
                    0 <= j < head.len() && (#[trigger] head[j]).request_id.0 == last.request_id.0;
                assert(chunks[j].request_id.0 == chunks[n].request_id.0);
                assert(repeats_prefill(chunks, n));
            } else {
                assert forall|i: int| 0 <= i < n implies (#[trigger] chunks[i]).request_id.0
                    != last.request_id.0 by {
                    assert(head[i].request_id.0 == chunks[i].request_id.0);
                }
            }
            if prefill_error(chunks) is None {
                assert forall|i: int, j: int| 0 <= i < j < chunks.len() implies (
                #[trigger] chunks[i]).request_id.0 != (#[trigger] chunks[j]).request_id.0 by {
                    assert(head[i] == chunks[i]);
                    if j < n {
                        assert(head[j] == chunks[j]);
                    }
                }
                assert forall|i: int| 0 <= i < chunks.len() implies (
                #[trigger] chunks[i]).prompt_tokens@.len() > 0 by {
                    if i < n {
                        assert(head[i] == chunks[i]);
                    }
                }
            }
        }
    }
}

/// A decode command passes its shape check exactly when no request has two rows.
/// Otherwise the error names the first request that comes again.
pub proof fn lemma_decode_shape_verdict(requests: Seq<TpDecodeStepItem>)
    ensures
        decode_error(requests) is None <==> decode_rows_fit(requests),
        decode_error(requests) matches Some(error) ==> exists|i: int|
            #![trigger requests[i]]
            0 <= i < requests.len() && decode_rows_fit(requests.take(i)) && repeats_decode(
                requests,
                i,
            ) && error == (TpError::DuplicateDecode { request: requests[i].request_id.0 }),
    decreases requests.len(),
{
    if requests.len() > 0 {
        let head = requests.drop_last();
        let n = requests.len() - 1;
        lemma_decode_shape_verdict(head);
        lemma_decode_ids_are_the_rows(head);
        assert(requests.take(n) =~= head);
        assert forall|i: int| 0 <= i < n implies head[i] == #[trigger] requests[i] by {}
        if decode_error(head) is Some {
            let error = decode_error(head)->0;
            let i = choose|i: int|
                #![trigger head[i]]
                0 <= i < head.len() && decode_rows_fit(head.take(i)) && repeats_decode(head, i)
                    && error == (TpError::DuplicateDecode { request: head[i].request_id.0 });
            assert(requests.take(i) =~= head.take(i));
            assert(requests[i] == head[i]);
            let j = choose|j: int|
                0 <= j < i && (#[trigger] head[j]).request_id.0 == head[i].request_id.0;
            assert(requests[j].request_id.0 == requests[i].request_id.0);
            assert(decode_rows_fit(requests) ==> decode_rows_fit(head));
        } else {
            let last = requests[n];
            if decode_ids(head).contains(last.request_id.0) {
                let j = choose|j: int|
                    0 <= j < head.len() && (#[trigger] head[j]).request_id.0 == last.request_id.0;
                assert(requests[j].request_id.0 == requests[n].request_id.0);
                assert(repeats_decode(requests, n));
            } else {
                assert forall|i: int, j: int| 0 <= i < j < requests.len() implies (
                #[trigger] requests[i]).request_id.0 != (#[trigger] requests[j]).request_id.0 by {
                    assert(head[i] == requests[i]);
                    if j < n {
                        assert(head[j] == requests[j]);
                    } else {
                        assert(head[i].request_id.0 == requests[i].request_id.0);
                    }
                }
            }
        }
    }
}

/// A device list is accepted exactly when all of its ordinals are below sixteen, the
/// size of the kernels' device table, and none of them occurs twice.
pub proof fn lemma_ordinal_verdict(ordinals: Seq<usize>)
    ensures
        ordinal_error(ordinals) is None <==> (ordinals.no_duplicates() && forall|i: int|
            0 <= i < ordinals.len() ==> (#[trigger] ordinals[i]) < 16),
        forall|x: usize| ordinal_set(ordinals).contains(x) <==> ordinals.contains(x),
    decreases ordinals.len(),
{
    if ordinals.len() > 0 {
        let head = ordinals.drop_last();
        let n = ordinals.len() - 1;
        lemma_ordinal_verdict(head);
        assert forall|i: int| 0 <= i < n implies head[i] == #[trigger] ordinals[i] by {}
        assert forall|x: usize| ordinal_set(ordinals).contains(x) <==> ordinals.contains(x) by {
            if head.contains(x) {
                let i = choose|i: int| 0 <= i < head.len() && head[i] == x;
                assert(ordinals[i] == x);
            }
            if ordinals.contains(x) {
                let i = choose|i: int| 0 <= i < ordinals.len() && ordinals[i] == x;
                if i < n {
                    assert(head[i] == x);
                }
            }
            if x == ordinals[n] {
                assert(ordinals.contains(x));
            }
        }
        if ordinal_error(ordinals) is None {
            assert forall|i: int, j: int|
                0 <= i < ordinals.len() && 0 <= j < ordinals.len() && i != j implies ordinals[i]
                != ordinals[j] by {
                if i < n && j < n {
                    assert(head[i] != head[j]);
                } else if i < n {
                    assert(head.contains(head[i]));
                } else {
                    assert(head.contains(head[j]));
                }
            }
        } else if ordinal_error(head) is None {
            if ordinals[n] < 16 {
                assert(head.contains(ordinals[n]));
                let j = choose|j: int| 0 <= j < head.len() && head[j] == ordinals[n];
                assert(ordinals[j] == ordinals[n]);
            }
        } else {
            if ordinals.no_duplicates() {
                assert(head.no_duplicates());
            }
        }
    }
}

/// A unified plan passes its shape check exactly when it prefills and decodes something,
/// each half names every request once, no request is in both, no prefill row is empty,
/// and all rows together fit the batch.
pub proof fn lemma_unified_shape_verdict(plan: TpUnifiedPlan, max_batch: usize)
    requires
        plan.prefill@.len() + plan.decode@.len() <= usize::MAX,
    ensures
        unified_error(plan, max_batch) is None <==> {
            &&& plan.prefill@.len() > 0
            &&& plan.decode@.len() > 0
            &&& prefill_rows_fit(plan.prefill@)
            &&& decode_rows_fit(plan.decode@)
            &&& plan.prefill@.len() + plan.decode@.len() <= max_batch
            &&& forall|i: int, j: int|
                0 <= i < plan.prefill@.len() && 0 <= j < plan.decode@.len() ==> (
                #[trigger] plan.prefill@[i]).request_id.0 != (
                #[trigger] plan.decode@[j]).request_id.0
        },
{
    lemma_prefill_shape_verdict(plan.prefill@);
    lemma_decode_shape_verdict(plan.decode@);
    lemma_prefill_ids_are_the_rows(plan.prefill@);
    let ids = prefill_ids(plan.prefill@);
    lemma_overlap_verdict(ids, plan.decode@);
    if overlap_error(ids, plan.decode@) is None {
        assert forall|i: int, j: int|
            0 <= i < plan.prefill@.len() && 0 <= j < plan.decode@.len() implies (
        #[trigger] plan.prefill@[i]).request_id.0 != (#[trigger] plan.decode@[j]).request_id.0 by {
            assert(ids.contains(plan.prefill@[i].request_id.0));
        }
    } else {
        let j = choose|j: int|
            0 <= j < plan.decode@.len() && ids.contains((#[trigger] plan.decode@[j]).request_id.0);
        let i = choose|i: int|
            0 <= i < plan.prefill@.len() && (#[trigger] plan.prefill@[i]).request_id.0
                == plan.decode@[j].request_id.0;
        assert(plan.prefill@[i].request_id.0 == plan.decode@[j].request_id.0);
    }
}

proof fn lemma_overlap_verdict(prefill: Set<u64>, decode: Seq<TpDecodeStepItem>)
    ensures
        overlap_error(prefill, decode) is Some <==> exists|j: int|
            0 <= j < decode.len() && prefill.contains((#[trigger] decode[j]).request_id.0),
    decreases decode.len(),
{
    if decode.len() > 0 {
        let head = decode.drop_last();
        lemma_overlap_verdict(prefill, head);
        if overlap_error(prefill, decode) is Some {
            if overlap_error(prefill, head) is Some {
                let j = choose|j: int|
                    0 <= j < head.len() && prefill.contains((#[trigger] head[j]).request_id.0);
                assert(prefill.contains(decode[j].request_id.0));
            } else {
                assert(prefill.contains(decode[decode.len() - 1].request_id.0));
            }
        }
        if exists|j: int|
            0 <= j < decode.len() && prefill.contains((#[trigger] decode[j]).request_id.0) {
            let j = choose|j: int|
                0 <= j < decode.len() && prefill.contains((#[trigger] decode[j]).request_id.0);
            if j < head.len() {
                assert(prefill.contains(head[j].request_id.0));
            }
        }
    }
}

} // verus!
