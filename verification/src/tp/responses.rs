//! Collecting and checking what every rank answered.
use vstd::prelude::*;
use vstd::string::*;
use crate::engine::TokenLogprob;
use crate::scheduler::request::RequestId;
use crate::text::{decimal, push_size};
use crate::tp::error::{
    kind_name, kind_text, DropExpectation, PrimaryOperation, ReplyKind, TpError,
};
use crate::tp::gate::{poisoned_by, TpRuntimePoison};
use crate::tp::worker::TpRequestPhase;

verus! {

#[derive(Debug)]
pub struct PrefillRequestResult {
    pub request_id: RequestId,
    pub first_token: u32,
    pub first_token_logprob: Option<TokenLogprob>,
}

#[derive(Debug)]
pub struct PrefillResult {
    pub requests: Vec<PrefillRequestResult>,
}

#[derive(Debug)]
pub struct DecodeRequestResult {
    pub request_id: RequestId,
    pub token: u32,
    pub logprob: Option<TokenLogprob>,
}

#[derive(Debug)]
pub struct DecodeResult {
    pub requests: Vec<DecodeRequestResult>,
}

#[derive(Debug)]
pub struct TpUnifiedResult {
    pub prefill: PrefillResult,
    pub decode: DecodeResult,
}

/// The requests a rank holds, for lifecycle checks.
#[derive(Debug)]
pub struct WorkerStateSnapshot {
    pub rank: usize,
    pub request_count: usize,
    pub requests: Vec<(RequestId, TpRequestPhase)>,
}

#[derive(Debug)]
pub enum TpWorkerReply {
    Ack,
    DropAck { existed: bool },
    Prefill(PrefillResult),
    Decode(DecodeResult),
    Unified(TpUnifiedResult),
    Snapshot(WorkerStateSnapshot),
}

#[derive(Debug)]
pub struct TpWorkerResponse {
    pub rank: usize,
    pub result: Result<TpWorkerReply, String>,
}

pub open spec fn kind_of(reply: TpWorkerReply) -> ReplyKind {
    match reply {
        TpWorkerReply::Ack => ReplyKind::Ack,
        TpWorkerReply::DropAck { .. } => ReplyKind::DropAck,
        TpWorkerReply::Prefill(_) => ReplyKind::Prefill,
        TpWorkerReply::Decode(_) => ReplyKind::Decode,
        TpWorkerReply::Unified(_) => ReplyKind::Unified,
        TpWorkerReply::Snapshot(_) => ReplyKind::Snapshot,
    }
}

pub fn reply_kind(reply: &TpWorkerReply) -> (r: ReplyKind)
    ensures
        r == kind_of(*reply),
{
    match reply {
        TpWorkerReply::Ack => ReplyKind::Ack,
        TpWorkerReply::DropAck { .. } => ReplyKind::DropAck,
        TpWorkerReply::Prefill(_) => ReplyKind::Prefill,
        TpWorkerReply::Decode(_) => ReplyKind::Decode,
        TpWorkerReply::Unified(_) => ReplyKind::Unified,
        TpWorkerReply::Snapshot(_) => ReplyKind::Snapshot,
    }
}

pub fn reply_name(reply: &TpWorkerReply) -> (r: &'static str)
    ensures
        r@ == kind_text(kind_of(*reply)),
{
    kind_name(reply_kind(reply))
}

/// What a rank's failure is recorded as.
pub open spec fn rank_failure_text(
    rank: nat,
    operation: Seq<char>,
    message: Seq<char>,
) -> Seq<char> {
    "rank "@ + decimal(rank) + " failed during "@ + operation + ": "@ + message
}

pub fn rank_failure(rank: usize, operation: &str, message: &str) -> (s: String)
    ensures
        s@ == rank_failure_text(rank as nat, operation@, message@),
{
    let mut s = String::from_str("rank ");
    push_size(&mut s, rank);
    s.append(" failed during ");
    s.append(operation);
    s.append(": ");
    s.append(message);
    s
}

/// Collects the responses of one operation. The first failed rank ends the
/// collection: its peers may be blocked in a collective, so waiting for the rest
/// is neither possible nor useful.
pub struct ResponseCollector {
    expected: usize,
    operation: &'static str,
    collected: Vec<TpWorkerResponse>,
}

impl ResponseCollector {
    pub closed spec fn expected_spec(self) -> nat {
        self.expected as nat
    }

    pub closed spec fn operation_spec(self) -> Seq<char> {
        self.operation@
    }

    pub closed spec fn collected_spec(self) -> Seq<TpWorkerResponse> {
        self.collected@
    }

    pub fn new(expected: usize, operation: &'static str) -> (r: Self)
        ensures
            r.expected_spec() == expected,
            r.operation_spec() == operation@,
            r.collected_spec().len() == 0,
    {
        ResponseCollector { expected, operation, collected: Vec::new() }
    }

    /// Whether another response has to be received.
    pub fn wants_more(&self) -> (r: bool)
        ensures
            r == (self.collected_spec().len() < self.expected_spec()),
    {
        self.collected.len() < self.expected
    }

    /// Takes one response in. A failed one poisons the runtime and ends the
    /// collection with the failure that stands.
    pub fn accept(&mut self, response: TpWorkerResponse, poison: &mut TpRuntimePoison) -> (r:
        Result<(), String>)
        ensures
            final(self).expected_spec() == old(self).expected_spec(),
            final(self).operation_spec() == old(self).operation_spec(),
            match response.result {
                Ok(_) => {
                    &&& r is Ok
                    &&& final(self).collected_spec() == old(self).collected_spec().push(response)
                    &&& final(poison)@ == old(poison)@
                },
                Err(message) => {
                    &&& final(self).collected_spec() == old(self).collected_spec()
                    &&& final(poison)@ == poisoned_by(
                        old(poison)@,
                        rank_failure_text(
                            response.rank as nat,
                            old(self).operation_spec(),
                            message@,
                        ),
                    )
                    &&& r matches Err(reason)
                    &&& final(poison)@ == Some(reason@)
                },
            },
    {
        if let Err(message) = &response.result {
            let reason = poison.poison(
                rank_failure(response.rank, self.operation, message.as_str()),
            );
            return Err(reason);
        }
        self.collected.push(response);
        Ok(())
    }

    pub fn finish(self) -> (r: Vec<TpWorkerResponse>)
        ensures
            r@ == self.collected_spec(),
    {
        self.collected
    }
}

pub open spec fn disconnected_text(operation: Seq<char>) -> Seq<char> {
    "response channel disconnected during "@ + operation
}

/// Records that the response channel went away; returns the failure that stands.
pub fn response_channel_lost(operation: &str, poison: &mut TpRuntimePoison) -> (reason: String)
    ensures
        final(poison)@ == poisoned_by(old(poison)@, disconnected_text(operation@)),
        final(poison)@ == Some(reason@),
{
    let mut s = String::from_str("response channel disconnected during ");
    s.append(operation);
    poison.poison(s)
}

/// Seconds a runtime step may take before the process is aborted.
pub const TP_RUNTIME_STEP_TIMEOUT_SECS: u64 = 300;

/// Seconds the communicator may take to start before the process is aborted.
pub const TP_NCCL_STARTUP_TIMEOUT_SECS: u64 = 60;

/// Seconds a worker may take to leave before the process is aborted.
pub const TP_WORKER_SHUTDOWN_TIMEOUT_SECS: u64 = 30;

/// What is said before the process is aborted over a step that never completed.
pub fn step_timeout_message(operation: &str) -> (s: String)
    ensures
        s@ == "Qwen3.5 TP "@ + operation@ + " did not complete within "@ + decimal(
            TP_RUNTIME_STEP_TIMEOUT_SECS as nat,
        ) + "s"@,
{
    let mut s = String::from_str("Qwen3.5 TP ");
    s.append(operation);
    s.append(" did not complete within ");
    crate::text::push_decimal(&mut s, TP_RUNTIME_STEP_TIMEOUT_SECS);
    s.append("s");
    s
}

pub open spec fn response_set_text(operation: Seq<char>, error: Seq<char>) -> Seq<char> {
    "invalid Qwen3.5 TP "@ + operation + " response set: "@ + error
}

/// A response set that fails its check after a command was dispatched poisons
/// the runtime.
pub fn validate_dispatched_responses<T>(
    result: Result<T, TpError>,
    operation: &str,
    poison: &mut TpRuntimePoison,
) -> (r: Result<T, String>)
    ensures
        match result {
            Ok(value) => r == Ok::<T, String>(value) && final(poison)@ == old(poison)@,
            Err(error) => {
                &&& final(poison)@ == poisoned_by(
                    old(poison)@,
                    response_set_text(operation@, error.text()),
                )
                &&& r matches Err(reason)
                &&& final(poison)@ == Some(reason@)
            },
        },
{
    match result {
        Ok(value) => Ok(value),
        Err(error) => {
            let mut s = String::from_str("invalid Qwen3.5 TP ");
            s.append(operation);
            s.append(" response set: ");
            s.append(error.message().as_str());
            Err(poison.poison(s))
        },
    }
}

/// Whether a response of this rank is among the first ones.
pub open spec fn rank_seen(responses: Seq<TpWorkerResponse>, rank: usize) -> bool {
    exists|j: int| 0 <= j < responses.len() && (#[trigger] responses[j]).rank == rank
}

/// The first thing wrong with a set of responses, in arrival order.
pub open spec fn first_bad(
    responses: Seq<TpWorkerResponse>,
    world_size: usize,
    operation: &'static str,
) -> Option<TpError>
    decreases responses.len(),
{
    if responses.len() == 0 {
        None
    } else {
        let last = responses.last();
        match first_bad(responses.drop_last(), world_size, operation) {
            Some(error) => Some(error),
            None => if last.rank >= world_size {
                Some(TpError::RankOutOfRange { operation, rank: last.rank, world_size })
            } else if rank_seen(responses.drop_last(), last.rank) {
                Some(TpError::DuplicateRank { operation, rank: last.rank })
            } else {
                match last.result {
                    Ok(_) => None,
                    Err(message) => Some(TpError::Worker { message }),
                }
            },
        }
    }
}

/// What is wrong with a set of responses that has to hold every rank once.
pub open spec fn exact_error(
    responses: Seq<TpWorkerResponse>,
    world_size: usize,
    operation: &'static str,
) -> Option<TpError> {
    if responses.len() != world_size {
        Some(
            TpError::ResponseCount {
                operation,
                expected: world_size,
                got: responses.len() as usize,
            },
        )
    } else {
        first_bad(responses, world_size, operation)
    }
}

/// The reply of one rank.
pub open spec fn reply_of(responses: Seq<TpWorkerResponse>, rank: int) -> TpWorkerReply {
    responses[choose|j: int|
        0 <= j < responses.len() && (#[trigger] responses[j]).rank == rank].result->Ok_0
}

/// The replies by rank.
pub open spec fn exact_replies(responses: Seq<TpWorkerResponse>, world_size: usize) -> Seq<
    TpWorkerReply,
> {
    Seq::new(world_size as nat, |rank: int| reply_of(responses, rank))
}

proof fn lemma_first_bad_prefix(
    responses: Seq<TpWorkerResponse>,
    world_size: usize,
    operation: &'static str,
    n: int,
)
    requires
        0 <= n <= responses.len(),
        first_bad(responses.take(n), world_size, operation) is Some,
    ensures
        first_bad(responses, world_size, operation) == first_bad(
            responses.take(n),
            world_size,
            operation,
        ),
    decreases responses.len() - n,
{
    if n == responses.len() {
        assert(responses.take(n) =~= responses);
    } else {
        assert(responses.take(n + 1).drop_last() =~= responses.take(n));
        lemma_first_bad_prefix(responses, world_size, operation, n + 1);
    }
}

/// How many slots are filled.
spec fn filled<T>(slots: Seq<Option<T>>) -> nat
    decreases slots.len(),
{
    if slots.len() == 0 {
        0
    } else {
        filled(slots.drop_last()) + (if slots.last() is Some {
            1nat
        } else {
            0nat
        })
    }
}

proof fn lemma_filled_update<T>(slots: Seq<Option<T>>, i: int, value: T)
    requires
        0 <= i < slots.len(),
        slots[i] is None,
    ensures
        filled(slots.update(i, Some(value))) == filled(slots) + 1,
    decreases slots.len(),
{
    let after = slots.update(i, Some(value));
    if i == slots.len() - 1 {
        assert(after.drop_last() =~= slots.drop_last());
    } else {
        assert(after.drop_last() =~= slots.drop_last().update(i, Some(value)));
        lemma_filled_update(slots.drop_last(), i, value);
    }
}

proof fn lemma_filled_bound<T>(slots: Seq<Option<T>>)
    ensures
        filled(slots) <= slots.len(),
        filled(slots) == slots.len() ==> forall|i: int|
            0 <= i < slots.len() ==> (#[trigger] slots[i]) is Some,
    decreases slots.len(),
{
    if slots.len() > 0 {
        lemma_filled_bound(slots.drop_last());
        if filled(slots) == slots.len() {
            assert forall|i: int| 0 <= i < slots.len() implies (#[trigger] slots[i]) is Some by {
                if i < slots.len() - 1 {
                    assert(slots.drop_last()[i] is Some);
                }
            }
        }
    }
}

fn empty_slots<T>(n: usize) -> (slots: Vec<Option<T>>)
    ensures
        slots@.len() == n,
        forall|i: int| 0 <= i < n ==> (#[trigger] slots@[i]) is None,
        filled(slots@) == 0,
{
    let mut slots: Vec<Option<T>> = Vec::new();
    let mut i: usize = 0;
    while i < n
        invariant
            i <= n,
            slots@.len() == i,
            forall|k: int| 0 <= k < i ==> (#[trigger] slots@[k]) is None,
            filled(slots@) == 0,
        decreases n - i,
    {
        let ghost before = slots@;
        slots.push(None);
        assert(slots@.drop_last() =~= before);
        i = i + 1;
    }
    slots
}

/// Accepts a set of responses that holds every rank exactly once, all of them
/// successful, and returns the replies by rank.
#[verifier::loop_isolation(false)]
pub fn validate_exact_rank_responses(
    responses: Vec<TpWorkerResponse>,
    world_size: usize,
    operation: &'static str,
) -> (r: Result<Vec<TpWorkerReply>, TpError>)
    ensures
        match exact_error(responses@, world_size, operation) {
            Some(error) => r == Err::<Vec<TpWorkerReply>, TpError>(error),
            None => r matches Ok(replies) && replies@ == exact_replies(responses@, world_size),
        },
{
    let ghost all = responses@;
    if responses.len() != world_size {
        return Err(
            TpError::ResponseCount { operation, expected: world_size, got: responses.len() },
        );
    }
    let mut slots: Vec<Option<TpWorkerReply>> = empty_slots(world_size);
    assert(all.take(0) =~= Seq::<TpWorkerResponse>::empty());
    for response in it: responses
        invariant
            it.seq() == all,
            slots@.len() == world_size,
            first_bad(all.take(it.index() as int), world_size, operation) is None,
            filled(slots@) == it.index(),
            forall|k: int|
                0 <= k < world_size ==> ((#[trigger] slots@[k]) is Some <==> rank_seen(
                    all.take(it.index() as int),
                    k as usize,
                )),
            forall|k: int, j: int|
                #![trigger slots@[k], all[j]]
                0 <= k < world_size && 0 <= j < it.index() && all[j].rank == k ==> (slots@[k]
                    matches Some(reply) && all[j].result == Ok::<TpWorkerReply, String>(reply)),
    {
        let ghost done = all.take(it.index() as int);
        let ghost next = all.take(it.index() as int + 1);
        let ghost seen = response;
        let ghost slots_before = slots@;
        proof {
            assert(next.drop_last() =~= done);
            assert(next.last() == seen);
            if first_bad(next, world_size, operation) is Some {
                lemma_first_bad_prefix(all, world_size, operation, it.index() as int + 1);
            }
        }
        let rank: usize = response.rank;
        if rank >= world_size {
            return Err(TpError::RankOutOfRange { operation, rank, world_size });
        }
        if slots[rank].is_some() {
            return Err(TpError::DuplicateRank { operation, rank });
        }
        match response.result {
            Err(message) => {
                return Err(TpError::Worker { message });
            },
            Ok(reply) => {
                slots[rank] = Some(reply);
                proof {
                    lemma_filled_update(slots_before, rank as int, reply);
                    assert forall|k: int| 0 <= k < world_size implies ((#[trigger] slots@[k])
                        is Some <==> rank_seen(next, k as usize)) by {
                        if rank_seen(done, k as usize) {
                            let j = choose|j: int|
                                0 <= j < done.len() && (#[trigger] done[j]).rank == k as usize;
                            assert(next[j].rank == k as usize);
                        }
                        if k == rank {
                            assert(next[it.index() as int].rank == k as usize);
                        } else if rank_seen(next, k as usize) {
                            let j = choose|j: int|
                                0 <= j < next.len() && (#[trigger] next[j]).rank == k as usize;
                            assert(done[j].rank == k as usize);
                        }
                    }
                    assert forall|k: int, j: int|
                        #![trigger slots@[k], all[j]]
                        0 <= k < world_size && 0 <= j < it.index() + 1 && all[j].rank
                            == k implies (slots@[k] matches Some(reply) && all[j].result == Ok::<
                        TpWorkerReply,
                        String,
                    >(reply)) by {
                        if j < it.index() {
                            assert(done[j] == all[j]);
                            assert(rank_seen(done, k as usize));
                            assert(slots_before[k] is Some);
                            assert(k != rank);
                        }
                    }
                }
            },
        }
    }
    assert(all.take(all.len() as int) =~= all);
    proof {
        lemma_filled_bound(slots@);
    }
    let ghost full = slots@;
    let mut replies: Vec<TpWorkerReply> = Vec::new();
    for slot in it: slots
        invariant
            it.seq() == full,
            full.len() == world_size,
            forall|k: int| 0 <= k < full.len() ==> (#[trigger] full[k]) is Some,
            replies@.len() == it.index(),
            forall|k: int| 0 <= k < it.index() ==> full[k] == Some(#[trigger] replies@[k]),
    {
        match slot {
            Some(reply) => {
                replies.push(reply);
            },
            None => {
                assert(full[it.index() as int] is Some);
                assert(false);
            },
        }
    }
    proof {
        assert forall|k: int| 0 <= k < world_size implies #[trigger] replies@[k] == reply_of(
            all,
            k,
        ) by {
            assert(full[k] is Some);
            assert(rank_seen(all, k as usize));
            let j = choose|j: int| 0 <= j < all.len() && (#[trigger] all[j]).rank == k;
            let w = choose|j: int| 0 <= j < all.len() && (#[trigger] all[j]).rank == k as usize;
            assert(0 <= w < all.len() && all[w].rank == k);
            assert(0 <= j < all.len() && all[j].rank == k);
            assert(full[k] matches Some(reply) && all[j].result == Ok::<TpWorkerReply, String>(
                reply,
            ));
        }
        assert(replies@ =~= exact_replies(all, world_size));
    }
    Ok(replies)
}

/// The first rank that did not simply acknowledge.
pub open spec fn ack_error(replies: Seq<TpWorkerReply>, operation: &'static str) -> Option<TpError>
    decreases replies.len(),
{
    if replies.len() == 0 {
        None
    } else {
        match ack_error(replies.drop_last(), operation) {
            Some(error) => Some(error),
            None => if kind_of(replies.last()) != ReplyKind::Ack {
                Some(
                    TpError::NotAck {
                        operation,
                        rank: (replies.len() - 1) as usize,
                        got: kind_of(replies.last()),
                    },
                )
            } else {
                None
            },
        }
    }
}

proof fn lemma_ack_error_prefix(replies: Seq<TpWorkerReply>, operation: &'static str, n: int)
    requires
        0 <= n <= replies.len(),
        ack_error(replies.take(n), operation) is Some,
    ensures
        ack_error(replies, operation) == ack_error(replies.take(n), operation),
    decreases replies.len() - n,
{
    if n == replies.len() {
        assert(replies.take(n) =~= replies);
    } else {
        assert(replies.take(n + 1).drop_last() =~= replies.take(n));
        lemma_ack_error_prefix(replies, operation, n + 1);
    }
}

/// Accepts a set in which every rank acknowledged.
#[verifier::loop_isolation(false)]
pub fn validate_ack_responses(
    responses: Vec<TpWorkerResponse>,
    world_size: usize,
    operation: &'static str,
) -> (r: Result<(), TpError>)
    ensures
        match exact_error(responses@, world_size, operation) {
            Some(error) => r == Err::<(), TpError>(error),
            None => match ack_error(exact_replies(responses@, world_size), operation) {
                Some(error) => r == Err::<(), TpError>(error),
                None => r is Ok,
            },
        },
{
    let replies = match validate_exact_rank_responses(responses, world_size, operation) {
        Ok(replies) => replies,
        Err(error) => {
            return Err(error);
        },
    };
    let mut i: usize = 0;
    assert(replies@.take(0) =~= Seq::<TpWorkerReply>::empty());
    while i < replies.len()
        invariant
            i <= replies.len(),
            ack_error(replies@.take(i as int), operation) is None,
        decreases replies.len() - i,
    {
        proof {
            assert(replies@.take(i as int + 1).drop_last() =~= replies@.take(i as int));
            if ack_error(replies@.take(i as int + 1), operation) is Some {
                lemma_ack_error_prefix(replies@, operation, i as int + 1);
            }
        }
        let got = reply_kind(&replies[i]);
        if got != ReplyKind::Ack {
            return Err(TpError::NotAck { operation, rank: i, got });
        }
        i = i + 1;
    }
    assert(replies@.take(i as int) =~= replies@);
    Ok(())
}

/// The first rank that answered a drop with something else.
pub open spec fn drop_error(replies: Seq<TpWorkerReply>) -> Option<TpError>
    decreases replies.len(),
{
    if replies.len() == 0 {
        None
    } else {
        match drop_error(replies.drop_last()) {
            Some(error) => Some(error),
            None => if kind_of(replies.last()) != ReplyKind::DropAck {
                Some(
                    TpError::NotDropAck {
                        rank: (replies.len() - 1) as usize,
                        got: kind_of(replies.last()),
                    },
                )
            } else {
                None
            },
        }
    }
}

proof fn lemma_drop_error_prefix(replies: Seq<TpWorkerReply>, n: int)
    requires
        0 <= n <= replies.len(),
        drop_error(replies.take(n)) is Some,
    ensures
        drop_error(replies) == drop_error(replies.take(n)),
    decreases replies.len() - n,
{
    if n == replies.len() {
        assert(replies.take(n) =~= replies);
    } else {
        assert(replies.take(n + 1).drop_last() =~= replies.take(n));
        lemma_drop_error_prefix(replies, n + 1);
    }
}

/// Whether each rank held the dropped request.
pub open spec fn existence_of(replies: Seq<TpWorkerReply>) -> Seq<bool> {
    replies.map_values(|reply: TpWorkerReply| reply->existed)
}

/// Every rank held the request exactly when it had to.
pub open spec fn existence_agrees(existence: Seq<bool>, expectation: DropExpectation) -> bool {
    forall|i: int|
        0 <= i < existence.len() ==> (#[trigger] existence[i]) == (expectation
            == DropExpectation::MustExist)
}

/// Accepts a set in which every rank's request lifecycle is the expected one.
#[verifier::loop_isolation(false)]
pub fn validate_drop_responses(
    responses: Vec<TpWorkerResponse>,
    world_size: usize,
    expectation: DropExpectation,
) -> (r: Result<(), TpError>)
    ensures
        ({
            let replies = exact_replies(responses@, world_size);
            match exact_error(responses@, world_size, "drop request") {
                Some(error) => r == Err::<(), TpError>(error),
                None => match drop_error(replies) {
                    Some(error) => r == Err::<(), TpError>(error),
                    None => if existence_agrees(existence_of(replies), expectation) {
                        r is Ok
                    } else {
                        r matches Err(TpError::DropMismatch { expectation: wanted, existence })
                            && wanted == expectation && existence@ == existence_of(replies)
                    },
                },
            }
        }),
{
    let replies = match validate_exact_rank_responses(responses, world_size, "drop request") {
        Ok(replies) => replies,
        Err(error) => {
            return Err(error);
        },
    };
    let expected: bool = expectation == DropExpectation::MustExist;
    let mut existence: Vec<bool> = Vec::new();
    let mut agrees: bool = true;
    let mut i: usize = 0;
    assert(replies@.take(0) =~= Seq::<TpWorkerReply>::empty());
    while i < replies.len()
        invariant
            i <= replies.len(),
            drop_error(replies@.take(i as int)) is None,
            expected == (expectation == DropExpectation::MustExist),
            existence@ == existence_of(replies@.take(i as int)),
            agrees == existence_agrees(existence@, expectation),
        decreases replies.len() - i,
    {
        let ghost before = existence@;
        proof {
            assert(replies@.take(i as int + 1).drop_last() =~= replies@.take(i as int));
            if drop_error(replies@.take(i as int + 1)) is Some {
                lemma_drop_error_prefix(replies@, i as int + 1);
            }
        }
        match &replies[i] {
            TpWorkerReply::DropAck { existed } => {
                existence.push(*existed);
                proof {
                    assert(existence@ =~= existence_of(replies@.take(i as int + 1)));
                    assert(existence@[i as int] == *existed);
                    if agrees && *existed == expected {
                        assert(existence_agrees(existence@, expectation));
                    }
                    if existence_agrees(existence@, expectation) {
                        assert forall|k: int| 0 <= k < before.len() implies (#[trigger] before[k])
                            == (expectation == DropExpectation::MustExist) by {
                            assert(existence@[k] == before[k]);
                        }
                    }
                }
                if *existed != expected {
                    agrees = false;
                }
            },
            other => {
                return Err(TpError::NotDropAck { rank: i, got: reply_kind(other) });
            },
        }
        i = i + 1;
    }
    assert(replies@.take(i as int) =~= replies@);
    if agrees {
        Ok(())
    } else {
        Err(TpError::DropMismatch { expectation, existence })
    }
}

/// The kind of rank 0's reply to an operation.
pub open spec fn primary_kind(operation: PrimaryOperation) -> ReplyKind {
    match operation {
        PrimaryOperation::Prefill => ReplyKind::Prefill,
        PrimaryOperation::Decode => ReplyKind::Decode,
        PrimaryOperation::Unified => ReplyKind::Unified,
    }
}

/// The first rank whose reply is of the wrong kind: rank 0 returns the result,
/// every other rank acknowledges.
pub open spec fn primary_error(
    replies: Seq<TpWorkerReply>,
    operation: PrimaryOperation,
) -> Option<TpError>
    decreases replies.len(),
{
    if replies.len() == 0 {
        None
    } else {
        let got = kind_of(replies.last());
        match primary_error(replies.drop_last(), operation) {
            Some(error) => Some(error),
            None => if replies.len() == 1 {
                if got != primary_kind(operation) {
                    Some(TpError::NotPrimary { operation, got })
                } else {
                    None
                }
            } else if got != ReplyKind::Ack {
                Some(
                    TpError::NonPrimary { operation, rank: (replies.len() - 1) as usize, got },
                )
            } else {
                None
            },
        }
    }
}

proof fn lemma_primary_error_prefix(
    replies: Seq<TpWorkerReply>,
    operation: PrimaryOperation,
    n: int,
)
    requires
        0 <= n <= replies.len(),
        primary_error(replies.take(n), operation) is Some,
    ensures
        primary_error(replies, operation) == primary_error(replies.take(n), operation),
    decreases replies.len() - n,
{
    if n == replies.len() {
        assert(replies.take(n) =~= replies);
    } else {
        assert(replies.take(n + 1).drop_last() =~= replies.take(n));
        lemma_primary_error_prefix(replies, operation, n + 1);
    }
}

proof fn lemma_primary_kind(replies: Seq<TpWorkerReply>, operation: PrimaryOperation)
    requires
        replies.len() > 0,
        primary_error(replies, operation) is None,
    ensures
        kind_of(replies[0]) == primary_kind(operation),
    decreases replies.len(),
{
    if replies.len() > 1 {
        lemma_primary_kind(replies.drop_last(), operation);
    }
}

/// What a set of responses to an operation with a primary result comes to.
pub open spec fn primary_outcome(
    responses: Seq<TpWorkerResponse>,
    world_size: usize,
    operation: PrimaryOperation,
    name: &'static str,
) -> Result<TpWorkerReply, TpError> {
    let replies = exact_replies(responses, world_size);
    match exact_error(responses, world_size, name) {
        Some(error) => Err(error),
        None => match primary_error(replies, operation) {
            Some(error) => Err(error),
            None => if world_size == 0 {
                Err(TpError::NoPrimary { operation })
            } else {
                Ok(replies[0])
            },
        },
    }
}

#[verifier::loop_isolation(false)]
fn primary_reply(
    responses: Vec<TpWorkerResponse>,
    world_size: usize,
    operation: PrimaryOperation,
    name: &'static str,
) -> (r: Result<TpWorkerReply, TpError>)
    ensures
        r == primary_outcome(responses@, world_size, operation, name),
        r matches Ok(reply) ==> kind_of(reply) == primary_kind(operation),
{
    let replies = match validate_exact_rank_responses(responses, world_size, name) {
        Ok(replies) => replies,
        Err(error) => {
            return Err(error);
        },
    };
    let wanted = match operation {
        PrimaryOperation::Prefill => ReplyKind::Prefill,
        PrimaryOperation::Decode => ReplyKind::Decode,
        PrimaryOperation::Unified => ReplyKind::Unified,
    };
    let mut i: usize = 0;
    assert(replies@.take(0) =~= Seq::<TpWorkerReply>::empty());
    while i < replies.len()
        invariant
            i <= replies.len(),
            wanted == primary_kind(operation),
            primary_error(replies@.take(i as int), operation) is None,
        decreases replies.len() - i,
    {
        proof {
            assert(replies@.take(i as int + 1).drop_last() =~= replies@.take(i as int));
            if primary_error(replies@.take(i as int + 1), operation) is Some {
                lemma_primary_error_prefix(replies@, operation, i as int + 1);
            }
        }
        let got = reply_kind(&replies[i]);
        if i == 0 {
            if got != wanted {
                return Err(TpError::NotPrimary { operation, got });
            }
        } else if got != ReplyKind::Ack {
            return Err(TpError::NonPrimary { operation, rank: i, got });
        }
        i = i + 1;
    }
    assert(replies@.take(i as int) =~= replies@);
    let mut replies = replies;
    if replies.is_empty() {
        return Err(TpError::NoPrimary { operation });
    }
    proof {
        lemma_primary_kind(replies@, operation);
    }
    Ok(replies.swap_remove(0))
}

/// Accepts a prefill in which rank 0 returned the result and every other rank
/// acknowledged.
pub fn validate_prefill_responses(
    responses: Vec<TpWorkerResponse>,
    world_size: usize,
) -> (r: Result<PrefillResult, TpError>)
    ensures
        match primary_outcome(responses@, world_size, PrimaryOperation::Prefill, "prefill") {
            Ok(reply) => r matches Ok(result) && reply == TpWorkerReply::Prefill(result),
            Err(error) => r == Err::<PrefillResult, TpError>(error),
        },
{
    match primary_reply(responses, world_size, PrimaryOperation::Prefill, "prefill") {
        Ok(TpWorkerReply::Prefill(result)) => Ok(result),
        Ok(_) => Err(TpError::NoPrimary { operation: PrimaryOperation::Prefill }),
        Err(error) => Err(error),
    }
}

/// Accepts a decode in which rank 0 returned the result and every other rank
/// acknowledged.
pub fn validate_decode_responses(
    responses: Vec<TpWorkerResponse>,
    world_size: usize,
) -> (r: Result<DecodeResult, TpError>)
    ensures
        match primary_outcome(responses@, world_size, PrimaryOperation::Decode, "decode") {
            Ok(reply) => r matches Ok(result) && reply == TpWorkerReply::Decode(result),
            Err(error) => r == Err::<DecodeResult, TpError>(error),
        },
{
    match primary_reply(responses, world_size, PrimaryOperation::Decode, "decode") {
        Ok(TpWorkerReply::Decode(result)) => Ok(result),
        Ok(_) => Err(TpError::NoPrimary { operation: PrimaryOperation::Decode }),
        Err(error) => Err(error),
    }
}

/// Accepts a unified step in which rank 0 returned the result and every other
/// rank acknowledged.
pub fn validate_unified_responses(
    responses: Vec<TpWorkerResponse>,
    world_size: usize,
) -> (r: Result<TpUnifiedResult, TpError>)
    ensures
        match primary_outcome(responses@, world_size, PrimaryOperation::Unified, "unified step") {
            Ok(reply) => r matches Ok(result) && reply == TpWorkerReply::Unified(result),
            Err(error) => r == Err::<TpUnifiedResult, TpError>(error),
        },
{
    match primary_reply(responses, world_size, PrimaryOperation::Unified, "unified step") {
        Ok(TpWorkerReply::Unified(result)) => Ok(result),
        Ok(_) => Err(TpError::NoPrimary { operation: PrimaryOperation::Unified }),
        Err(error) => Err(error),
    }
}

/// The first thing wrong with a set of snapshots, in arrival order.
pub open spec fn snapshot_error(
    responses: Seq<TpWorkerResponse>,
    world_size: usize,
) -> Option<TpError>
    decreases responses.len(),
{
    if responses.len() == 0 {
        None
    } else {
        let last = responses.last();
        match snapshot_error(responses.drop_last(), world_size) {
            Some(error) => Some(error),
            None => if last.rank >= world_size {
                Some(TpError::SnapshotRankOutOfRange { rank: last.rank, world_size })
            } else if rank_seen(responses.drop_last(), last.rank) {
                Some(TpError::SnapshotDuplicateRank { rank: last.rank })
            } else {
                match last.result {
                    Err(message) => Some(TpError::Worker { message }),
                    Ok(TpWorkerReply::Snapshot(snapshot)) => if snapshot.rank != last.rank {
                        Some(
                            TpError::SnapshotPayloadRank { payload: snapshot.rank, rank: last.rank },
                        )
                    } else if snapshot.request_count != snapshot.requests@.len() {
                        Some(
                            TpError::SnapshotCount {
                                rank: snapshot.rank,
                                count: snapshot.request_count,
                                entries: snapshot.requests@.len() as usize,
                            },
                        )
                    } else {
                        None
                    },
                    Ok(reply) => Some(TpError::SnapshotUnexpected { got: kind_of(reply) }),
                }
            },
        }
    }
}

proof fn lemma_snapshot_error_prefix(
    responses: Seq<TpWorkerResponse>,
    world_size: usize,
    n: int,
)
    requires
        0 <= n <= responses.len(),
        snapshot_error(responses.take(n), world_size) is Some,
    ensures
        snapshot_error(responses, world_size) == snapshot_error(responses.take(n), world_size),
    decreases responses.len() - n,
{
    if n == responses.len() {
        assert(responses.take(n) =~= responses);
    } else {
        assert(responses.take(n + 1).drop_last() =~= responses.take(n));
        lemma_snapshot_error_prefix(responses, world_size, n + 1);
    }
}

/// Accepts one consistent snapshot of every rank and returns them by rank.
#[verifier::loop_isolation(false)]
pub fn collect_worker_snapshots(responses: Vec<TpWorkerResponse>, world_size: usize) -> (r: Result<
    Vec<WorkerStateSnapshot>,
    TpError,
>)
    requires
        responses@.len() == world_size,
    ensures
        match snapshot_error(responses@, world_size) {
            Some(error) => r == Err::<Vec<WorkerStateSnapshot>, TpError>(error),
            None => {
                &&& r matches Ok(snapshots)
                &&& snapshots@.len() == world_size
                &&& forall|i: int|
                    0 <= i < world_size ==> (#[trigger] snapshots@[i]).rank == i
                        && reply_of(responses@, i) == TpWorkerReply::Snapshot(snapshots@[i])
            },
        },
{
    let ghost all = responses@;
    let mut slots: Vec<Option<WorkerStateSnapshot>> = empty_slots(world_size);
    assert(all.take(0) =~= Seq::<TpWorkerResponse>::empty());
    for response in it: responses
        invariant
            it.seq() == all,
            slots@.len() == world_size,
            snapshot_error(all.take(it.index() as int), world_size) is None,
            filled(slots@) == it.index(),
            forall|k: int|
                0 <= k < world_size ==> ((#[trigger] slots@[k]) is Some <==> rank_seen(
                    all.take(it.index() as int),
                    k as usize,
                )),
            forall|k: int, j: int|
                #![trigger slots@[k], all[j]]
                0 <= k < world_size && 0 <= j < it.index() && all[j].rank == k ==> (slots@[k]
                    matches Some(snapshot) && snapshot.rank == k && all[j].result == Ok::<
                    TpWorkerReply,
                    String,
                >(TpWorkerReply::Snapshot(snapshot))),
    {
        let ghost done = all.take(it.index() as int);
        let ghost next = all.take(it.index() as int + 1);
        let ghost seen = response;
        let ghost slots_before = slots@;
        proof {
            assert(next.drop_last() =~= done);
            assert(next.last() == seen);
            if snapshot_error(next, world_size) is Some {
                lemma_snapshot_error_prefix(all, world_size, it.index() as int + 1);
            }
        }
        let rank: usize = response.rank;
        if rank >= world_size {
            return Err(TpError::SnapshotRankOutOfRange { rank, world_size });
        }
        if slots[rank].is_some() {
            return Err(TpError::SnapshotDuplicateRank { rank });
        }
        match response.result {
            Err(message) => {
                return Err(TpError::Worker { message });
            },
            Ok(TpWorkerReply::Snapshot(snapshot)) => {
                if snapshot.rank != rank {
                    return Err(TpError::SnapshotPayloadRank { payload: snapshot.rank, rank });
                }
                if snapshot.request_count != snapshot.requests.len() {
                    return Err(
                        TpError::SnapshotCount {
                            rank: snapshot.rank,
                            count: snapshot.request_count,
                            entries: snapshot.requests.len(),
                        },
                    );
                }
                slots[rank] = Some(snapshot);
                proof {
                    lemma_filled_update(slots_before, rank as int, snapshot);
                    assert forall|k: int| 0 <= k < world_size implies ((#[trigger] slots@[k])
                        is Some <==> rank_seen(next, k as usize)) by {
                        if rank_seen(done, k as usize) {
                            let j = choose|j: int|
                                0 <= j < done.len() && (#[trigger] done[j]).rank == k as usize;
                            assert(next[j].rank == k as usize);
                        }
                        if k == rank {
                            assert(next[it.index() as int].rank == k as usize);
                        } else if rank_seen(next, k as usize) {
                            let j = choose|j: int|
                                0 <= j < next.len() && (#[trigger] next[j]).rank == k as usize;
                            assert(done[j].rank == k as usize);
                        }
                    }
                    assert forall|k: int, j: int|
                        #![trigger slots@[k], all[j]]
                        0 <= k < world_size && 0 <= j < it.index() + 1 && all[j].rank
                            == k implies (slots@[k] matches Some(snapshot) && snapshot.rank == k
                        && all[j].result == Ok::<TpWorkerReply, String>(
                        TpWorkerReply::Snapshot(snapshot),
                    )) by {
                        if j < it.index() {
                            assert(done[j] == all[j]);
                            assert(rank_seen(done, k as usize));
                            assert(slots_before[k] is Some);
                            assert(k != rank);
                        }
                    }
                }
            },
            Ok(reply) => {
                return Err(TpError::SnapshotUnexpected { got: reply_kind(&reply) });
            },
        }
    }
    assert(all.take(all.len() as int) =~= all);
    proof {
        lemma_filled_bound(slots@);
    }
    let ghost full = slots@;
    let mut snapshots: Vec<WorkerStateSnapshot> = Vec::new();
    for slot in it: slots
        invariant
            it.seq() == full,
            full.len() == world_size,
            forall|k: int| 0 <= k < full.len() ==> (#[trigger] full[k]) is Some,
            snapshots@.len() == it.index(),
            forall|k: int| 0 <= k < it.index() ==> full[k] == Some(#[trigger] snapshots@[k]),
    {
        match slot {
            Some(snapshot) => {
                snapshots.push(snapshot);
            },
            None => {
                assert(full[it.index() as int] is Some);
                assert(false);
            },
        }
    }
    proof {
        assert forall|k: int| 0 <= k < world_size implies (#[trigger] snapshots@[k]).rank == k
            && reply_of(all, k) == TpWorkerReply::Snapshot(snapshots@[k]) by {
            assert(full[k] is Some);
            assert(rank_seen(all, k as usize));
            let w = choose|j: int| 0 <= j < all.len() && (#[trigger] all[j]).rank == k as usize;
            assert(0 <= w < all.len() && all[w].rank == k);
            let j = choose|j: int| 0 <= j < all.len() && (#[trigger] all[j]).rank == k;
            assert(0 <= j < all.len() && all[j].rank == k);
            assert(full[k] matches Some(snapshot) && all[j].result == Ok::<TpWorkerReply, String>(
                TpWorkerReply::Snapshot(snapshot),
            ));
        }
    }
    Ok(snapshots)
}

/// Every rank of a runtime answered once, and none of them failed.
pub open spec fn all_ranks_answered(responses: Seq<TpWorkerResponse>, world_size: usize) -> bool {
    &&& responses.len() == world_size
    &&& sound_answers(responses, world_size)
}

/// Answers of different ranks of a runtime, none of them a failure.
pub open spec fn sound_answers(responses: Seq<TpWorkerResponse>, world_size: usize) -> bool {
    &&& forall|i: int|
        0 <= i < responses.len() ==> (#[trigger] responses[i]).rank < world_size
            && responses[i].result is Ok
    &&& forall|i: int, j: int|
        0 <= i < j < responses.len() ==> (#[trigger] responses[i]).rank != (
        #[trigger] responses[j]).rank
}

proof fn lemma_sound_prefix(responses: Seq<TpWorkerResponse>, world_size: usize)
    requires
        responses.len() > 0,
    ensures
        sound_answers(responses, world_size) <==> sound_answers(responses.drop_last(), world_size)
            && responses.last().rank < world_size && responses.last().result is Ok && !rank_seen(
            responses.drop_last(),
            responses.last().rank,
        ),
{
    let head = responses.drop_last();
    let n = responses.len() - 1;
    assert forall|i: int| 0 <= i < n implies head[i] == #[trigger] responses[i] by {}
    assert(responses[n] == responses.last());
    if sound_answers(responses, world_size) {
        assert forall|i: int, j: int| 0 <= i < j < head.len() implies (#[trigger] head[i]).rank != (
        #[trigger] head[j]).rank by {
            assert(responses[i].rank != responses[j].rank);
        }
        assert forall|i: int| 0 <= i < head.len() implies (#[trigger] head[i]).rank < world_size
            && head[i].result is Ok by {
            assert(responses[i].rank < world_size);
        }
        if rank_seen(head, responses.last().rank) {
            let j = choose|j: int|
                0 <= j < head.len() && (#[trigger] head[j]).rank == responses.last().rank;
            assert(responses[j].rank != responses[n].rank);
        }
    }
    if sound_answers(head, world_size) && responses.last().rank < world_size
        && responses.last().result is Ok && !rank_seen(head, responses.last().rank) {
        assert forall|i: int, j: int| 0 <= i < j < responses.len() implies (
        #[trigger] responses[i]).rank != (#[trigger] responses[j]).rank by {
            assert(head[i] == responses[i]);
            if j < n {
                assert(head[j] == responses[j]);
            }
        }
        assert forall|i: int| 0 <= i < responses.len() implies (#[trigger] responses[i]).rank
            < world_size && responses[i].result is Ok by {
            if i < n {
                assert(head[i].rank < world_size);
            }
        }
    }
}

proof fn lemma_first_bad_verdict(
    responses: Seq<TpWorkerResponse>,
    world_size: usize,
    operation: &'static str,
)
    ensures
        first_bad(responses, world_size, operation) is None <==> sound_answers(
            responses,
            world_size,
        ),
    decreases responses.len(),
{
    if responses.len() > 0 {
        lemma_first_bad_verdict(responses.drop_last(), world_size, operation);
        lemma_sound_prefix(responses, world_size);
    }
}

/// A set of responses is accepted exactly when every rank answered once and none failed,
/// in whatever order they came. Then each rank's reply is the one that it sent.
pub proof fn lemma_responses_verdict(
    responses: Seq<TpWorkerResponse>,
    world_size: usize,
    operation: &'static str,
)
    ensures
        exact_error(responses, world_size, operation) is None <==> all_ranks_answered(
            responses,
            world_size,
        ),
        all_ranks_answered(responses, world_size) ==> exact_replies(responses, world_size).len()
            == world_size && forall|j: int|
            0 <= j < responses.len() ==> responses[j].result == Ok::<TpWorkerReply, String>(
                exact_replies(responses, world_size)[(#[trigger] responses[j]).rank as int],
            ),
{
    lemma_first_bad_verdict(responses, world_size, operation);
    if all_ranks_answered(responses, world_size) {
        assert forall|j: int| 0 <= j < responses.len() implies responses[j].result == Ok::<
            TpWorkerReply,
            String,
        >(exact_replies(responses, world_size)[(#[trigger] responses[j]).rank as int]) by {
            let rank = responses[j].rank as int;
            let k = choose|k: int| 0 <= k < responses.len() && (#[trigger] responses[k]).rank == rank;
            assert(0 <= k < responses.len() && responses[k].rank == rank);
            if k < j {
                assert(responses[k].rank != responses[j].rank);
            } else if j < k {
                assert(responses[j].rank != responses[k].rank);
            }
        }
    }
}

/// Acknowledgements are accepted exactly when every reply is one.
pub proof fn lemma_ack_verdict(replies: Seq<TpWorkerReply>, operation: &'static str)
    ensures
        ack_error(replies, operation) is None <==> forall|i: int|
            0 <= i < replies.len() ==> (#[trigger] replies[i]) is Ack,
    decreases replies.len(),
{
    if replies.len() > 0 {
        let head = replies.drop_last();
        let n = replies.len() - 1;
        lemma_ack_verdict(head, operation);
        assert forall|i: int| 0 <= i < n implies head[i] == #[trigger] replies[i] by {}
        assert(replies[n] == replies.last());
        if ack_error(head, operation) is Some {
            let i = choose|i: int| 0 <= i < head.len() && !((#[trigger] head[i]) is Ack);
            assert(!(replies[i] is Ack));
        }
    }
}

/// The replies to a drop are accepted exactly when every one says whether the request
/// was there.
pub proof fn lemma_drop_verdict(replies: Seq<TpWorkerReply>)
    ensures
        drop_error(replies) is None <==> forall|i: int|
            0 <= i < replies.len() ==> (#[trigger] replies[i]) is DropAck,
    decreases replies.len(),
{
    if replies.len() > 0 {
        let head = replies.drop_last();
        let n = replies.len() - 1;
        lemma_drop_verdict(head);
        assert forall|i: int| 0 <= i < n implies head[i] == #[trigger] replies[i] by {}
        assert(replies[n] == replies.last());
        if drop_error(head) is Some {
            let i = choose|i: int| 0 <= i < head.len() && !((#[trigger] head[i]) is DropAck);
            assert(!(replies[i] is DropAck));
        }
    }
}

/// A reply carries the result of the operation.
pub open spec fn answers_operation(reply: TpWorkerReply, operation: PrimaryOperation) -> bool {
    match operation {
        PrimaryOperation::Prefill => reply is Prefill,
        PrimaryOperation::Decode => reply is Decode,
        PrimaryOperation::Unified => reply is Unified,
    }
}

/// The replies to an operation are accepted exactly when the first rank's carries the
/// operation's result and every other rank's is an acknowledgement.
pub proof fn lemma_primary_verdict(replies: Seq<TpWorkerReply>, operation: PrimaryOperation)
    ensures
        primary_error(replies, operation) is None <==> {
            &&& replies.len() > 0 ==> answers_operation(replies[0], operation)
            &&& forall|i: int| 1 <= i < replies.len() ==> (#[trigger] replies[i]) is Ack
        },
    decreases replies.len(),
{
    if replies.len() > 0 {
        let head = replies.drop_last();
        let n = replies.len() - 1;
        lemma_primary_verdict(head, operation);
        assert forall|i: int| 0 <= i < n implies head[i] == #[trigger] replies[i] by {}
        assert(replies[n] == replies.last());
        if primary_error(head, operation) is Some {
            if answers_operation(head[0], operation) {
                let i = choose|i: int| 1 <= i < head.len() && !((#[trigger] head[i]) is Ack);
                assert(!(replies[i] is Ack));
            }
        }
    }
}

/// An operation succeeds exactly when every rank answered once without a failure, the
/// first rank with the operation's result and the others with an acknowledgement. What
/// it returns is then what the first rank sent.
pub proof fn lemma_operation_returns_the_first_ranks_result(
    responses: Seq<TpWorkerResponse>,
    world_size: usize,
    operation: PrimaryOperation,
    name: &'static str,
)
    ensures
        ({
            let outcome = primary_outcome(responses, world_size, operation, name);
            &&& outcome is Ok <==> {
                &&& world_size > 0
                &&& all_ranks_answered(responses, world_size)
                &&& forall|j: int|
                    0 <= j < responses.len() ==> if (#[trigger] responses[j]).rank == 0 {
                        answers_operation(responses[j].result->Ok_0, operation)
                    } else {
                        responses[j].result->Ok_0 is Ack
                    }
            }
            &&& outcome matches Ok(reply) ==> exists|j: int|
                0 <= j < responses.len() && (#[trigger] responses[j]).rank == 0
                    && responses[j].result == Ok::<TpWorkerReply, String>(reply)
        }),
{
    let replies = exact_replies(responses, world_size);
    lemma_responses_verdict(responses, world_size, name);
    lemma_primary_verdict(replies, operation);
    if all_ranks_answered(responses, world_size) {
        lemma_every_rank_seen(responses, world_size);
        assert forall|rank: int| 0 <= rank < world_size implies exists|j: int|
            0 <= j < responses.len() && (#[trigger] responses[j]).rank == rank
                && responses[j].result == Ok::<TpWorkerReply, String>(#[trigger] replies[rank]) by {
            assert(rank_seen(responses, rank as usize));
            let j = choose|j: int|
                0 <= j < responses.len() && (#[trigger] responses[j]).rank == rank as usize;
            assert(responses[j].rank == rank);
        }
        if world_size > 0 {
            let first = replies[0];
        }
        if primary_error(replies, operation) is None {
            assert forall|j: int| 0 <= j < responses.len() implies if (
            #[trigger] responses[j]).rank == 0 {
                answers_operation(responses[j].result->Ok_0, operation)
            } else {
                responses[j].result->Ok_0 is Ack
            } by {
                assert(responses[j].result == Ok::<TpWorkerReply, String>(
                    replies[responses[j].rank as int],
                ));
            }
        } else if world_size > 0 {
            if answers_operation(replies[0], operation) {
                let i = choose|i: int| 1 <= i < replies.len() && !((#[trigger] replies[i]) is Ack);
                let j = choose|j: int|
                    0 <= j < responses.len() && (#[trigger] responses[j]).rank == i
                        && responses[j].result == Ok::<TpWorkerReply, String>(replies[i]);
                assert(responses[j].rank != 0);
            } else {
                let j = choose|j: int|
                    0 <= j < responses.len() && (#[trigger] responses[j]).rank == 0
                        && responses[j].result == Ok::<TpWorkerReply, String>(replies[0]);
                assert(responses[j].rank == 0);
            }
        }
    }
}

/// As many answers of different ranks as there are ranks leave none out.
proof fn lemma_every_rank_seen(responses: Seq<TpWorkerResponse>, world_size: usize)
    requires
        all_ranks_answered(responses, world_size),
    ensures
        forall|rank: int|
            0 <= rank < world_size ==> #[trigger] rank_seen(responses, rank as usize),
{
    let ranks = responses.map_values(|r: TpWorkerResponse| r.rank as int);
    let all = vstd::set_lib::set_int_range(0, world_size as int);
    vstd::set_lib::lemma_int_range(0, world_size as int);
    assert(ranks.no_duplicates()) by {
        assert forall|i: int, j: int|
            0 <= i < ranks.len() && 0 <= j < ranks.len() && i != j implies ranks[i]
            != ranks[j] by {
            if i < j {
                assert(responses[i].rank != responses[j].rank);
            } else {
                assert(responses[j].rank != responses[i].rank);
            }
        }
    }
    ranks.unique_seq_to_set();
    assert(ranks.to_set().subset_of(all)) by {
        assert forall|x: int| ranks.to_set().contains(x) implies all.contains(x) by {
            let i = choose|i: int| 0 <= i < ranks.len() && ranks[i] == x;
            assert(responses[i].rank < world_size);
        }
    }
    vstd::set_lib::lemma_subset_equality(ranks.to_set(), all);
    assert forall|rank: int| 0 <= rank < world_size implies #[trigger] rank_seen(
        responses,
        rank as usize,
    ) by {
        assert(ranks.to_set().contains(rank));
        let i = choose|i: int| 0 <= i < ranks.len() && ranks[i] == rank;
        assert(responses[i].rank == rank as usize);
    }
}

/// Snapshots are accepted exactly when every answer is a snapshot of the rank that sent
/// it, with as many entries as it counts, and no rank sent two.
pub proof fn lemma_snapshot_verdict(responses: Seq<TpWorkerResponse>, world_size: usize)
    ensures
        snapshot_error(responses, world_size) is None <==> sound_answers(responses, world_size)
            && forall|i: int|
            0 <= i < responses.len() ==> ((#[trigger] responses[i]).result matches Ok(
                TpWorkerReply::Snapshot(snapshot),
            ) && snapshot.rank == responses[i].rank && snapshot.request_count
                == snapshot.requests@.len()),
    decreases responses.len(),
{
    if responses.len() > 0 {
        let head = responses.drop_last();
        let n = responses.len() - 1;
        lemma_snapshot_verdict(head, world_size);
        lemma_sound_prefix(responses, world_size);
        assert forall|i: int| 0 <= i < n implies head[i] == #[trigger] responses[i] by {}
        assert(responses[n] == responses.last());
        if snapshot_error(head, world_size) is Some && sound_answers(head, world_size) {
            let i = choose|i: int|
                0 <= i < head.len() && !((#[trigger] head[i]).result matches Ok(
                    TpWorkerReply::Snapshot(snapshot),
                ) && snapshot.rank == head[i].rank && snapshot.request_count
                    == snapshot.requests@.len());
            assert(head[i] == responses[i]);
        }
    }
}

/// Where replies are not accepted, the first rank at fault is named, with what it sent.
pub proof fn lemma_first_rank_at_fault_is_named(
    replies: Seq<TpWorkerReply>,
    name: &'static str,
    operation: PrimaryOperation,
    i: int,
)
    requires
        0 <= i < replies.len() <= usize::MAX,
    ensures
        !(replies[i] is Ack) && (forall|k: int| 0 <= k < i ==> (#[trigger] replies[k]) is Ack)
            ==> ack_error(replies, name) == Some(
            TpError::NotAck { operation: name, rank: i as usize, got: kind_of(replies[i]) },
        ),
        !(replies[i] is DropAck) && (forall|k: int|
            0 <= k < i ==> (#[trigger] replies[k]) is DropAck) ==> drop_error(replies) == Some(
            TpError::NotDropAck { rank: i as usize, got: kind_of(replies[i]) },
        ),
        !answers_operation(replies[0], operation) ==> primary_error(replies, operation) == Some(
            TpError::NotPrimary { operation, got: kind_of(replies[0]) },
        ),
        i > 0 && answers_operation(replies[0], operation) && !(replies[i] is Ack) && (forall|k: int|
            1 <= k < i ==> (#[trigger] replies[k]) is Ack) ==> primary_error(replies, operation)
            == Some(
            TpError::NonPrimary { operation, rank: i as usize, got: kind_of(replies[i]) },
        ),
    decreases replies.len(),
{
    let head = replies.drop_last();
    let n = replies.len() - 1;
    assert(replies[n] == replies.last());
    assert forall|k: int| 0 <= k < n implies head[k] == #[trigger] replies[k] by {}
    lemma_ack_verdict(head, name);
    lemma_drop_verdict(head);
    lemma_primary_verdict(head, operation);
    if i < n {
        lemma_first_rank_at_fault_is_named(head, name, operation, i);
    } else if n > 0 {
        lemma_first_rank_at_fault_is_named(head, name, operation, 0);
    }
}

/// A drop is agreed on exactly when all ranks held a request that had to exist, and none
/// held one that had to be absent.
pub proof fn lemma_drop_agreement(replies: Seq<TpWorkerReply>)
    requires
        forall|i: int| 0 <= i < replies.len() ==> (#[trigger] replies[i]) is DropAck,
    ensures
        existence_agrees(existence_of(replies), DropExpectation::MustExist) <==> forall|i: int|
            0 <= i < replies.len() ==> (#[trigger] replies[i])->existed,
        existence_agrees(existence_of(replies), DropExpectation::MustBeAbsent) <==> forall|i: int|
            0 <= i < replies.len() ==> !(#[trigger] replies[i])->existed,
{
    let existence = existence_of(replies);
    assert forall|i: int| 0 <= i < replies.len() implies existence[i] == (
    #[trigger] replies[i])->existed by {}
    if existence_agrees(existence, DropExpectation::MustExist) {
        assert forall|i: int| 0 <= i < replies.len() implies (#[trigger] replies[i])->existed by {
            assert(existence[i]);
        }
    }
    if existence_agrees(existence, DropExpectation::MustBeAbsent) {
        assert forall|i: int| 0 <= i < replies.len() implies !(#[trigger] replies[i])->existed by {
            assert(!existence[i]);
        }
    }
    if forall|i: int| 0 <= i < replies.len() ==> (#[trigger] replies[i])->existed {
        assert forall|i: int| 0 <= i < existence.len() implies #[trigger] existence[i] by {
            assert(replies[i]->existed);
        }
    }
    if forall|i: int| 0 <= i < replies.len() ==> !(#[trigger] replies[i])->existed {
        assert forall|i: int| 0 <= i < existence.len() implies !(#[trigger] existence[i]) by {
            assert(!replies[i]->existed);
        }
    }
}

} // verus!
