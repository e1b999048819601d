//! The decisions of one scheduler iteration: what to wait for, what to admit,
//! what to run, and what to do with the outcome. The driver owns the channels
//! and the executor; it reports what happened and performs what is decided here.
use std::collections::{HashMap, VecDeque};
use std::sync::atomic::AtomicU8;
use std::sync::Arc;
use vstd::prelude::*;
use vstd::string::*;
use crate::engine::{
    EngineCommand, EngineControlRequest, GenerateRequest, RequestTag, TokenEvent, TokenSink,
    TokenStreamSender,
};
use crate::scheduler::admission::{
    active_growth_total, admit_all, admit_deferred_requests, free_budget, free_slots,
    lemma_admission_partitions_requests, pending_growth_total, rejected_requests, ExecutorLimits,
    RejectReason,
};
use crate::scheduler::phase_trace::{queued, PhaseTracker};
use crate::scheduler::prefetch::{
    adapter_known, kept_of, lemma_offered_at_most_once, offer_prefetch, promote_all, promote_ready,
    reject_unknown_lora_requests, started_of,
};
use crate::scheduler::prefill::{
    left_of, lemma_step_keeps_every_request, lemma_step_makes_progress, stable_sort_of,
    take_prefill_chunks, taken_of, with_id, without_chunks,
};
use crate::scheduler::request::{admit_new_request, ActiveRequestState, PendingRequest, RequestId};

verus! {

/// What the executor runs next.
pub enum ExecutionPlan {
    Prefill { pending: Vec<PendingRequest> },
    Decode,
    SpeculativeDecode,
    Unified { pending: Vec<PendingRequest> },
}

/// A chosen plan, or the inputs of the executor's own plan builder.
pub enum PlanChoice {
    Run(ExecutionPlan),
    Build { has_active: bool, pending: Vec<PendingRequest> },
}

/// Choose the step plan, preferring a speculative-decode step when the whole
/// active batch is draft-ready. Prefill of new arrivals still takes priority: a
/// speculative step only runs when there is nothing to prefill, so the two never
/// mix in one step.
pub fn runtime_plan(
    should_speculate: bool,
    has_active: bool,
    pending: Vec<PendingRequest>,
) -> (r: PlanChoice)
    ensures
        should_speculate && pending@.len() == 0 ==> r == PlanChoice::Run(
            ExecutionPlan::SpeculativeDecode,
        ),
        should_speculate && pending@.len() > 0 ==> r == PlanChoice::Run(
            ExecutionPlan::Prefill { pending },
        ),
        !should_speculate ==> r == (PlanChoice::Build { has_active, pending }),
{
    if should_speculate {
        if pending.is_empty() {
            PlanChoice::Run(ExecutionPlan::SpeculativeDecode)
        } else {
            PlanChoice::Run(ExecutionPlan::Prefill { pending })
        }
    } else {
        PlanChoice::Build { has_active, pending }
    }
}

/// A request that a failing step takes down with it.
pub struct RequestFailureTarget {
    pub request_id: RequestId,
    pub token_tx: TokenSink,
    pub prompt_tokens: usize,
    pub completion_tokens: usize,
}

/// What a failure target says of its request, and where its answer goes.
pub struct FailureNotice {
    pub request_id: RequestId,
    pub tag: RequestTag,
    pub stream: TokenStreamSender,
    pub cell: Arc<AtomicU8>,
    pub prompt_tokens: nat,
    pub completion_tokens: nat,
}

impl RequestFailureTarget {
    pub open spec fn notice(self) -> FailureNotice {
        FailureNotice {
            request_id: self.request_id,
            tag: self.token_tx.tag_spec(),
            stream: self.token_tx.stream_spec(),
            cell: self.token_tx.cell_spec(),
            prompt_tokens: self.prompt_tokens as nat,
            completion_tokens: self.completion_tokens as nat,
        }
    }
}

pub open spec fn active_notice(req: ActiveRequestState) -> FailureNotice {
    FailureNotice {
        request_id: req.request_id,
        tag: req.token_tx.tag_spec(),
        stream: req.token_tx.stream_spec(),
        cell: req.token_tx.cell_spec(),
        prompt_tokens: req.prompt_len as nat,
        completion_tokens: req.generated_count as nat,
    }
}

pub open spec fn pending_notice(req: PendingRequest) -> FailureNotice {
    FailureNotice {
        request_id: req.request_id,
        tag: req.token_tx.tag_spec(),
        stream: req.token_tx.stream_spec(),
        cell: req.token_tx.cell_spec(),
        prompt_tokens: req.prompt_len(),
        completion_tokens: 0,
    }
}

pub open spec fn active_notices(active: Seq<ActiveRequestState>) -> Seq<FailureNotice> {
    active.map_values(|r: ActiveRequestState| active_notice(r))
}

pub open spec fn pending_notices(pending: Seq<PendingRequest>) -> Seq<FailureNotice> {
    pending.map_values(|r: PendingRequest| pending_notice(r))
}

pub open spec fn notices(targets: Seq<RequestFailureTarget>) -> Seq<FailureNotice> {
    targets.map_values(|t: RequestFailureTarget| t.notice())
}

/// The requests a plan touches: a decode touches the active batch, a prefill the
/// pending one, a unified step first the one and then the other.
pub open spec fn touched_by(active: Seq<ActiveRequestState>, plan: ExecutionPlan) -> Seq<
    FailureNotice,
> {
    match plan {
        ExecutionPlan::Prefill { pending } => pending_notices(pending@),
        ExecutionPlan::Decode => active_notices(active),
        ExecutionPlan::SpeculativeDecode => active_notices(active),
        ExecutionPlan::Unified { pending } => active_notices(active) + pending_notices(pending@),
    }
}

pub fn active_failure_target(req: &ActiveRequestState) -> (r: RequestFailureTarget)
    ensures
        r.notice() == active_notice(*req),
{
    RequestFailureTarget {
        request_id: req.request_id,
        token_tx: req.token_tx.clone(),
        prompt_tokens: req.prompt_len,
        completion_tokens: req.generated_count,
    }
}

pub fn pending_failure_target(req: &PendingRequest) -> (r: RequestFailureTarget)
    ensures
        r.notice() == pending_notice(*req),
{
    RequestFailureTarget {
        request_id: req.request_id,
        token_tx: req.token_tx.clone(),
        prompt_tokens: req.prompt_tokens.len(),
        completion_tokens: 0,
    }
}

fn push_active_targets(targets: &mut Vec<RequestFailureTarget>, active: &[ActiveRequestState])
    ensures
        notices(final(targets)@) == notices(old(targets)@) + active_notices(active@),
{
    let ghost before = notices(targets@);
    let mut i: usize = 0;
    assert(notices(targets@) =~= before + active_notices(active@.take(0)));
    while i < active.len()
        invariant
            i <= active.len(),
            notices(targets@) == before + active_notices(active@.take(i as int)),
        decreases active.len() - i,
    {
        let ghost done = targets@;
        let target = active_failure_target(&active[i]);
        targets.push(target);
        proof {
            assert(notices(targets@) =~= notices(done).push(target.notice()));
            assert(active_notices(active@.take(i as int + 1)) =~= active_notices(
                active@.take(i as int),
            ).push(active_notice(active@[i as int])));
            assert(notices(targets@) =~= before + active_notices(active@.take(i as int + 1)));
        }
        i = i + 1;
    }
    assert(active@.take(i as int) =~= active@);
}

fn push_pending_targets(targets: &mut Vec<RequestFailureTarget>, pending: &[PendingRequest])
    ensures
        notices(final(targets)@) == notices(old(targets)@) + pending_notices(pending@),
{
    let ghost before = notices(targets@);
    let mut i: usize = 0;
    assert(notices(targets@) =~= before + pending_notices(pending@.take(0)));
    while i < pending.len()
        invariant
            i <= pending.len(),
            notices(targets@) == before + pending_notices(pending@.take(i as int)),
        decreases pending.len() - i,
    {
        let ghost done = targets@;
        let target = pending_failure_target(&pending[i]);
        targets.push(target);
        proof {
            assert(notices(targets@) =~= notices(done).push(target.notice()));
            assert(pending_notices(pending@.take(i as int + 1)) =~= pending_notices(
                pending@.take(i as int),
            ).push(pending_notice(pending@[i as int])));
            assert(notices(targets@) =~= before + pending_notices(pending@.take(i as int + 1)));
        }
        i = i + 1;
    }
    assert(pending@.take(i as int) =~= pending@);
}

pub fn failure_targets_for(active: &[ActiveRequestState], plan: &ExecutionPlan) -> (r: Vec<
    RequestFailureTarget,
>)
    ensures
        notices(r@) == touched_by(active@, *plan),
{
    let mut targets: Vec<RequestFailureTarget> = Vec::new();
    assert(notices(targets@) =~= Seq::<FailureNotice>::empty());
    match plan {
        ExecutionPlan::Prefill { pending } => {
            push_pending_targets(&mut targets, pending.as_slice());
        },
        ExecutionPlan::Decode => {
            push_active_targets(&mut targets, active);
        },
        ExecutionPlan::SpeculativeDecode => {
            push_active_targets(&mut targets, active);
        },
        ExecutionPlan::Unified { pending } => {
            push_active_targets(&mut targets, active);
            push_pending_targets(&mut targets, pending.as_slice());
        },
    }
    assert(notices(targets@) =~= touched_by(active@, *plan));
    targets
}

/// The event tells a touched request of this failure.
pub open spec fn says_failed(
    target: RequestFailureTarget,
    message: Seq<char>,
    event: TokenEvent,
) -> bool {
    event matches TokenEvent::Error { message: text, prompt_tokens, completion_tokens } && text@
        == message && prompt_tokens == target.prompt_tokens && completion_tokens
        == target.completion_tokens
}

/// A touched request's sink was handed the event that tells it of this failure.
pub open spec fn told_of_failure(target: RequestFailureTarget, message: Seq<char>) -> bool {
    exists|event: TokenEvent, sent: Result<(), TokenEvent>| #[trigger]
        target.token_tx.emits(event, sent) && says_failed(target, message, event)
}

/// The event a touched request is answered with when its step fails.
pub fn failure_event(target: &RequestFailureTarget, message: &str) -> (event: TokenEvent)
    ensures
        says_failed(*target, message@, event),
{
    TokenEvent::Error {
        message: String::from_str(message),
        prompt_tokens: target.prompt_tokens,
        completion_tokens: target.completion_tokens,
    }
}

/// The requests that a failure took down.
pub open spec fn failed_ids(targets: Seq<RequestFailureTarget>) -> Seq<RequestId> {
    targets.map_values(|t: RequestFailureTarget| t.request_id)
}

/// Answers every touched request with the error, ends its open span, and empties the
/// active batch. Returns the ids whose executor state is to be dropped, in order.
pub fn fail_touched_requests(
    active: &mut Vec<ActiveRequestState>,
    tracker: &mut PhaseTracker,
    targets: &[RequestFailureTarget],
    message: &str,
) -> (dropped: Vec<RequestId>)
    requires
        old(tracker).well_formed(),
    ensures
        final(active)@.len() == 0,
        final(tracker).well_formed(),
        final(tracker)@ == old(tracker)@.remove_keys(failed_ids(targets@).to_set()),
        dropped@ == failed_ids(targets@),
        forall|i: int|
            0 <= i < targets@.len() ==> told_of_failure(#[trigger] targets@[i], message@),
{
    let ghost traced = tracker@;
    let mut dropped: Vec<RequestId> = Vec::new();
    let mut i: usize = 0;
    assert(tracker@ =~= traced.remove_keys(dropped@.to_set()));
    while i < targets.len()
        invariant
            i <= targets.len(),
            tracker.well_formed(),
            tracker@ == traced.remove_keys(dropped@.to_set()),
            dropped@ == failed_ids(targets@.take(i as int)),
            forall|k: int| 0 <= k < i ==> told_of_failure(#[trigger] targets@[k], message@),
        decreases targets.len() - i,
    {
        let target = &targets[i];
        let event = failure_event(target, message);
        let ghost said = event;
        let sent = target.token_tx.send(event);
        assert(target.token_tx.emits(said, sent));
        assert(told_of_failure(*target, message@));
        tracker.finish(target.request_id);
        let ghost done = dropped@;
        dropped.push(target.request_id);
        proof {
            assert(dropped@ =~= failed_ids(targets@.take(i as int + 1)));
            assert forall|id: RequestId| dropped@.contains(id) == (done.contains(id) || id
                == target.request_id) by {
                if done.contains(id) {
                    assert(dropped@[done.index_of(id)] == id);
                }
                assert(dropped@.last() == target.request_id);
            }
            assert(tracker@ =~= traced.remove_keys(dropped@.to_set()));
        }
        i = i + 1;
    }
    assert(targets@.take(i as int) =~= targets@);
    active.clear();
    dropped
}

/// What an iteration has to wait for before it can go on.
#[derive(Clone, Copy, Debug, PartialEq, Eq, Structural)]
pub enum Wait {
    /// A parked KV prefetch, so that its request prefills next.
    ForPrefetch,
    /// A new arrival; the scheduler ends when every sender is gone.
    ForArrival,
    /// Nothing: there is work to do.
    Nothing,
}

/// All requests a scheduler holds, by stage.
pub struct SchedulerState {
    pub active: Vec<ActiveRequestState>,
    /// Requests that could not be admitted yet; re-evaluated every iteration.
    pub deferred: Vec<PendingRequest>,
    /// Requests parked while their KV prefetch loads.
    pub loading: Vec<PendingRequest>,
    /// Admitted requests whose prompts are not fully prefilled yet.
    pub prefilling: Vec<PendingRequest>,
    /// Requests whose prefill runs on the overlap stream, if one is in flight.
    pub inflight: Option<Vec<PendingRequest>>,
    /// Control commands waiting for an idle moment.
    pub pending_control: VecDeque<EngineControlRequest>,
    /// Generation that arrived behind a pending control command.
    pub post_control_deferred: Vec<PendingRequest>,
    pub next_request_id: u64,
}

/// What an iteration hands to the driver before it runs anything.
pub struct StepIntake {
    pub unknown_lora: Vec<PendingRequest>,
    pub rejected: Vec<(PendingRequest, RejectReason)>,
    pub pending: Vec<PendingRequest>,
}

pub open spec fn all_within(s: Seq<PendingRequest>, next: u64) -> bool {
    forall|i: int|
        0 <= i < s.len() ==> (#[trigger] s[i]).well_formed() && s[i].request_id.0 < next
}

proof fn lemma_left_within(
    queue: Seq<PendingRequest>,
    budget: nat,
    max: nat,
    request_local: bool,
    next: u64,
)
    requires
        all_within(queue, next),
    ensures
        all_within(left_of(queue, budget, max, request_local), next),
    decreases queue.len(),
{
    if queue.len() > 0 && budget > 0 {
        let rest = queue.drop_first();
        assert(all_within(rest, next));
        match crate::scheduler::prefill::chunk_of(queue[0], budget, max, request_local) {
            Some(chunk) => {
                lemma_left_within(rest, (budget - chunk) as nat, max, request_local, next);
            },
            None => {
                lemma_left_within(rest, budget, max, request_local, next);
            },
        }
    }
}

proof fn lemma_admitted_within(
    reqs: Seq<PendingRequest>,
    budget: nat,
    slots: nat,
    limits: ExecutorLimits,
    credits: Map<u64, usize>,
    next: u64,
)
    requires
        all_within(reqs, next),
    ensures
        all_within(admit_all(reqs, budget, slots, limits, credits).pending, next),
        all_within(admit_all(reqs, budget, slots, limits, credits).deferred, next),
    decreases reqs.len(),
{
    if reqs.len() > 0 {
        lemma_admitted_within(reqs.drop_last(), budget, slots, limits, credits, next);
        assert(reqs.last() == reqs[reqs.len() - 1]);
    }
}

proof fn lemma_filter_within(
    s: Seq<PendingRequest>,
    p: spec_fn(PendingRequest) -> bool,
    next: u64,
)
    requires
        all_within(s, next),
    ensures
        all_within(s.filter(p), next),
    decreases s.len(),
{
    reveal(Seq::filter);
    if s.len() > 0 {
        lemma_filter_within(s.drop_last(), p, next);
        assert(s.last() == s[s.len() - 1]);
    }
}

proof fn lemma_offers_within(s: Seq<PendingRequest>, started: Seq<bool>, next: u64)
    requires
        all_within(s, next),
    ensures
        all_within(kept_of(s, started), next),
        all_within(started_of(s, started), next),
    decreases s.len(),
{
    if s.len() > 0 {
        lemma_offers_within(s.drop_last(), started, next);
        assert(s.last() == s[s.len() - 1]);
        assert(s.last().after_offer().well_formed());
    }
}

proof fn lemma_promoted_within(
    deferred: Seq<PendingRequest>,
    loading: Seq<PendingRequest>,
    ready: Seq<RequestId>,
    next: u64,
)
    requires
        all_within(deferred, next),
        all_within(loading, next),
    ensures
        all_within(promote_all(deferred, loading, ready).0, next),
        all_within(promote_all(deferred, loading, ready).1, next),
    decreases ready.len(),
{
    if ready.len() > 0 {
        lemma_promoted_within(deferred, loading, ready.drop_last(), next);
        let before = promote_all(deferred, loading, ready.drop_last());
        let after = promote_all(deferred, loading, ready);
        match crate::scheduler::prefetch::position_of(before.1, ready.last()) {
            Some(i) => {
                lemma_position_in_range(before.1, ready.last());
                assert forall|k: int| 0 <= k < after.0.len() implies (
                #[trigger] after.0[k]).well_formed() && after.0[k].request_id.0 < next by {
                    if k > 0 {
                        assert(after.0[k] == before.0[k - 1]);
                    }
                }
                assert forall|k: int| 0 <= k < after.1.len() implies (
                #[trigger] after.1[k]).well_formed() && after.1[k].request_id.0 < next by {
                    assert(after.1[k] == before.1[if k < i {
                        k
                    } else {
                        k + 1
                    }]);
                }
            },
            None => {},
        }
    }
}

proof fn lemma_position_in_range(s: Seq<PendingRequest>, id: RequestId)
    ensures
        crate::scheduler::prefetch::position_of(s, id) matches Some(i) ==> 0 <= i < s.len(),
    decreases s.len(),
{
    if s.len() > 0 {
        lemma_position_in_range(s.drop_first(), id);
    }
}

impl SchedulerState {
    /// Every waiting request is well-formed and carries an id handed out here,
    /// and generation is held back only behind a control command that is still
    /// pending.
    pub open spec fn well_formed(self) -> bool {
        &&& all_within(self.deferred@, self.next_request_id)
        &&& all_within(self.loading@, self.next_request_id)
        &&& all_within(self.prefilling@, self.next_request_id)
        &&& all_within(self.post_control_deferred@, self.next_request_id)
        &&& self.post_control_deferred@.len() > 0 ==> self.pending_control@.len() > 0
    }

    /// Nothing runs and nothing could be admitted.
    pub open spec fn idle(self) -> bool {
        self.active@.len() == 0 && self.deferred@.len() == 0 && self.prefilling@.len() == 0
    }

    /// Nothing but the waiting and the parked requests changed.
    pub open spec fn same_but_waiting(self, post: SchedulerState) -> bool {
        &&& post.active == self.active
        &&& post.prefilling == self.prefilling
        &&& post.inflight == self.inflight
        &&& post.pending_control == self.pending_control
        &&& post.post_control_deferred == self.post_control_deferred
        &&& post.next_request_id == self.next_request_id
    }

    /// The state after one command was taken in.
    pub open spec fn enqueued(self, command: EngineCommand, post: SchedulerState) -> bool {
        &&& post.active == self.active
        &&& post.loading == self.loading
        &&& post.prefilling == self.prefilling
        &&& post.inflight == self.inflight
        &&& match command {
            EngineCommand::Generate(req) => {
                let fresh = PendingRequest::fresh(RequestId(self.next_request_id), *req);
                &&& post.next_request_id == self.next_request_id + 1
                &&& post.pending_control == self.pending_control
                &&& if self.pending_control@.len() == 0 {
                    &&& post.deferred@ == self.deferred@.push(fresh)
                    &&& post.post_control_deferred == self.post_control_deferred
                } else {
                    &&& post.deferred == self.deferred
                    &&& post.post_control_deferred@ == self.post_control_deferred@.push(fresh)
                }
            },
            EngineCommand::Control(control) => {
                &&& post.next_request_id == self.next_request_id
                &&& post.deferred == self.deferred
                &&& post.post_control_deferred == self.post_control_deferred
                &&& post.pending_control@ == self.pending_control@.push(control)
            },
        }
    }

    /// The state after these prefetches settled.
    pub open spec fn reclaimed(self, ready: Seq<RequestId>, post: SchedulerState) -> bool {
        &&& self.same_but_waiting(post)
        &&& (post.deferred@, post.loading@) == promote_all(self.deferred@, self.loading@, ready)
    }

    /// The state after an offer pass with these answers.
    pub open spec fn offers_settled(self, started: Seq<bool>, post: SchedulerState) -> bool {
        &&& self.same_but_waiting(post)
        &&& post.deferred@ == kept_of(self.deferred@, started)
        &&& post.loading@ == self.loading@ + started_of(self.deferred@, started)
    }

    /// The state after the control commands were asked for: once idle, all of them
    /// are handed out in order, and the generation behind them is released.
    pub open spec fn control_drained(
        self,
        handed: Seq<EngineControlRequest>,
        post: SchedulerState,
    ) -> bool {
        &&& post.active == self.active
        &&& post.loading == self.loading
        &&& post.prefilling == self.prefilling
        &&& post.inflight == self.inflight
        &&& post.next_request_id == self.next_request_id
        &&& if self.idle() {
            &&& handed == self.pending_control@
            &&& post.pending_control@.len() == 0
            &&& post.deferred@ == self.post_control_deferred@
            &&& post.post_control_deferred@.len() == 0
        } else {
            &&& handed.len() == 0
            &&& post.pending_control == self.pending_control
            &&& post.deferred == self.deferred
            &&& post.post_control_deferred == self.post_control_deferred
        }
    }

    /// What an intake hands out, and the state after it.
    pub open spec fn taken_in(
        self,
        limits: ExecutorLimits,
        request_local: bool,
        credits: Map<u64, usize>,
        adapters: Seq<String>,
        r: StepIntake,
        post: SchedulerState,
    ) -> bool {
        let known = self.deferred@.filter(|q: PendingRequest| adapter_known(q, adapters));
        let admission = admit_all(
            known,
            free_budget(self.active@, self.prefilling@, limits, credits),
            free_slots(self.active@.len(), self.prefilling@.len(), limits),
            limits,
            credits,
        );
        let queue = self.prefilling@ + admission.pending;
        let max = limits.max_prefill_tokens as nat;
        &&& post.active == self.active
        &&& post.loading == self.loading
        &&& post.inflight == self.inflight
        &&& post.pending_control == self.pending_control
        &&& post.post_control_deferred == self.post_control_deferred
        &&& post.next_request_id == self.next_request_id
        &&& r.unknown_lora@ == self.deferred@.filter(
            |q: PendingRequest| !adapter_known(q, adapters),
        )
        &&& r.rejected@ == admission.rejected
        &&& post.deferred@ == admission.deferred
        &&& if self.inflight is Some {
            &&& r.pending@.len() == 0
            &&& post.prefilling@ == queue
        } else {
            &&& stable_sort_of(r.pending@, taken_of(queue, max, max, request_local))
            &&& post.prefilling@ == left_of(queue, max, max, request_local)
        }
    }

    pub open spec fn inflight_len(self) -> nat {
        match self.inflight {
            Some(pending) => pending@.len(),
            None => 0,
        }
    }

    pub fn new() -> (r: Self)
        ensures
            r.well_formed(),
            r.idle(),
            r.loading@.len() == 0,
            r.inflight is None,
            r.pending_control@.len() == 0,
            r.post_control_deferred@.len() == 0,
            r.next_request_id == 0,
    {
        SchedulerState {
            active: Vec::new(),
            deferred: Vec::new(),
            loading: Vec::new(),
            prefilling: Vec::new(),
            inflight: None,
            pending_control: VecDeque::new(),
            post_control_deferred: Vec::new(),
            next_request_id: 0,
        }
    }

    /// Requests occupying a decode or prefill slot, for the load feed.
    pub fn num_running(&self) -> (r: u64)
        requires
            self.active@.len() + self.prefilling@.len() + self.inflight_len() <= u64::MAX,
        ensures
            r == self.active@.len() + self.prefilling@.len() + self.inflight_len(),
    {
        let inflight: usize = match &self.inflight {
            Some(pending) => pending.len(),
            None => 0,
        };
        self.active.len() as u64 + self.prefilling.len() as u64 + inflight as u64
    }

    /// Requests in every not-yet-running queue, for the load feed.
    pub fn num_waiting(&self) -> (r: u64)
        requires
            self.deferred@.len() + self.loading@.len() + self.post_control_deferred@.len()
                <= u64::MAX,
        ensures
            r == self.deferred@.len() + self.loading@.len() + self.post_control_deferred@.len(),
    {
        self.deferred.len() as u64 + self.loading.len() as u64
            + self.post_control_deferred.len() as u64
    }

    /// Takes in one generate request.
    pub fn submit(&mut self, tracker: &mut PhaseTracker, req: GenerateRequest)
        requires
            old(self).well_formed(),
            old(tracker).well_formed(),
            old(self).next_request_id < u64::MAX,
        ensures
            final(self).well_formed(),
            final(tracker).well_formed(),
            queued(
                old(tracker)@,
                RequestId(old(self).next_request_id),
                req.trace_parent,
                final(tracker)@,
            ),
            final(self).next_request_id == old(self).next_request_id + 1,
            final(self).deferred@ == old(self).deferred@.push(
                PendingRequest::fresh(RequestId(old(self).next_request_id), req),
            ),
            final(self).active == old(self).active,
            final(self).loading == old(self).loading,
            final(self).prefilling == old(self).prefilling,
            final(self).inflight == old(self).inflight,
            final(self).pending_control == old(self).pending_control,
            final(self).post_control_deferred == old(self).post_control_deferred,
    {
        admit_new_request(&mut self.deferred, tracker, &mut self.next_request_id, req);
    }

    /// Takes in one command. Generation submitted behind a pending control
    /// command waits until that command has been handled.
    pub fn enqueue_engine_command(&mut self, tracker: &mut PhaseTracker, command: EngineCommand)
        requires
            old(self).well_formed(),
            old(tracker).well_formed(),
            old(self).next_request_id < u64::MAX,
        ensures
            final(self).well_formed(),
            old(self).enqueued(command, *final(self)),
            final(tracker).well_formed(),
            match command {
                EngineCommand::Generate(req) => queued(
                    old(tracker)@,
                    RequestId(old(self).next_request_id),
                    req.trace_parent,
                    final(tracker)@,
                ),
                EngineCommand::Control(_) => final(tracker)@ == old(tracker)@,
            },
    {
        match command {
            EngineCommand::Generate(req) => {
                if self.pending_control.len() == 0 {
                    admit_new_request(
                        &mut self.deferred,
                        tracker,
                        &mut self.next_request_id,
                        *req,
                    );
                } else {
                    admit_new_request(
                        &mut self.post_control_deferred,
                        tracker,
                        &mut self.next_request_id,
                        *req,
                    );
                }
            },
            EngineCommand::Control(control) => {
                self.pending_control.push_back(control);
            },
        }
    }

    /// Settled prefetches come back to the front of the backlog.
    pub fn reclaim_ready_prefetch(&mut self, ready: &[RequestId])
        requires
            old(self).well_formed(),
        ensures
            final(self).well_formed(),
            old(self).reclaimed(ready@, *final(self)),
    {
        proof {
            lemma_promoted_within(
                self.deferred@,
                self.loading@,
                ready@,
                self.next_request_id,
            );
        }
        promote_ready(ready, &mut self.deferred, &mut self.loading);
    }

    /// Whether fresh requests may be offered to prefetch now: a prefetch must not
    /// race ahead of an adapter load it depends on.
    pub fn may_offer_prefetch(&self) -> (r: bool)
        ensures
            r == (self.pending_control@.len() == 0),
    {
        self.pending_control.len() == 0
    }

    /// Settles an offer pass over the backlog.
    pub fn settle_offers(&mut self, started: &[bool])
        requires
            old(self).well_formed(),
            started@.len() == old(self).deferred@.len(),
        ensures
            final(self).well_formed(),
            old(self).offers_settled(started@, *final(self)),
    {
        proof {
            lemma_offers_within(self.deferred@, started@, self.next_request_id);
        }
        offer_prefetch(&mut self.deferred, &mut self.loading, started);
    }

    /// Once idle, hands out the pending control commands in order and releases
    /// the generation that waited behind them.
    pub fn drain_idle_control(&mut self) -> (r: Vec<EngineControlRequest>)
        requires
            old(self).well_formed(),
        ensures
            final(self).well_formed(),
            old(self).control_drained(r@, *final(self)),
    {
        let mut drained: Vec<EngineControlRequest> = Vec::new();
        if self.active.is_empty() && self.deferred.is_empty() && self.prefilling.is_empty() {
            let ghost controls = self.pending_control@;
            let mut queue: VecDeque<EngineControlRequest> = VecDeque::new();
            queue.append(&mut self.pending_control);
            assert(queue@ =~= controls);
            while queue.len() > 0
                invariant
                    drained@ + queue@ == controls,
                decreases queue@.len(),
            {
                let ghost rest = queue@;
                match queue.pop_front() {
                    Some(control) => {
                        let ghost done = drained@;
                        drained.push(control);
                        assert(rest =~= seq![control] + queue@);
                        assert(done + (seq![control] + queue@) =~= done.push(control) + queue@);
                    },
                    None => {
                        assert(false);
                    },
                }
            }
            assert(drained@ =~= controls);
            self.deferred.append(&mut self.post_control_deferred);
            assert(self.deferred@ =~= old(self).post_control_deferred@);
        }
        drained
    }

    /// What to wait for when nothing runs and nothing could be admitted. A load
    /// in flight takes priority over a new arrival.
    pub fn idle_wait(&self) -> (r: Wait)
        ensures
            r == (if !self.idle() {
                Wait::Nothing
            } else if self.loading@.len() > 0 {
                Wait::ForPrefetch
            } else {
                Wait::ForArrival
            }),
    {
        if !(self.active.is_empty() && self.deferred.is_empty() && self.prefilling.is_empty()) {
            Wait::Nothing
        } else if !self.loading.is_empty() {
            Wait::ForPrefetch
        } else {
            Wait::ForArrival
        }
    }

    /// The intake of one iteration: drop requests with an unknown adapter, admit
    /// what fits, and pack the next prefill step. While an overlapped prefill is
    /// in flight no new chunks are taken.
    pub fn intake(
        &mut self,
        limits: &ExecutorLimits,
        request_local: bool,
        prefetch_credit: &HashMap<u64, usize>,
        loaded_adapters: &[String],
    ) -> (r: StepIntake)
        requires
            old(self).well_formed(),
            limits.block_size > 0,
            active_growth_total(old(self).active@, limits.block_size as nat) <= usize::MAX,
            pending_growth_total(
                old(self).prefilling@,
                limits.block_size as nat,
                prefetch_credit@,
            ) <= usize::MAX,
        ensures
            final(self).well_formed(),
            old(self).taken_in(
                *limits,
                request_local,
                prefetch_credit@,
                loaded_adapters@,
                r,
                *final(self),
            ),
    {
        let ghost next = self.next_request_id;
        let ghost known = |q: PendingRequest| adapter_known(q, loaded_adapters@);
        let ghost budget0 = free_budget(
            self.active@,
            self.prefilling@,
            *limits,
            prefetch_credit@,
        );
        let ghost slots0 = free_slots(self.active@.len(), self.prefilling@.len(), *limits);
        let ghost waiting = self.deferred@;
        let mut deferred: Vec<PendingRequest> = Vec::new();
        deferred.append(&mut self.deferred);
        assert(deferred@ =~= waiting);
        let validation = reject_unknown_lora_requests(deferred, loaded_adapters);
        let mut admission = admit_deferred_requests(
            validation.accepted,
            self.active.as_slice(),
            self.prefilling.as_slice(),
            limits,
            prefetch_credit,
        );
        proof {
            lemma_filter_within(waiting, known, next);
            lemma_admitted_within(
                waiting.filter(known),
                budget0,
                slots0,
                *limits,
                prefetch_credit@,
                next,
            );
        }
        self.prefilling.append(&mut admission.pending);
        self.deferred = admission.deferred;
        let ghost queue = self.prefilling@;
        assert(all_within(queue, next));
        let pending = if self.inflight.is_some() {
            Vec::new()
        } else {
            proof {
                let max = limits.max_prefill_tokens as nat;
                lemma_left_within(queue, max, max, request_local, next);
            }
            take_prefill_chunks(&mut self.prefilling, limits.max_prefill_tokens, request_local)
        };
        StepIntake { unknown_lora: validation.rejected, rejected: admission.rejected, pending }
    }

    /// Whether a plan runs with its prefill on the overlap stream, so that decode
    /// can advance at once. A loop that takes control commands never overlaps.
    pub fn overlaps(&self, plan: &ExecutionPlan, has_decode_overlap: bool, with_control: bool) -> (r:
        bool)
        ensures
            r == (!with_control && has_decode_overlap && self.inflight is None && plan is Unified),
    {
        !with_control && has_decode_overlap && self.inflight.is_none() && match plan {
            ExecutionPlan::Unified { .. } => true,
            _ => false,
        }
    }

    /// Records a step that ran: an overlapped step leaves its prefill in flight.
    pub fn step_succeeded(&mut self, plan: ExecutionPlan, overlapped: bool)
        requires
            overlapped ==> plan is Unified,
        ensures
            final(self).inflight == (if overlapped {
                Some(plan->Unified_pending)
            } else {
                old(self).inflight
            }),
            final(self).active == old(self).active,
            final(self).deferred == old(self).deferred,
            final(self).loading == old(self).loading,
            final(self).prefilling == old(self).prefilling,
            final(self).pending_control == old(self).pending_control,
            final(self).post_control_deferred == old(self).post_control_deferred,
            final(self).next_request_id == old(self).next_request_id,
    {
        if overlapped {
            match plan {
                ExecutionPlan::Unified { pending } => {
                    self.inflight = Some(pending);
                },
                _ => {},
            }
        }
    }

    /// Hands out the requests of an overlapped prefill that completed.
    pub fn take_completed_prefill(&mut self) -> (r: Option<Vec<PendingRequest>>)
        ensures
            r == old(self).inflight,
            final(self).inflight is None,
            final(self).active == old(self).active,
            final(self).deferred == old(self).deferred,
            final(self).loading == old(self).loading,
            final(self).prefilling == old(self).prefilling,
            final(self).pending_control == old(self).pending_control,
            final(self).post_control_deferred == old(self).post_control_deferred,
            final(self).next_request_id == old(self).next_request_id,
    {
        self.inflight.take()
    }

    /// Takes down every request a failed step touched and empties the active
    /// batch. Requests the step did not touch keep waiting.
    pub fn step_failed(
        &mut self,
        tracker: &mut PhaseTracker,
        targets: &[RequestFailureTarget],
        message: &str,
    ) -> (dropped: Vec<RequestId>)
        requires
            old(tracker).well_formed(),
        ensures
            final(self).active@.len() == 0,
            final(tracker).well_formed(),
            final(tracker)@ == old(tracker)@.remove_keys(failed_ids(targets@).to_set()),
            dropped@ == failed_ids(targets@),
            forall|i: int|
                0 <= i < targets@.len() ==> told_of_failure(#[trigger] targets@[i], message@),
            final(self).deferred == old(self).deferred,
            final(self).loading == old(self).loading,
            final(self).prefilling == old(self).prefilling,
            final(self).inflight == old(self).inflight,
            final(self).pending_control == old(self).pending_control,
            final(self).post_control_deferred == old(self).post_control_deferred,
            final(self).next_request_id == old(self).next_request_id,
    {
        fail_touched_requests(&mut self.active, tracker, targets, message)
    }
}

/// Whoever a failing step touches is told: every decoding request, unless the step only
/// prefilled, and every request that it prefilled, each once. What each is told of are its
/// own tokens.
pub proof fn lemma_every_touched_request_is_named(
    active: Seq<ActiveRequestState>,
    plan: ExecutionPlan,
    i: int,
)
    ensures
        ({
            let told = touched_by(active, plan);
            let decodes = !(plan is Prefill);
            let pending = match plan {
                ExecutionPlan::Prefill { pending } => pending@,
                ExecutionPlan::Unified { pending } => pending@,
                _ => Seq::<PendingRequest>::empty(),
            };
            let first = if decodes {
                active.len() as int
            } else {
                0
            };
            &&& told.len() == first + pending.len()
            &&& decodes && 0 <= i < active.len() ==> {
                &&& told[i].request_id == active[i].request_id
                &&& told[i].prompt_tokens == active[i].prompt_len
                &&& told[i].completion_tokens == active[i].generated_count
                &&& told[i].stream == active[i].token_tx.stream_spec()
                &&& told[i].tag == active[i].token_tx.tag_spec()
            }
            &&& 0 <= i < pending.len() ==> {
                &&& told[first + i].request_id == pending[i].request_id
                &&& told[first + i].prompt_tokens == pending[i].prompt_tokens@.len()
                &&& told[first + i].completion_tokens == 0
                &&& told[first + i].stream == pending[i].token_tx.stream_spec()
                &&& told[first + i].tag == pending[i].token_tx.tag_spec()
            }
        }),
{
}

/// A plan drops no request that was packed, and speculation never runs beside a prefill.
pub proof fn lemma_plan_keeps_what_was_packed(
    should_speculate: bool,
    has_active: bool,
    pending: Vec<PendingRequest>,
    choice: PlanChoice,
)
    requires
        call_ensures(runtime_plan, (should_speculate, has_active, pending), choice),
    ensures
        match choice {
            PlanChoice::Run(ExecutionPlan::Prefill { pending: run }) => run == pending
                && should_speculate && pending@.len() > 0,
            PlanChoice::Run(ExecutionPlan::SpeculativeDecode) => should_speculate && pending@.len()
                == 0,
            PlanChoice::Run(_) => false,
            PlanChoice::Build { has_active: decodes, pending: kept } => kept == pending && decodes
                == has_active && !should_speculate,
        },
{
}

proof fn lemma_filter_splits(s: Seq<PendingRequest>, p: spec_fn(PendingRequest) -> bool)
    ensures
        s.filter(p).to_multiset().add(s.filter(|q: PendingRequest| !p(q)).to_multiset())
            == s.to_multiset(),
    decreases s.len(),
{
    broadcast use vstd::seq_lib::group_to_multiset_ensures;

    reveal(Seq::filter);
    let other = |q: PendingRequest| !p(q);
    if s.len() > 0 {
        lemma_filter_splits(s.drop_last(), p);
        assert(s =~= s.drop_last().push(s.last()));
    }
    assert(s.filter(p).to_multiset().add(s.filter(other).to_multiset()) =~= s.to_multiset());
}

/// An intake loses no request and invents none: every deferred request is turned away for
/// its adapter, rejected, deferred again or admitted, and what is admitted or was being
/// prefilled is packed or stays.
pub proof fn lemma_intake_keeps_every_request(
    before: SchedulerState,
    limits: ExecutorLimits,
    request_local: bool,
    credits: Map<u64, usize>,
    adapters: Seq<String>,
    intake: StepIntake,
    after: SchedulerState,
)
    requires
        before.inflight is Some,
        before.taken_in(limits, request_local, credits, adapters, intake, after),
    ensures
        before.deferred@.to_multiset().add(before.prefilling@.to_multiset())
            == after.deferred@.to_multiset().add(after.prefilling@.to_multiset()).add(
            intake.unknown_lora@.to_multiset(),
        ).add(rejected_requests(intake.rejected@).to_multiset()),
        intake.pending@.len() == 0,
{
    broadcast use vstd::seq_lib::group_to_multiset_ensures;

    let p = |q: PendingRequest| adapter_known(q, adapters);
    let known = before.deferred@.filter(p);
    let budget = free_budget(before.active@, before.prefilling@, limits, credits);
    let slots = free_slots(before.active@.len(), before.prefilling@.len(), limits);
    let admission = admit_all(known, budget, slots, limits, credits);
    lemma_filter_splits(before.deferred@, p);
    lemma_admission_partitions_requests(known, budget, slots, limits, credits);
    vstd::seq_lib::lemma_multiset_commutative(before.prefilling@, admission.pending);
    assert(before.deferred@.filter(|q: PendingRequest| !p(q)) == intake.unknown_lora@) by {
        assert((|q: PendingRequest| !p(q)) =~= (|q: PendingRequest| !adapter_known(q, adapters)));
    }
    assert(before.deferred@.to_multiset().add(before.prefilling@.to_multiset())
        =~= after.deferred@.to_multiset().add(after.prefilling@.to_multiset()).add(
        intake.unknown_lora@.to_multiset(),
    ).add(rejected_requests(intake.rejected@).to_multiset()));
}

/// The same where the intake packs: the packed requests differ from what they were in
/// their chunks alone.
pub proof fn lemma_packing_intake_keeps_every_request(
    before: SchedulerState,
    limits: ExecutorLimits,
    request_local: bool,
    credits: Map<u64, usize>,
    adapters: Seq<String>,
    intake: StepIntake,
    after: SchedulerState,
    packed: Seq<PendingRequest>,
)
    requires
        before.inflight is None,
        before.taken_in(limits, request_local, credits, adapters, intake, after),
        packed == taken_of(
            before.prefilling@ + admit_all(
                before.deferred@.filter(|q: PendingRequest| adapter_known(q, adapters)),
                free_budget(before.active@, before.prefilling@, limits, credits),
                free_slots(before.active@.len(), before.prefilling@.len(), limits),
                limits,
                credits,
            ).pending,
            limits.max_prefill_tokens as nat,
            limits.max_prefill_tokens as nat,
            request_local,
        ),
    ensures
        stable_sort_of(intake.pending@, packed),
        exists|admitted: Seq<PendingRequest>|
            {
                &&& before.deferred@.to_multiset() == #[trigger] admitted.to_multiset().add(
                    after.deferred@.to_multiset(),
                ).add(intake.unknown_lora@.to_multiset()).add(
                    rejected_requests(intake.rejected@).to_multiset(),
                )
                &&& without_chunks(before.prefilling@ + admitted).to_multiset() == without_chunks(
                    packed,
                ).to_multiset().add(without_chunks(after.prefilling@).to_multiset())
            },
{
    broadcast use vstd::seq_lib::group_to_multiset_ensures;

    let p = |q: PendingRequest| adapter_known(q, adapters);
    let known = before.deferred@.filter(p);
    let budget = free_budget(before.active@, before.prefilling@, limits, credits);
    let slots = free_slots(before.active@.len(), before.prefilling@.len(), limits);
    let admission = admit_all(known, budget, slots, limits, credits);
    let max = limits.max_prefill_tokens as nat;
    lemma_filter_splits(before.deferred@, p);
    lemma_admission_partitions_requests(known, budget, slots, limits, credits);
    lemma_step_keeps_every_request(
        before.prefilling@ + admission.pending,
        max,
        max,
        request_local,
    );
    assert(before.deferred@.filter(|q: PendingRequest| !p(q)) == intake.unknown_lora@) by {
        assert((|q: PendingRequest| !p(q)) =~= (|q: PendingRequest| !adapter_known(q, adapters)));
    }
    let admitted = admission.pending;
    assert(before.deferred@.to_multiset() =~= admitted.to_multiset().add(
        after.deferred@.to_multiset(),
    ).add(intake.unknown_lora@.to_multiset()).add(
        rejected_requests(intake.rejected@).to_multiset(),
    ));
}

/// The oldest request mid-prefill advances with every intake that packs, unless it is an
/// echo request too long for a step.
pub proof fn lemma_oldest_prefill_advances(
    before: SchedulerState,
    limits: ExecutorLimits,
    request_local: bool,
    credits: Map<u64, usize>,
    adapters: Seq<String>,
    intake: StepIntake,
    after: SchedulerState,
)
    requires
        before.inflight is None,
        before.taken_in(limits, request_local, credits, adapters, intake, after),
        before.prefilling@.len() > 0,
        limits.max_prefill_tokens > 0,
        before.prefilling@[0].echo ==> before.prefilling@[0].remaining()
            <= limits.max_prefill_tokens,
    ensures
        exists|i: int|
            0 <= i < intake.pending@.len() && (#[trigger] intake.pending@[i]).request_id
                == before.prefilling@[0].request_id,
{
    let p = |q: PendingRequest| adapter_known(q, adapters);
    let known = before.deferred@.filter(p);
    let budget = free_budget(before.active@, before.prefilling@, limits, credits);
    let slots = free_slots(before.active@.len(), before.prefilling@.len(), limits);
    let queue = before.prefilling@ + admit_all(known, budget, slots, limits, credits).pending;
    let max = limits.max_prefill_tokens as nat;
    let id = before.prefilling@[0].request_id;
    let taken = taken_of(queue, max, max, request_local);
    assert(queue[0] == before.prefilling@[0]);
    lemma_step_makes_progress(queue, max, request_local);
    let same = |r: PendingRequest| r.request_id == id;
    taken.lemma_filter_contains(same, 0);
    assert(with_id(intake.pending@, id) == with_id(taken, id));
    intake.pending@.lemma_filter_contains_rev(same, taken[0]);
    let i = choose|i: int| 0 <= i < intake.pending@.len() && intake.pending@[i] == taken[0];
    assert(intake.pending@[i].request_id == id);
}

/// A new request is taken in under the next id, behind those that wait, or behind those
/// held back while a control command is pending. Nothing of it changes on the way in.
pub proof fn lemma_new_request_is_taken_in(
    before: SchedulerState,
    req: GenerateRequest,
    after: SchedulerState,
)
    requires
        before.enqueued(EngineCommand::Generate(Box::new(req)), after),
    ensures
        ({
            let line = if before.pending_control@.len() == 0 {
                after.deferred@
            } else {
                after.post_control_deferred@
            };
            let taken = line.last();
            &&& line.len() > 0
            &&& taken.request_id.0 == before.next_request_id
            &&& taken.prompt_tokens == req.prompt_tokens
            &&& taken.params == req.params
            &&& taken.max_tokens == req.max_tokens
            &&& taken.lora_adapter == req.lora_adapter
            &&& taken.token_tx == req.token_tx
            &&& taken.logprobs == req.logprobs
            &&& taken.echo == req.echo
            &&& taken.queued_at_unix_s == req.queued_at_unix_s
            &&& taken.remaining() == req.prompt_tokens@.len()
            &&& !taken.prefetch_offered
            &&& taken.cached_tokens == 0
            &&& after.deferred@.len() + after.post_control_deferred@.len() == before.deferred@.len()
                + before.post_control_deferred@.len() + 1
        }),
{
}

/// A touched request is told of a failure with its own counts.
pub proof fn lemma_failure_is_told(
    target: RequestFailureTarget,
    message: Seq<char>,
    event: TokenEvent,
)
    requires
        says_failed(target, message, event),
    ensures
        event is Error,
        event->Error_message@ == message,
        event->Error_prompt_tokens == target.prompt_tokens,
        event->Error_completion_tokens == target.completion_tokens,
{
}

/// An offer pass loses no waiting request: each goes on waiting or is parked, marked as
/// offered where it was offered, and what was parked stays parked.
pub proof fn lemma_offers_lose_no_request(
    state: SchedulerState,
    started: Seq<bool>,
    post: SchedulerState,
)
    requires
        state.offers_settled(started, post),
    ensures
        post.deferred@.to_multiset().add(post.loading@.to_multiset())
            == state.deferred@.map_values(
            |r: PendingRequest| r.after_offer(),
        ).to_multiset().add(state.loading@.to_multiset()),
        state.loading@.is_prefix_of(post.loading@),
        post.active == state.active,
        post.prefilling == state.prefilling,
        post.inflight == state.inflight,
{
    let kept = kept_of(state.deferred@, started);
    let parked = started_of(state.deferred@, started);
    lemma_offered_at_most_once(state.deferred@, started);
    vstd::seq_lib::lemma_multiset_commutative(state.loading@, parked);
    assert(post.loading@.take(state.loading@.len() as int) =~= state.loading@);
    assert(post.deferred@.to_multiset().add(post.loading@.to_multiset())
        =~= state.deferred@.map_values(
        |r: PendingRequest| r.after_offer(),
    ).to_multiset().add(state.loading@.to_multiset()));
}

/// An intake leaves alone what runs, what is parked and what is in flight, and the control
/// commands with the generation behind them.
pub proof fn lemma_intake_leaves_running_requests_alone(
    state: SchedulerState,
    limits: ExecutorLimits,
    request_local: bool,
    credits: Map<u64, usize>,
    adapters: Seq<String>,
    r: StepIntake,
    post: SchedulerState,
)
    requires
        state.taken_in(limits, request_local, credits, adapters, r, post),
    ensures
        post.active == state.active,
        post.loading == state.loading,
        post.inflight == state.inflight,
        post.pending_control == state.pending_control,
        post.post_control_deferred == state.post_control_deferred,
        post.next_request_id == state.next_request_id,
        state.inflight is Some ==> r.pending@.len() == 0,
{
}

} // verus!
