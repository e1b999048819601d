//! What holds over the whole run of a scheduler loop.
use vstd::prelude::*;
use crate::engine::{EngineCommand, EngineControlRequest};
use crate::scheduler::admission::{admit_all, free_budget, free_slots, ExecutorLimits};
use crate::scheduler::driver::{phase_after, LoopPhase, PhaseOutcome};
use crate::scheduler::prefetch::{adapter_known, kept_of, position_of, promote_all, started_of};
use crate::scheduler::prefill::{chunk_of, left_of, stable_sort_of, taken_of, with_id};
use crate::scheduler::request::{ActiveRequestState, PendingRequest, RequestId};
use crate::scheduler::step::{SchedulerState, StepIntake, Wait};

verus! {

/// A loop between two things that it does: its state, and the requests that an intake
/// packed for the next step.
pub struct LoopMoment {
    pub state: SchedulerState,
    pub packed: Seq<PendingRequest>,
}

/// Something that a loop does to its state.
pub enum LoopMove {
    /// Takes in a command.
    Enqueue(EngineCommand),
    /// Takes back the requests of these prefetches.
    Reclaim(Seq<RequestId>),
    /// Settles an offer pass with these answers.
    Offer(Seq<bool>),
    /// Asks for control commands, and gets these.
    Control(Seq<EngineControlRequest>),
    /// Rejects, admits and packs.
    Intake {
        limits: ExecutorLimits,
        request_local: bool,
        credits: Map<u64, usize>,
        adapters: Seq<String>,
        intake: StepIntake,
    },
    /// Has the executor run what is packed and what decodes, or resolve a prefill in
    /// flight, with all that follows from it.
    Execute,
}

pub open spec fn holds(s: Seq<PendingRequest>, id: RequestId) -> bool {
    exists|i: int| 0 <= i < s.len() && (#[trigger] s[i]).request_id == id
}

pub open spec fn runs(s: Seq<ActiveRequestState>, id: RequestId) -> bool {
    exists|i: int| 0 <= i < s.len() && (#[trigger] s[i]).request_id == id
}

impl LoopMoment {
    /// The request is where the executor is offered it, now or by a later move: it
    /// waits, loads, is being prefilled or decodes.
    pub open spec fn in_reach(self, id: RequestId) -> bool {
        ||| holds(self.state.deferred@, id)
        ||| holds(self.state.loading@, id)
        ||| holds(self.state.prefilling@, id)
        ||| self.state.inflight matches Some(pending) && holds(pending@, id)
        ||| runs(self.state.active@, id)
        ||| holds(self.packed, id)
    }

    /// The request arrived behind a control command and is held back.
    pub open spec fn held_back(self, id: RequestId) -> bool {
        holds(self.state.post_control_deferred@, id)
    }

    /// A loop that has done nothing yet.
    pub open spec fn fresh(self) -> bool {
        &&& forall|id: RequestId| !#[trigger] self.in_reach(id)
        &&& forall|id: RequestId| !#[trigger] self.held_back(id)
        &&& self.state.pending_control@.len() == 0
        &&& self.state.next_request_id == 0
    }
}

/// What an executor may do to a loop: it moves the requests that it runs among those
/// that run, and ends some. The others are not its own.
pub open spec fn executed(before: LoopMoment, after: LoopMoment) -> bool {
    &&& after.state.deferred == before.state.deferred
    &&& after.state.loading == before.state.loading
    &&& after.state.pending_control == before.state.pending_control
    &&& after.state.post_control_deferred == before.state.post_control_deferred
    &&& after.state.next_request_id == before.state.next_request_id
    &&& forall|id: RequestId| #[trigger] after.in_reach(id) ==> before.in_reach(id)
}

/// One move of a loop.
pub open spec fn moved(before: LoopMoment, m: LoopMove, after: LoopMoment) -> bool {
    match m {
        LoopMove::Enqueue(command) => after.packed == before.packed && before.state.enqueued(
            command,
            after.state,
        ),
        LoopMove::Reclaim(ready) => after.packed == before.packed && before.state.reclaimed(
            ready,
            after.state,
        ),
        LoopMove::Offer(started) => after.packed == before.packed && before.state.offers_settled(
            started,
            after.state,
        ),
        LoopMove::Control(handed) => after.packed == before.packed
            && before.state.control_drained(handed, after.state),
        LoopMove::Intake { limits, request_local, credits, adapters, intake } => after.packed
            == intake.pending@ && before.state.taken_in(
            limits,
            request_local,
            credits,
            adapters,
            intake,
            after.state,
        ),
        LoopMove::Execute => executed(before, after),
    }
}

/// The move takes a request in.
pub open spec fn generates(m: LoopMove) -> bool {
    m matches LoopMove::Enqueue(command) && command is Generate
}

/// A run of a loop from its start: what it did, and each moment in between.
pub open spec fn loop_history(moments: Seq<LoopMoment>, moves: Seq<LoopMove>) -> bool {
    &&& moments.len() == moves.len() + 1
    &&& moments[0].fresh()
    &&& forall|i: int|
        0 <= i < moves.len() ==> moved(moments[i], #[trigger] moves[i], moments[i + 1])
}

/// The control commands that arrived, in order.
pub open spec fn controls_in(moves: Seq<LoopMove>) -> Seq<EngineControlRequest>
    decreases moves.len(),
{
    if moves.len() == 0 {
        Seq::empty()
    } else {
        let before = controls_in(moves.drop_last());
        match moves.last() {
            LoopMove::Enqueue(EngineCommand::Control(control)) => before.push(control),
            _ => before,
        }
    }
}

/// The control commands that were handed out, in order.
pub open spec fn controls_out(moves: Seq<LoopMove>) -> Seq<EngineControlRequest>
    decreases moves.len(),
{
    if moves.len() == 0 {
        Seq::empty()
    } else {
        let before = controls_out(moves.drop_last());
        match moves.last() {
            LoopMove::Control(handed) => before + handed,
            _ => before,
        }
    }
}

proof fn lemma_filter_invents_nothing(
    s: Seq<PendingRequest>,
    p: spec_fn(PendingRequest) -> bool,
    id: RequestId,
)
    ensures
        holds(s.filter(p), id) ==> holds(s, id),
    decreases s.len(),
{
    reveal(Seq::filter);
    if s.len() > 0 {
        let rest = s.drop_last();
        lemma_filter_invents_nothing(rest, p, id);
        lemma_prefix_holds(rest, s, id);
        if holds(s.filter(p), id) {
            let i = choose|i: int|
                0 <= i < s.filter(p).len() && (#[trigger] s.filter(p)[i]).request_id == id;
            if i < rest.filter(p).len() {
                assert(rest.filter(p)[i].request_id == id);
            } else {
                assert(s[s.len() - 1].request_id == id);
            }
        }
    }
}

proof fn lemma_prefix_holds(a: Seq<PendingRequest>, b: Seq<PendingRequest>, id: RequestId)
    requires
        a.len() <= b.len(),
        forall|i: int| 0 <= i < a.len() ==> (#[trigger] a[i]).request_id == b[i].request_id,
    ensures
        holds(a, id) ==> holds(b, id),
{
    if holds(a, id) {
        let i = choose|i: int| 0 <= i < a.len() && (#[trigger] a[i]).request_id == id;
        assert(b[i].request_id == id);
    }
}

proof fn lemma_push_holds(s: Seq<PendingRequest>, r: PendingRequest, id: RequestId)
    ensures
        holds(s.push(r), id) <==> holds(s, id) || r.request_id == id,
{
    let t = s.push(r);
    if holds(s, id) {
        let i = choose|i: int| 0 <= i < s.len() && (#[trigger] s[i]).request_id == id;
        assert(t[i].request_id == id);
    }
    if r.request_id == id {
        assert(t[s.len() as int].request_id == id);
    }
    if holds(t, id) {
        let i = choose|i: int| 0 <= i < t.len() && (#[trigger] t[i]).request_id == id;
        if i < s.len() {
            assert(s[i].request_id == id);
        }
    }
}

proof fn lemma_concat_holds(a: Seq<PendingRequest>, b: Seq<PendingRequest>, id: RequestId)
    ensures
        holds(a + b, id) <==> holds(a, id) || holds(b, id),
{
    let t = a + b;
    if holds(a, id) {
        let i = choose|i: int| 0 <= i < a.len() && (#[trigger] a[i]).request_id == id;
        assert(t[i].request_id == id);
    }
    if holds(b, id) {
        let i = choose|i: int| 0 <= i < b.len() && (#[trigger] b[i]).request_id == id;
        assert(t[a.len() + i].request_id == id);
    }
    if holds(t, id) {
        let i = choose|i: int| 0 <= i < t.len() && (#[trigger] t[i]).request_id == id;
        if i < a.len() {
            assert(a[i].request_id == id);
        } else {
            assert(b[i - a.len()].request_id == id);
        }
    }
}

proof fn lemma_last_holds(s: Seq<PendingRequest>, id: RequestId)
    requires
        s.len() > 0,
    ensures
        holds(s, id) <==> holds(s.drop_last(), id) || s.last().request_id == id,
{
    assert(s =~= s.drop_last().push(s.last()));
    lemma_push_holds(s.drop_last(), s.last(), id);
}

proof fn lemma_first_holds(s: Seq<PendingRequest>, id: RequestId)
    requires
        s.len() > 0,
    ensures
        holds(s, id) <==> holds(s.drop_first(), id) || s[0].request_id == id,
{
    assert(s =~= seq![s[0]] + s.drop_first());
    lemma_concat_holds(seq![s[0]], s.drop_first(), id);
    assert(seq![s[0]][0] == s[0]);
}

proof fn lemma_admission_invents_nothing(
    reqs: Seq<PendingRequest>,
    budget: nat,
    slots: nat,
    limits: ExecutorLimits,
    credits: Map<u64, usize>,
    id: RequestId,
)
    ensures
        ({
            let end = admit_all(reqs, budget, slots, limits, credits);
            holds(end.pending, id) || holds(end.deferred, id) ==> holds(reqs, id)
        }),
    decreases reqs.len(),
{
    if reqs.len() > 0 {
        let before = admit_all(reqs.drop_last(), budget, slots, limits, credits);
        lemma_admission_invents_nothing(reqs.drop_last(), budget, slots, limits, credits, id);
        lemma_last_holds(reqs, id);
        lemma_push_holds(before.pending, reqs.last(), id);
        lemma_push_holds(before.deferred, reqs.last(), id);
    }
}

proof fn lemma_packing_invents_nothing(
    queue: Seq<PendingRequest>,
    budget: nat,
    max: nat,
    request_local: bool,
    id: RequestId,
)
    ensures
        holds(taken_of(queue, budget, max, request_local), id) || holds(
            left_of(queue, budget, max, request_local),
            id,
        ) ==> holds(queue, id),
    decreases queue.len(),
{
    if queue.len() > 0 && budget > 0 {
        let rest = queue.drop_first();
        lemma_first_holds(queue, id);
        match chunk_of(queue[0], budget, max, request_local) {
            Some(chunk) => {
                let after = (budget - chunk) as nat;
                lemma_packing_invents_nothing(rest, after, max, request_local, id);
                let head = seq![queue[0].with_chunk(chunk)];
                lemma_concat_holds(head, taken_of(rest, after, max, request_local), id);
            },
            None => {
                lemma_packing_invents_nothing(rest, budget, max, request_local, id);
                lemma_concat_holds(seq![queue[0]], left_of(rest, budget, max, request_local), id);
            },
        }
    }
}

proof fn lemma_sorting_invents_nothing(
    sorted: Seq<PendingRequest>,
    s: Seq<PendingRequest>,
    id: RequestId,
)
    requires
        stable_sort_of(sorted, s),
    ensures
        holds(sorted, id) ==> holds(s, id),
{
    if holds(sorted, id) {
        let p = |r: PendingRequest| r.request_id == id;
        let i = choose|i: int| 0 <= i < sorted.len() && (#[trigger] sorted[i]).request_id == id;
        sorted.lemma_filter_contains(p, i);
        assert(with_id(sorted, id) == with_id(s, id));
        s.lemma_filter_contains_rev(p, sorted[i]);
        let k = choose|k: int| 0 <= k < s.len() && s[k] == sorted[i];
        assert(s[k].request_id == id);
    }
}

proof fn lemma_offers_invent_nothing(s: Seq<PendingRequest>, started: Seq<bool>, id: RequestId)
    ensures
        holds(kept_of(s, started), id) || holds(started_of(s, started), id) ==> holds(s, id),
    decreases s.len(),
{
    if s.len() > 0 {
        lemma_offers_invent_nothing(s.drop_last(), started, id);
        lemma_last_holds(s, id);
        lemma_push_holds(kept_of(s.drop_last(), started), s.last().after_offer(), id);
        lemma_push_holds(started_of(s.drop_last(), started), s.last().after_offer(), id);
    }
}

proof fn lemma_position_holds(s: Seq<PendingRequest>, id: RequestId)
    ensures
        position_of(s, id) matches Some(i) ==> 0 <= i < s.len() && s[i].request_id == id,
    decreases s.len(),
{
    if s.len() > 0 {
        lemma_position_holds(s.drop_first(), id);
    }
}

proof fn lemma_promotion_invents_nothing(
    deferred: Seq<PendingRequest>,
    loading: Seq<PendingRequest>,
    ready: Seq<RequestId>,
    id: RequestId,
)
    ensures
        ({
            let after = promote_all(deferred, loading, ready);
            holds(after.0, id) || holds(after.1, id) ==> holds(deferred, id) || holds(loading, id)
        }),
    decreases ready.len(),
{
    if ready.len() > 0 {
        let before = promote_all(deferred, loading, ready.drop_last());
        lemma_promotion_invents_nothing(deferred, loading, ready.drop_last(), id);
        lemma_position_holds(before.1, ready.last());
        match position_of(before.1, ready.last()) {
            Some(i) => {
                lemma_concat_holds(seq![before.1[i]], before.0, id);
                let left = before.1.remove(i);
                if holds(left, id) {
                    let k = choose|k: int|
                        0 <= k < left.len() && (#[trigger] left[k]).request_id == id;
                    assert(before.1[if k < i {
                        k
                    } else {
                        k + 1
                    }].request_id == id);
                }
                assert(holds(seq![before.1[i]], id) ==> before.1[i].request_id == id);
            },
            None => {},
        }
    }
}

/// Only taking in a request, and releasing what was held back, brings a request into
/// the executor's reach.
proof fn lemma_moves_invent_nothing(
    before: LoopMoment,
    m: LoopMove,
    after: LoopMoment,
    id: RequestId,
)
    requires
        moved(before, m, after),
        after.in_reach(id),
    ensures
        ({
            ||| before.in_reach(id)
            ||| m is Control && before.held_back(id) && before.state.idle()
            ||| generates(m) && before.state.pending_control@.len() == 0 && id == RequestId(
                before.state.next_request_id,
            )
        }),
{
    let (s, t) = (before.state, after.state);
    match m {
        LoopMove::Enqueue(command) => {
            if let EngineCommand::Generate(req) = command {
                let fresh = PendingRequest::fresh(RequestId(s.next_request_id), *req);
                lemma_push_holds(s.deferred@, fresh, id);
            }
        },
        LoopMove::Reclaim(ready) => {
            lemma_promotion_invents_nothing(s.deferred@, s.loading@, ready, id);
        },
        LoopMove::Offer(started) => {
            lemma_offers_invent_nothing(s.deferred@, started, id);
            lemma_concat_holds(s.loading@, started_of(s.deferred@, started), id);
        },
        LoopMove::Control(_) => {},
        LoopMove::Intake { limits, request_local, credits, adapters, intake } => {
            lemma_intake_invents_nothing(
                s,
                limits,
                request_local,
                credits,
                adapters,
                intake,
                t,
                id,
            );
        },
        LoopMove::Execute => {},
    }
}

proof fn lemma_intake_invents_nothing(
    s: SchedulerState,
    limits: ExecutorLimits,
    request_local: bool,
    credits: Map<u64, usize>,
    adapters: Seq<String>,
    intake: StepIntake,
    t: SchedulerState,
    id: RequestId,
)
    requires
        s.taken_in(limits, request_local, credits, adapters, intake, t),
    ensures
        holds(t.deferred@, id) || holds(t.prefilling@, id) || holds(intake.pending@, id) ==> holds(
            s.deferred@,
            id,
        ) || holds(s.prefilling@, id),
{
    let p = |q: PendingRequest| adapter_known(q, adapters);
    let known = s.deferred@.filter(p);
    let budget = free_budget(s.active@, s.prefilling@, limits, credits);
    let slots = free_slots(s.active@.len(), s.prefilling@.len(), limits);
    let admission = admit_all(known, budget, slots, limits, credits);
    let queue = s.prefilling@ + admission.pending;
    let max = limits.max_prefill_tokens as nat;
    lemma_filter_invents_nothing(s.deferred@, p, id);
    lemma_admission_invents_nothing(known, budget, slots, limits, credits, id);
    lemma_concat_holds(s.prefilling@, admission.pending, id);
    lemma_packing_invents_nothing(queue, max, max, request_local, id);
    if s.inflight is None {
        lemma_sorting_invents_nothing(
            intake.pending@,
            taken_of(queue, max, max, request_local),
            id,
        );
    }
}

/// What holds between any two moves: every request has an id that was handed out,
/// nothing is held back without a control command to wait for, and what is held back
/// is out of the executor's reach.
pub open spec fn orderly(m: LoopMoment) -> bool {
    &&& forall|id: RequestId| #[trigger] m.in_reach(id) ==> id.0 < m.state.next_request_id
    &&& forall|id: RequestId| #[trigger]
        m.held_back(id) ==> id.0 < m.state.next_request_id && !m.in_reach(id)
            && m.state.pending_control@.len() > 0
}

proof fn lemma_moves_keep_order(before: LoopMoment, m: LoopMove, after: LoopMoment)
    requires
        moved(before, m, after),
        orderly(before),
    ensures
        orderly(after),
{
    let (s, t) = (before.state, after.state);
    assert(s.next_request_id <= t.next_request_id);
    assert forall|id: RequestId| #[trigger] after.in_reach(id) implies id.0
        < t.next_request_id by {
        lemma_moves_invent_nothing(before, m, after, id);
        assert(before.in_reach(id) ==> id.0 < s.next_request_id);
        assert(before.held_back(id) ==> id.0 < s.next_request_id);
    }
    assert forall|id: RequestId| #[trigger] after.held_back(id) implies id.0 < t.next_request_id
        && !after.in_reach(id) && t.pending_control@.len() > 0 by {
        if let LoopMove::Enqueue(EngineCommand::Generate(req)) = m {
            let fresh = PendingRequest::fresh(RequestId(s.next_request_id), *req);
            lemma_push_holds(s.post_control_deferred@, fresh, id);
        }
        match m {
            LoopMove::Control(_) => {
                assert(!s.idle());
                assert(before.held_back(id));
            },
            LoopMove::Enqueue(EngineCommand::Generate(_)) => {
                assert(before.held_back(id) || id == RequestId(s.next_request_id));
            },
            _ => {
                assert(before.held_back(id));
            },
        }
        assert(before.held_back(id) ==> !before.in_reach(id));
        assert(before.in_reach(id) ==> id.0 < s.next_request_id);
        if after.in_reach(id) {
            lemma_moves_invent_nothing(before, m, after, id);
        }
    }
}

/// How many requests arrived in a run of moves.
pub open spec fn requests_in(moves: Seq<LoopMove>) -> nat
    decreases moves.len(),
{
    if moves.len() == 0 {
        0
    } else {
        requests_in(moves.drop_last()) + (if generates(moves.last()) {
            1nat
        } else {
            0nat
        })
    }
}

/// Control commands are applied in the order they arrived, and generation never
/// overtakes them. At every moment of a run:
/// - the next request to arrive gets the number of those before it as its id;
/// - what was handed out, followed by what is still pending, is what arrived;
/// - a request that is held back behind a pending command is nowhere that the executor
///   is offered it.
///
/// And for every move of the run: commands are handed out only when no request is
/// active, deferred or prefilling; and a request that arrives while a command is
/// pending is held back.
pub proof fn lemma_generation_waits_for_control(
    moments: Seq<LoopMoment>,
    moves: Seq<LoopMove>,
    i: int,
)
    requires
        loop_history(moments, moves),
        0 <= i < moments.len(),
    ensures
        moments[i].state.next_request_id == requests_in(moves.take(i)),
        controls_out(moves.take(i)) + moments[i].state.pending_control@ == controls_in(
            moves.take(i),
        ),
        forall|id: RequestId| #[trigger]
            moments[i].held_back(id) ==> !moments[i].in_reach(id)
                && moments[i].state.pending_control@.len() > 0,
        i < moves.len() && moves[i] is Control && moves[i]->Control_0.len() > 0
            ==> moments[i].state.idle(),
        i < moves.len() && generates(moves[i]) && moments[i].state.pending_control@.len() > 0
            ==> moments[i + 1].held_back(RequestId(moments[i].state.next_request_id)),
{
    lemma_history_is_orderly(moments, moves, i);
    if i < moves.len() {
        assert(moved(moments[i], moves[i], moments[i + 1]));
        if let LoopMove::Enqueue(EngineCommand::Generate(req)) = moves[i] {
            let id = RequestId(moments[i].state.next_request_id);
            lemma_push_holds(
                moments[i].state.post_control_deferred@,
                PendingRequest::fresh(id, *req),
                id,
            );
        }
    }
}

proof fn lemma_history_is_orderly(moments: Seq<LoopMoment>, moves: Seq<LoopMove>, i: int)
    requires
        loop_history(moments, moves),
        0 <= i < moments.len(),
    ensures
        orderly(moments[i]),
        moments[i].state.next_request_id == requests_in(moves.take(i)),
        controls_out(moves.take(i)) + moments[i].state.pending_control@ == controls_in(
            moves.take(i),
        ),
    decreases i,
{
    if i == 0 {
        assert(moves.take(0) =~= Seq::<LoopMove>::empty());
        assert(controls_out(moves.take(0)) + moments[0].state.pending_control@ =~= controls_in(
            moves.take(0),
        ));
    } else {
        lemma_history_is_orderly(moments, moves, i - 1);
        let m = moves[i - 1];
        assert(moved(moments[i - 1], m, moments[i]));
        lemma_moves_keep_order(moments[i - 1], m, moments[i]);
        assert(moves.take(i).drop_last() =~= moves.take(i - 1));
        assert(moves.take(i).last() == m);
        assert(controls_out(moves.take(i)) + moments[i].state.pending_control@ =~= controls_in(
            moves.take(i),
        ));
    }
}

/// One phase of a loop: how it ended, and the state it left.
pub struct PhaseRecord {
    pub phase: LoopPhase,
    pub outcome: PhaseOutcome,
    pub after: SchedulerState,
}

/// Phase `i` is the one that follows phase `i - 1`.
pub open spec fn follows(phases: Seq<PhaseRecord>, i: int, with_control: bool) -> bool {
    let last = phases[i - 1];
    phases[i].phase == phase_after(last.after, last.phase, last.outcome, with_control)
}

/// Where phase `i` finds all handles gone, it is a wait for arrivals that took nothing
/// in.
pub open spec fn found_alone(phases: Seq<PhaseRecord>, i: int) -> bool {
    phases[i].outcome is HandlesDropped ==> i > 0 && phases[i].phase == LoopPhase::Wait(
        Wait::ForArrival,
    ) && phases[i].after == phases[i - 1].after
}

/// The phases of a loop from its start, in order.
pub open spec fn phase_history(phases: Seq<PhaseRecord>, with_control: bool) -> bool {
    &&& phases.len() > 0
    &&& phases[0].phase == LoopPhase::Publish
    &&& forall|i: int| 1 <= i < phases.len() ==> #[trigger] follows(phases, i, with_control)
    &&& forall|i: int| 0 <= i < phases.len() ==> #[trigger] found_alone(phases, i)
}

/// Every handle was dropped when phase `j` waited, and nothing was active or loading.
pub open spec fn done_at(phases: Seq<PhaseRecord>, j: int, with_control: bool) -> bool {
    let state = phases[j].after;
    &&& phases[j].outcome is HandlesDropped
    &&& state.active@.len() == 0
    &&& state.loading@.len() == 0
    &&& !with_control ==> state.deferred@.len() == 0 && state.prefilling@.len() == 0
}

/// A loop ends only once every handle was dropped, and then nothing is active or
/// loading. A loop without control commands leaves nothing deferred or prefilling
/// either.
pub proof fn lemma_exits_only_when_done(phases: Seq<PhaseRecord>, with_control: bool, i: int)
    requires
        phase_history(phases, with_control),
        0 <= i < phases.len(),
        phases[i].phase is Exit,
    ensures
        exists|j: int| 0 <= j < i && #[trigger] done_at(phases, j, with_control),
    decreases i,
{
    assert(i > 0);
    assert(follows(phases, i, with_control));
    if phases[i - 1].phase is Exit {
        lemma_exits_only_when_done(phases, with_control, i - 1);
        let j = choose|j: int| 0 <= j < i - 1 && #[trigger] done_at(phases, j, with_control);
        assert(done_at(phases, j, with_control));
    } else {
        assert(found_alone(phases, i - 1));
        assert(follows(phases, i - 1, with_control));
        assert(done_at(phases, i - 1, with_control));
    }
}

} // verus!
