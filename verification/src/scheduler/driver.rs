//! The order in which a scheduler loop does its work.
use vstd::prelude::*;
use crate::scheduler::step::{SchedulerState, Wait};

verus! {

/// What a scheduler loop does next.
#[derive(Clone, Copy, Debug, PartialEq, Eq, Structural)]
pub enum LoopPhase {
    /// Publish the load, and flush the cache events of the last step.
    Publish,
    /// Ask whether the prefill in flight completed, and resolve it if so.
    PollPrefill,
    /// Take in everything that arrived.
    Drain,
    /// Take back the requests whose prefetch settled.
    Reclaim,
    /// Offer fresh requests to prefetch.
    Offer,
    /// Carry out the control commands that waited for an idle engine.
    Control,
    /// Block.
    Wait(Wait),
    /// Reject, admit, and pack the next prefill.
    Intake,
    /// Plan a step and run it.
    Step,
    Exit,
}

/// How a phase ended.
#[derive(Clone, Copy, Debug, PartialEq, Eq, Structural)]
pub enum PhaseOutcome {
    Done,
    /// Every handle is gone: nothing will ever arrive.
    HandlesDropped,
    /// An intake packed this many requests.
    Packed(usize),
}

/// What a wait would be for, were there nothing to run.
pub open spec fn wait_of(state: SchedulerState) -> Wait {
    if state.loading@.len() > 0 {
        Wait::ForPrefetch
    } else {
        Wait::ForArrival
    }
}

/// The phase once arrivals, prefetches and control commands are settled.
pub open spec fn settled_phase(state: SchedulerState) -> LoopPhase {
    if state.idle() {
        LoopPhase::Wait(wait_of(state))
    } else {
        LoopPhase::Intake
    }
}

/// The phase that follows another one. A loop that takes control commands offers
/// no prefetch while one is pending, and blocks where an intake left nothing to
/// run.
pub open spec fn phase_after(
    state: SchedulerState,
    phase: LoopPhase,
    outcome: PhaseOutcome,
    with_control: bool,
) -> LoopPhase {
    match phase {
        LoopPhase::Publish => if state.inflight is Some {
            LoopPhase::PollPrefill
        } else {
            LoopPhase::Drain
        },
        LoopPhase::PollPrefill => LoopPhase::Drain,
        LoopPhase::Drain => LoopPhase::Reclaim,
        LoopPhase::Reclaim => if state.pending_control@.len() == 0 {
            LoopPhase::Offer
        } else {
            LoopPhase::Control
        },
        LoopPhase::Offer => if with_control {
            LoopPhase::Control
        } else {
            settled_phase(state)
        },
        LoopPhase::Control => settled_phase(state),
        LoopPhase::Wait(_) => if outcome is HandlesDropped {
            LoopPhase::Exit
        } else {
            LoopPhase::Publish
        },
        LoopPhase::Intake => if with_control && state.active@.len() == 0 && outcome
            == PhaseOutcome::Packed(0) {
            LoopPhase::Wait(wait_of(state))
        } else {
            LoopPhase::Step
        },
        LoopPhase::Step => LoopPhase::Publish,
        LoopPhase::Exit => LoopPhase::Exit,
    }
}

impl SchedulerState {
    fn settled(&self) -> (next: LoopPhase)
        ensures
            next == settled_phase(*self),
    {
        match self.idle_wait() {
            Wait::Nothing => LoopPhase::Intake,
            wait => LoopPhase::Wait(wait),
        }
    }

    /// What the loop does after a phase.
    pub fn next_phase(&self, phase: LoopPhase, outcome: PhaseOutcome, with_control: bool) -> (next:
        LoopPhase)
        ensures
            next == phase_after(*self, phase, outcome, with_control),
    {
        match phase {
            LoopPhase::Publish => if self.inflight.is_some() {
                LoopPhase::PollPrefill
            } else {
                LoopPhase::Drain
            },
            LoopPhase::PollPrefill => LoopPhase::Drain,
            LoopPhase::Drain => LoopPhase::Reclaim,
            LoopPhase::Reclaim => if self.may_offer_prefetch() {
                LoopPhase::Offer
            } else {
                LoopPhase::Control
            },
            LoopPhase::Offer => if with_control {
                LoopPhase::Control
            } else {
                self.settled()
            },
            LoopPhase::Control => self.settled(),
            LoopPhase::Wait(_) => match outcome {
                PhaseOutcome::HandlesDropped => LoopPhase::Exit,
                _ => LoopPhase::Publish,
            },
            LoopPhase::Intake => {
                let packed_none: bool = match outcome {
                    PhaseOutcome::Packed(n) => n == 0,
                    _ => false,
                };
                if with_control && self.active.is_empty() && packed_none {
                    if self.loading.is_empty() {
                        LoopPhase::Wait(Wait::ForArrival)
                    } else {
                        LoopPhase::Wait(Wait::ForPrefetch)
                    }
                } else {
                    LoopPhase::Step
                }
            },
            LoopPhase::Step => LoopPhase::Publish,
            LoopPhase::Exit => LoopPhase::Exit,
        }
    }
}

/// The loop never blocks while a request decodes, and never blocks on arrivals
/// while a prefetch is under way.
pub proof fn lemma_waits_only_when_nothing_runs(
    state: SchedulerState,
    phase: LoopPhase,
    outcome: PhaseOutcome,
    with_control: bool,
)
    ensures
        phase_after(state, phase, outcome, with_control) is Wait ==> state.active@.len() == 0,
        phase_after(state, phase, outcome, with_control) == LoopPhase::Wait(Wait::ForArrival)
            ==> state.loading@.len() == 0,
{
}

/// Where each phase can come from. A step follows an intake, unless a loop that takes
/// control commands packed nothing and decodes nothing; an intake follows settled arrivals
/// while there is work; a wait follows them when there is none; prefetch is offered only
/// while no control command is pending; and only a wait that finds every handle gone ends
/// the loop.
pub proof fn lemma_phase_order(
    state: SchedulerState,
    phase: LoopPhase,
    outcome: PhaseOutcome,
    with_control: bool,
)
    ensures
        ({
            let next = phase_after(state, phase, outcome, with_control);
            let nothing_runs = with_control && state.active@.len() == 0 && outcome
                == PhaseOutcome::Packed(0);
            let no_work = state.active@.len() == 0 && state.deferred@.len() == 0
                && state.prefilling@.len() == 0;
            let settled = phase is Control || (phase is Offer && !with_control);
            &&& next is Publish <==> phase is Step || (phase is Wait && !(outcome
                is HandlesDropped))
            &&& next is PollPrefill <==> phase is Publish && state.inflight is Some
            &&& next is Drain <==> phase is PollPrefill || (phase is Publish && state.inflight
                is None)
            &&& next is Reclaim <==> phase is Drain
            &&& next is Offer <==> phase is Reclaim && state.pending_control@.len() == 0
            &&& next is Control <==> (phase is Reclaim && state.pending_control@.len() > 0) || (
            phase is Offer && with_control)
            &&& next is Intake <==> settled && !no_work
            &&& next is Wait <==> (settled && no_work) || (phase is Intake && nothing_runs)
            &&& next is Step <==> phase is Intake && !nothing_runs
            &&& next is Exit <==> phase is Exit || (phase is Wait && outcome is HandlesDropped)
            &&& next matches LoopPhase::Wait(wait) ==> (wait == Wait::ForPrefetch
                <==> state.loading@.len() > 0) && (wait == Wait::ForArrival
                <==> state.loading@.len() == 0)
        }),
{
}

} // verus!
