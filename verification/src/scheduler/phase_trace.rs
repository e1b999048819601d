//! The phases of each traced request: one open span at a time, under the request's own
//! trace context. A request without a context is not traced.
use fastrace::collector::SpanContext;
use fastrace::Span;
use vstd::prelude::*;
use crate::scheduler::request::RequestId;
use crate::tracing::{begin, begun};

verus! {

/// Where a request is on its way through the scheduler.
#[derive(Clone, Copy, Debug, PartialEq, Eq, Structural)]
pub enum TracePhase {
    Queue,
    Prefill,
    Decode,
}

impl TracePhase {
    /// The name of the phase's span.
    pub open spec fn name_spec(self) -> &'static str {
        match self {
            TracePhase::Queue => "queue",
            TracePhase::Prefill => "prefill",
            TracePhase::Decode => "decode",
        }
    }

    pub fn name(self) -> (name: &'static str)
        ensures
            name == self.name_spec(),
    {
        match self {
            TracePhase::Queue => "queue",
            TracePhase::Prefill => "prefill",
            TracePhase::Decode => "decode",
        }
    }

    /// This phase comes before that one.
    pub open spec fn precedes(self, other: TracePhase) -> bool {
        match other {
            TracePhase::Queue => false,
            TracePhase::Prefill => self is Queue,
            TracePhase::Decode => !(self is Decode),
        }
    }

    fn is_before(self, other: TracePhase) -> (r: bool)
        ensures
            r == self.precedes(other),
    {
        match (self, other) {
            (TracePhase::Queue, TracePhase::Prefill) => true,
            (TracePhase::Queue, TracePhase::Decode) => true,
            (TracePhase::Prefill, TracePhase::Decode) => true,
            _ => false,
        }
    }
}

/// The open span of a traced request.
pub struct OpenPhase {
    pub parent: SpanContext,
    pub phase: TracePhase,
    /// It ends when it is dropped.
    pub span: Span,
}

/// A traced request that is in a phase: its span was begun under the phase's name and
/// the request's context.
pub open spec fn in_phase(open: OpenPhase, parent: SpanContext, phase: TracePhase) -> bool {
    &&& open.parent == parent
    &&& open.phase == phase
    &&& begun(phase.name_spec(), parent, open.span)
}

/// The open spans of the traced requests.
pub struct PhaseTracker {
    ids: Vec<RequestId>,
    open: Vec<OpenPhase>,
}

impl View for PhaseTracker {
    type V = Map<RequestId, OpenPhase>;

    closed spec fn view(&self) -> Map<RequestId, OpenPhase> {
        Map::new(
            |id: RequestId| self.ids@.contains(id),
            |id: RequestId| self.open@[self.ids@.index_of(id)],
        )
    }
}

/// What entering the queue comes to: a request without a trace context is left alone.
pub open spec fn queued(
    before: Map<RequestId, OpenPhase>,
    id: RequestId,
    parent: Option<SpanContext>,
    after: Map<RequestId, OpenPhase>,
) -> bool {
    match parent {
        Some(context) => exists|open: OpenPhase| #[trigger]
            in_phase(open, context, TracePhase::Queue) && after == before.insert(id, open),
        None => after == before,
    }
}

/// What entering a later phase comes to: the span of the phase before it ends, and a new
/// one is begun. A request that is not traced, or already that far, is left alone.
pub open spec fn advanced(
    before: Map<RequestId, OpenPhase>,
    id: RequestId,
    phase: TracePhase,
    after: Map<RequestId, OpenPhase>,
) -> bool {
    if before.contains_key(id) && before[id].phase.precedes(phase) {
        exists|open: OpenPhase| #[trigger]
            in_phase(open, before[id].parent, phase) && after == before.insert(id, open)
    } else {
        after == before
    }
}

impl PhaseTracker {
    /// Every traced request has one open span.
    pub closed spec fn well_formed(self) -> bool {
        &&& self.ids@.len() == self.open@.len()
        &&& self.ids@.no_duplicates()
    }

    pub fn new() -> (r: Self)
        ensures
            r.well_formed(),
            r@ == Map::<RequestId, OpenPhase>::empty(),
    {
        let r = PhaseTracker { ids: Vec::new(), open: Vec::new() };
        assert(r@ =~= Map::<RequestId, OpenPhase>::empty());
        r
    }

    fn position(&self, id: RequestId) -> (r: Option<usize>)
        requires
            self.well_formed(),
        ensures
            match r {
                Some(i) => i < self.ids@.len() && self.ids@[i as int] == id
                    && self@.contains_key(id) && self@[id] == self.open@[i as int],
                None => !self@.contains_key(id),
            },
    {
        let mut i: usize = 0;
        while i < self.ids.len()
            invariant
                i <= self.ids.len(),
                self.well_formed(),
                forall|k: int| 0 <= k < i ==> (#[trigger] self.ids@[k]) != id,
            decreases self.ids.len() - i,
        {
            if self.ids[i] == id {
                assert(self.ids@[i as int] == id);
                return Some(i);
            }
            i = i + 1;
        }
        None
    }

    /// Which request is traced, and in which phase it is.
    pub fn phase_of(&self, id: RequestId) -> (r: Option<TracePhase>)
        requires
            self.well_formed(),
        ensures
            r == (if self@.contains_key(id) {
                Some(self@[id].phase)
            } else {
                None
            }),
    {
        match self.position(id) {
            Some(i) => Some(self.open[i].phase),
            None => None,
        }
    }

    /// A request came in: opens its queue span, where it is traced.
    pub fn enter_queue(&mut self, id: RequestId, parent: Option<SpanContext>)
        requires
            old(self).well_formed(),
        ensures
            final(self).well_formed(),
            queued(old(self)@, id, parent, final(self)@),
    {
        match parent {
            Some(context) => {
                self.finish(id);
                let ghost rest = *self;
                let phase = TracePhase::Queue;
                let span = begin(phase.name(), context);
                let open = OpenPhase { parent: context, phase, span };
                let ghost entered = open;
                self.ids.push(id);
                self.open.push(open);
                proof {
                    assert(in_phase(entered, context, TracePhase::Queue));
                    lemma_pushed(rest, id, entered, *self);
                    assert(old(self)@.remove(id).insert(id, entered) =~= old(self)@.insert(
                        id,
                        entered,
                    ));
                }
            },
            None => {},
        }
    }

    fn advance(&mut self, id: RequestId, phase: TracePhase)
        requires
            old(self).well_formed(),
        ensures
            final(self).well_formed(),
            advanced(old(self)@, id, phase, final(self)@),
    {
        match self.position(id) {
            Some(i) => {
                if self.open[i].phase.is_before(phase) {
                    let parent = self.open[i].parent;
                    let span = begin(phase.name(), parent);
                    let open = OpenPhase { parent, phase, span };
                    let ghost entered = open;
                    self.open.set(i, open);
                    proof {
                        assert(in_phase(entered, parent, phase));
                        assert forall|k: RequestId| #[trigger] self@.contains_key(
                            k,
                        ) implies self@[k] == old(self)@.insert(id, entered)[k] by {
                            let at = self.ids@.index_of(k);
                            assert(self.ids@[at] == k);
                            assert(self.ids@.index_of(id) == i);
                        }
                        assert(self@ =~= old(self)@.insert(id, entered));
                    }
                }
            },
            None => {},
        }
    }

    /// The request's prompt work begins: ends its queue span and opens its prefill span.
    /// Later chunks of the same prompt change nothing.
    pub fn enter_prefill(&mut self, id: RequestId)
        requires
            old(self).well_formed(),
        ensures
            final(self).well_formed(),
            advanced(old(self)@, id, TracePhase::Prefill, final(self)@),
    {
        self.advance(id, TracePhase::Prefill);
    }

    /// The request has its first token: opens its decode span.
    pub fn enter_decode(&mut self, id: RequestId)
        requires
            old(self).well_formed(),
        ensures
            final(self).well_formed(),
            advanced(old(self)@, id, TracePhase::Decode, final(self)@),
    {
        self.advance(id, TracePhase::Decode);
    }

    /// The request is over, however it ended: ends its open span and forgets it.
    pub fn finish(&mut self, id: RequestId)
        requires
            old(self).well_formed(),
        ensures
            final(self).well_formed(),
            final(self)@ == old(self)@.remove(id),
    {
        match self.position(id) {
            Some(i) => {
                self.ids.remove(i);
                self.open.remove(i);
                proof {
                    lemma_removed(*old(self), i as int, *self);
                }
            },
            None => {
                assert(self@.remove(id) =~= self@);
            },
        }
    }
}

proof fn lemma_pushed(before: PhaseTracker, id: RequestId, open: OpenPhase, after: PhaseTracker)
    requires
        before.well_formed(),
        !before@.contains_key(id),
        after.ids@ == before.ids@.push(id),
        after.open@ == before.open@.push(open),
    ensures
        after.well_formed(),
        after@ == before@.insert(id, open),
{
    assert(!before.ids@.contains(id));
    assert(after.ids@.last() == id);
    assert forall|k: RequestId| #[trigger] after@.contains_key(k) == before@.insert(
        id,
        open,
    ).contains_key(k) by {
        if before.ids@.contains(k) {
            let at = before.ids@.index_of(k);
            assert(after.ids@[at] == k);
        }
    }
    assert forall|k: RequestId| #[trigger] after@.contains_key(k) implies after@[k]
        == before@.insert(id, open)[k] by {
        let at = after.ids@.index_of(k);
        assert(after.ids@[at] == k);
        if k != id {
            assert(before.ids@[at] == k);
            assert(before.ids@.index_of(k) == at);
        }
    }
    assert(after@ =~= before@.insert(id, open));
}

proof fn lemma_removed(before: PhaseTracker, i: int, after: PhaseTracker)
    requires
        before.well_formed(),
        0 <= i < before.ids@.len(),
        after.ids@ == before.ids@.remove(i),
        after.open@ == before.open@.remove(i),
    ensures
        after.well_formed(),
        after@ == before@.remove(before.ids@[i]),
{
    let id = before.ids@[i];
    assert forall|k: RequestId| #[trigger] after@.contains_key(k) == before@.remove(
        id,
    ).contains_key(k) by {
        if before.ids@.contains(k) && k != id {
            let at = before.ids@.index_of(k);
            assert(after.ids@[if at < i {
                at
            } else {
                at - 1
            }] == k);
        }
        if after.ids@.contains(k) {
            let at = after.ids@.index_of(k);
            assert(before.ids@[if at < i {
                at
            } else {
                at + 1
            }] == k);
        }
    }
    assert forall|k: RequestId| #[trigger] after@.contains_key(k) implies after@[k]
        == before@.remove(id)[k] by {
        let at = after.ids@.index_of(k);
        assert(after.ids@[at] == k);
        let from = if at < i {
            at
        } else {
            at + 1
        };
        assert(before.ids@[from] == k);
        assert(before.ids@.index_of(k) == from);
    }
    assert(after@ =~= before@.remove(id));
}

/// The phases come one after the other: none precedes itself, of two different ones
/// exactly one precedes the other, and the order is queue, prefill, decode. Each has a
/// name of its own.
pub proof fn lemma_phases_are_ordered(a: TracePhase, b: TracePhase)
    ensures
        !a.precedes(a),
        a != b ==> (a.precedes(b) <==> !b.precedes(a)),
        TracePhase::Queue.precedes(TracePhase::Prefill),
        TracePhase::Prefill.precedes(TracePhase::Decode),
        TracePhase::Queue.precedes(TracePhase::Decode),
        a != b ==> a.name_spec()@ != b.name_spec()@,
{
    reveal_strlit("queue");
    reveal_strlit("prefill");
    reveal_strlit("decode");
    assert("queue"@.len() == 5);
    assert("prefill"@.len() == 7);
    assert("decode"@.len() == 6);
}

/// Entering a phase never takes a request back, never begins to trace one that was not
/// traced, and touches no other. The request is then in that phase or further, under the
/// context it came with.
pub proof fn lemma_phases_only_advance(
    before: Map<RequestId, OpenPhase>,
    id: RequestId,
    phase: TracePhase,
    after: Map<RequestId, OpenPhase>,
    other: RequestId,
)
    requires
        advanced(before, id, phase, after),
    ensures
        after.dom() == before.dom(),
        other != id && before.contains_key(other) ==> after[other] == before[other],
        before.contains_key(id) ==> {
            &&& after[id].parent == before[id].parent
            &&& !after[id].phase.precedes(phase)
            &&& !after[id].phase.precedes(before[id].phase)
            &&& after[id].phase == phase || after[id] == before[id]
        },
{
    assert(after.dom() =~= before.dom());
}

/// A traced request enters in the queue phase, under the context it came with; one without
/// a context is not traced. No other is touched.
pub proof fn lemma_traced_requests_begin_in_the_queue(
    before: Map<RequestId, OpenPhase>,
    id: RequestId,
    parent: Option<SpanContext>,
    after: Map<RequestId, OpenPhase>,
    other: RequestId,
)
    requires
        queued(before, id, parent, after),
    ensures
        parent is None ==> after == before,
        parent matches Some(context) ==> after.contains_key(id) && after[id].parent == context
            && after[id].phase == TracePhase::Queue,
        other != id ==> (after.contains_key(other) <==> before.contains_key(other)),
        other != id && before.contains_key(other) ==> after[other] == before[other],
{
}

} // verus!
