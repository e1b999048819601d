//! Per-request demux state, keyed by request tag.
use std::sync::atomic::AtomicU8;
use std::sync::Arc;
use fastrace::Span;
use vstd::prelude::*;
use vstd::string::*;
use crate::bridge::output::{vec_option, EngineCoreEvent, PrefillStats};
use crate::engine::{stored_into, RequestAbortReason};
use crate::text::same_text;

verus! {

/// Per-request demux state. `first_token_*` flush onto the request's first
/// output; `abort_reason` is the cell the scheduler's sink checks, so an abort
/// retires the request without closing the shared channel.
pub struct RequestStreamState {
    pub first_token_events: Option<Vec<EngineCoreEvent>>,
    pub first_token_prefill_stats: Option<PrefillStats>,
    /// Handoff metadata can arrive in a burst with no token or terminal event,
    /// so it is retained until the next output carries it to the router.
    pub kv_transfer_params: Option<serde_json::Value>,
    /// The text decoder removes the final token from a stop-finished output. An
    /// EOS or explicit stop token is kept as that removable sentinel.
    pub stop_sentinel_id: Option<u32>,
    pub abort_reason: Arc<AtomicU8>,
    pub has_emitted_tokens: bool,
    /// The root span of the request, from its submission to its end. It is held so that
    /// it ends, and its trace closes, when this state is dropped.
    pub trace_root: Span,
}

/// A request's demux state, by value.
pub struct StreamView {
    pub events: Option<Seq<EngineCoreEvent>>,
    pub stats: Option<PrefillStats>,
    pub kv_transfer: Option<serde_json::Value>,
    pub sentinel: Option<u32>,
    pub cell: Arc<AtomicU8>,
    pub emitted: bool,
    pub trace_root: Span,
}

impl View for RequestStreamState {
    type V = StreamView;

    open spec fn view(&self) -> StreamView {
        StreamView {
            events: vec_option(self.first_token_events),
            stats: self.first_token_prefill_stats,
            kv_transfer: self.kv_transfer_params,
            sentinel: self.stop_sentinel_id,
            cell: self.abort_reason,
            emitted: self.has_emitted_tokens,
            trace_root: self.trace_root,
        }
    }
}

/// The reason an abort is recorded with: before the first token reached the
/// frontend it is a disconnect, after it a stream cancellation. Scheduled
/// metadata alone does not prove a client-visible token.
pub open spec fn abort_reason_for(emitted: bool) -> RequestAbortReason {
    if emitted {
        RequestAbortReason::Cancelled
    } else {
        RequestAbortReason::Disconnected
    }
}

/// The reason was published to the sink of this stream's request.
pub open spec fn marked(stream: StreamView, reason: RequestAbortReason) -> bool {
    stored_into(*stream.cell, reason.raw_spec())
}

impl RequestStreamState {
    pub fn new(
        abort_reason: Arc<AtomicU8>,
        trace_root: Span,
        stop_sentinel_id: Option<u32>,
    ) -> (r: Self)
        ensures
            r@ == (StreamView {
                events: None,
                stats: None,
                kv_transfer: None,
                sentinel: stop_sentinel_id,
                cell: abort_reason,
                emitted: false,
                trace_root,
            }),
    {
        RequestStreamState {
            first_token_events: None,
            first_token_prefill_stats: None,
            kv_transfer_params: None,
            stop_sentinel_id,
            abort_reason,
            has_emitted_tokens: false,
            trace_root,
        }
    }

    /// Publishes the reason to the request's sink.
    pub fn abort(&self, reason: RequestAbortReason)
        ensures
            marked(self@, reason),
    {
        reason.store(&self.abort_reason);
    }

    /// The reason an abort of this request is recorded with.
    pub fn reason_for_abort(&self) -> (r: RequestAbortReason)
        ensures
            r == abort_reason_for(self.has_emitted_tokens),
    {
        if self.has_emitted_tokens {
            RequestAbortReason::Cancelled
        } else {
            RequestAbortReason::Disconnected
        }
    }
}

/// The live streams, one per request tag.
pub struct StreamTable {
    tags: Vec<String>,
    states: Vec<RequestStreamState>,
}

impl View for StreamTable {
    type V = Map<Seq<char>, StreamView>;

    closed spec fn view(&self) -> Map<Seq<char>, StreamView> {
        Map::new(
            |tag: Seq<char>| exists|i: int| 0 <= i < self.tags@.len() && (#[trigger] self.tags@[i])@ == tag,
            |tag: Seq<char>|
                self.states@[choose|i: int|
                    0 <= i < self.tags@.len() && (#[trigger] self.tags@[i])@ == tag]@,
        )
    }
}

impl StreamTable {
    /// No tag has two streams.
    pub closed spec fn well_formed(self) -> bool {
        &&& self.tags@.len() == self.states@.len()
        &&& forall|i: int, j: int|
            0 <= i < j < self.tags@.len() ==> (#[trigger] self.tags@[i])@ != (
            #[trigger] self.tags@[j])@
    }

    proof fn lemma_at(self, i: int)
        requires
            self.well_formed(),
            0 <= i < self.tags@.len(),
        ensures
            self@.contains_key(self.tags@[i]@),
            self@[self.tags@[i]@] == self.states@[i]@,
    {
        let tag = self.tags@[i]@;
        let k = choose|k: int| 0 <= k < self.tags@.len() && (#[trigger] self.tags@[k])@ == tag;
        assert(0 <= k < self.tags@.len() && self.tags@[k]@ == tag);
        assert(k == i);
    }

    pub fn new() -> (r: Self)
        ensures
            r.well_formed(),
            r@ == Map::<Seq<char>, StreamView>::empty(),
    {
        let r = StreamTable { tags: Vec::new(), states: Vec::new() };
        assert(r@ =~= Map::<Seq<char>, StreamView>::empty());
        r
    }

    fn position(&self, tag: &str) -> (r: Option<usize>)
        requires
            self.well_formed(),
        ensures
            match r {
                Some(i) => i < self.tags@.len() && self.tags@[i as int]@ == tag@,
                None => !self@.contains_key(tag@),
            },
    {
        let mut i: usize = 0;
        while i < self.tags.len()
            invariant
                i <= self.tags.len(),
                forall|k: int| 0 <= k < i ==> (#[trigger] self.tags@[k])@ != tag@,
            decreases self.tags.len() - i,
        {
            if same_text(self.tags[i].as_str(), tag) {
                return Some(i);
            }
            i = i + 1;
        }
        None
    }

    pub fn len(&self) -> (r: usize)
        ensures
            r == self.count(),
    {
        self.tags.len()
    }

    /// How many streams are live.
    pub closed spec fn count(self) -> nat {
        self.tags@.len()
    }

    pub fn contains_key(&self, tag: &str) -> (r: bool)
        requires
            self.well_formed(),
        ensures
            r == self@.contains_key(tag@),
    {
        match self.position(tag) {
            Some(i) => {
                proof {
                    self.lemma_at(i as int);
                }
                true
            },
            None => false,
        }
    }

    pub fn get(&self, tag: &str) -> (r: Option<&RequestStreamState>)
        requires
            self.well_formed(),
        ensures
            match r {
                Some(state) => self@.contains_key(tag@) && state@ == self@[tag@],
                None => !self@.contains_key(tag@),
            },
    {
        match self.position(tag) {
            Some(i) => {
                proof {
                    self.lemma_at(i as int);
                }
                Some(&self.states[i])
            },
            None => None,
        }
    }

    /// Removes a stream and hands its state out.
    pub fn remove(&mut self, tag: &str) -> (r: Option<RequestStreamState>)
        requires
            old(self).well_formed(),
        ensures
            final(self).well_formed(),
            final(self)@ == old(self)@.remove(tag@),
            match r {
                Some(state) => old(self)@.contains_key(tag@) && state@ == old(self)@[tag@],
                None => !old(self)@.contains_key(tag@) && final(self)@ == old(self)@,
            },
    {
        match self.position(tag) {
            Some(i) => {
                let ghost before = *self;
                proof {
                    before.lemma_at(i as int);
                }
                let _ = self.tags.swap_remove(i);
                let state = self.states.swap_remove(i);
                proof {
                    let last = before.tags@.len() - 1;
                    let after = *self;
                    assert(after.tags@.len() == last);
                    assert(forall|k: int|
                        0 <= k < last ==> #[trigger] after.tags@[k] == before.tags@[if k == i {
                            last
                        } else {
                            k
                        }]);
                    assert(after.well_formed());
                    assert forall|t: Seq<char>|
                        after@.contains_key(t) == before@.remove(tag@).contains_key(t) by {
                        if before@.contains_key(t) && t != tag@ {
                            let k = choose|k: int|
                                0 <= k < before.tags@.len() && (#[trigger] before.tags@[k])@ == t;
                            assert(0 <= k < before.tags@.len() && before.tags@[k]@ == t);
                            if k == last {
                                assert(after.tags@[i as int]@ == t);
                            } else {
                                assert(after.tags@[k]@ == t);
                            }
                        }
                        if after@.contains_key(t) {
                            let k = choose|k: int|
                                0 <= k < after.tags@.len() && (#[trigger] after.tags@[k])@ == t;
                            assert(0 <= k < after.tags@.len() && after.tags@[k]@ == t);
                            let b = if k == i {
                                last
                            } else {
                                k
                            };
                            assert(before.tags@[b]@ == t);
                        }
                    }
                    assert forall|t: Seq<char>| after@.contains_key(t) implies after@[t]
                        == before@.remove(tag@)[t] by {
                        let k = choose|k: int|
                            0 <= k < after.tags@.len() && (#[trigger] after.tags@[k])@ == t;
                        assert(0 <= k < after.tags@.len() && after.tags@[k]@ == t);
                        after.lemma_at(k);
                        before.lemma_at(
                            if k == i {
                                last
                            } else {
                                k
                            },
                        );
                    }
                    assert(after@ =~= before@.remove(tag@));
                }
                Some(state)
            },
            None => {
                assert(self@ =~= self@.remove(tag@));
                None
            },
        }
    }

    /// Registers a stream, replacing one of the same tag.
    pub fn insert(&mut self, tag: &str, state: RequestStreamState)
        requires
            old(self).well_formed(),
        ensures
            final(self).well_formed(),
            final(self)@ == old(self)@.insert(tag@, state@),
    {
        let _ = self.remove(tag);
        let ghost before = *self;
        self.tags.push(tag.to_owned());
        self.states.push(state);
        proof {
            let after = *self;
            let last = before.tags@.len() as int;
            assert forall|i: int, j: int| 0 <= i < j < after.tags@.len() implies (
            #[trigger] after.tags@[i])@ != (#[trigger] after.tags@[j])@ by {
                if j == last {
                    assert(before.tags@[i] == after.tags@[i]);
                    before.lemma_at(i);
                }
            }
            assert(after.well_formed());
            assert forall|t: Seq<char>|
                after@.contains_key(t) == before@.insert(tag@, state@).contains_key(t) by {
                if before@.contains_key(t) {
                    let k = choose|k: int|
                        0 <= k < before.tags@.len() && (#[trigger] before.tags@[k])@ == t;
                    assert(0 <= k < before.tags@.len() && before.tags@[k]@ == t);
                    assert(after.tags@[k]@ == t);
                }
                if t == tag@ {
                    assert(after.tags@[last]@ == t);
                }
                if after@.contains_key(t) && t != tag@ {
                    let k = choose|k: int|
                        0 <= k < after.tags@.len() && (#[trigger] after.tags@[k])@ == t;
                    assert(0 <= k < after.tags@.len() && after.tags@[k]@ == t);
                    assert(before.tags@[k]@ == t);
                }
            }
            assert forall|t: Seq<char>| after@.contains_key(t) implies after@[t]
                == before@.insert(tag@, state@)[t] by {
                let k = choose|k: int|
                    0 <= k < after.tags@.len() && (#[trigger] after.tags@[k])@ == t;
                assert(0 <= k < after.tags@.len() && after.tags@[k]@ == t);
                after.lemma_at(k);
                if k < last {
                    before.lemma_at(k);
                }
            }
            assert(after@ =~= before@.insert(tag@, state@));
            assert(after@ =~= old(self)@.insert(tag@, state@));
        }
    }

    /// Cancels every live stream, so that the scheduler retires its request
    /// instead of pushing into a channel no one drains. Returns how many.
    pub fn cancel_all(&self) -> (cancelled: usize)
        requires
            self.well_formed(),
        ensures
            cancelled == self.count(),
            forall|tag: Seq<char>| #[trigger]
                self@.contains_key(tag) ==> marked(self@[tag], RequestAbortReason::Cancelled),
    {
        let mut i: usize = 0;
        while i < self.states.len()
            invariant
                i <= self.states.len(),
                forall|k: int|
                    0 <= k < i ==> marked(
                        (#[trigger] self.states@[k])@,
                        RequestAbortReason::Cancelled,
                    ),
            decreases self.states.len() - i,
        {
            self.states[i].abort(RequestAbortReason::Cancelled);
            i = i + 1;
        }
        proof {
            assert forall|tag: Seq<char>| #[trigger] self@.contains_key(tag) implies marked(
                self@[tag],
                RequestAbortReason::Cancelled,
            ) by {
                let k = choose|k: int|
                    0 <= k < self.tags@.len() && (#[trigger] self.tags@[k])@ == tag;
                self.lemma_at(k);
                assert(marked(self.states@[k]@, RequestAbortReason::Cancelled));
            }
        }
        i
    }
}

/// The reasons recorded when `ids` are aborted in order; unknown ids record none.
pub open spec fn abort_reasons(
    streams: Map<Seq<char>, StreamView>,
    ids: Seq<String>,
) -> Seq<RequestAbortReason>
    decreases ids.len(),
{
    if ids.len() == 0 {
        Seq::empty()
    } else {
        let before = abort_reasons(streams, ids.drop_last());
        let left = streams.remove_keys(ids.drop_last().map_values(|s: String| s@).to_set());
        if left.contains_key(ids.last()@) {
            before.push(abort_reason_for(left[ids.last()@].emitted))
        } else {
            before
        }
    }
}

/// Each of `ids` that had a stream was told why it is aborted.
pub open spec fn marked_all(streams: Map<Seq<char>, StreamView>, ids: Seq<String>) -> bool {
    forall|i: int|
        0 <= i < ids.len() && streams.contains_key((#[trigger] ids[i])@) ==> marked(
            streams[ids[i]@],
            abort_reason_for(streams[ids[i]@].emitted),
        )
}

/// Aborts requests: each known one loses its stream first and is then marked, so
/// that tokens already in flight for it are dropped by the demux. Returns the
/// reason recorded for each aborted request, in order.
pub fn abort_requests(streams: &mut StreamTable, ids: &[String]) -> (reasons: Vec<
    RequestAbortReason,
>)
    requires
        old(streams).well_formed(),
    ensures
        final(streams).well_formed(),
        final(streams)@ == old(streams)@.remove_keys(ids@.map_values(|s: String| s@).to_set()),
        reasons@ == abort_reasons(old(streams)@, ids@),
        marked_all(old(streams)@, ids@),
{
    broadcast use vstd::seq_lib::group_seq_properties;

    let mut reasons: Vec<RequestAbortReason> = Vec::new();
    let ghost start = streams@;
    let mut i: usize = 0;
    proof {
        assert(ids@.take(0).map_values(|s: String| s@) =~= Seq::<Seq<char>>::empty());
        assert(ids@.take(0) =~= Seq::<String>::empty());
        assert(start.remove_keys(Seq::<Seq<char>>::empty().to_set()) =~= start);
    }
    while i < ids.len()
        invariant
            i <= ids.len(),
            streams.well_formed(),
            streams@ == start.remove_keys(
                ids@.take(i as int).map_values(|s: String| s@).to_set(),
            ),
            reasons@ == abort_reasons(start, ids@.take(i as int)),
            marked_all(start, ids@.take(i as int)),
        decreases ids.len() - i,
    {
        let id = &ids[i];
        let ghost done = ids@.take(i as int);
        let ghost next = ids@.take(i as int + 1);
        let ghost left = streams@;
        proof {
            assert(next.drop_last() =~= done);
            assert(next =~= done.push(*id));
            assert(next.map_values(|s: String| s@) =~= done.map_values(|s: String| s@).push(id@));
        }
        if let Some(state) = streams.remove(id.as_str()) {
            let reason = state.reason_for_abort();
            state.abort(reason);
            reasons.push(reason);
        }
        proof {
            let a = done.map_values(|s: String| s@);
            assert(a.push(id@).to_set() =~= a.to_set().insert(id@)) by {
                assert forall|t: Seq<char>| a.push(id@).to_set().contains(t) == a.to_set().insert(
                    id@,
                ).contains(t) by {
                    if a.contains(t) {
                        let k = choose|k: int| 0 <= k < a.len() && a[k] == t;
                        assert(a.push(id@)[k] == t);
                    }
                    if t == id@ {
                        assert(a.push(id@)[a.len() as int] == t);
                    }
                    if a.push(id@).contains(t) && t != id@ {
                        let k = choose|k: int| 0 <= k < a.push(id@).len() && a.push(id@)[k] == t;
                        assert(a[k] == t);
                    }
                }
            }
            assert(left.remove(id@) =~= start.remove_keys(a.to_set().insert(id@)));
        }
        i = i + 1;
    }
    assert(ids@.take(i as int) =~= ids@);
    reasons
}

/// An abort is recorded for each known request, once however often it is named: as a
/// cancellation exactly when a token of it went out before. An unknown request records
/// nothing.
pub proof fn lemma_each_abort_is_recorded_once(
    streams: Map<Seq<char>, StreamView>,
    ids: Seq<String>,
    i: int,
)
    requires
        0 <= i < ids.len(),
    ensures
        ({
            let before = abort_reasons(streams, ids.take(i));
            let after = abort_reasons(streams, ids.take(i + 1));
            let named = exists|k: int| 0 <= k < i && (#[trigger] ids[k])@ == ids[i]@;
            &&& if streams.contains_key(ids[i]@) && !named {
                &&& after.len() == before.len() + 1
                &&& after.last() == RequestAbortReason::Cancelled <==> streams[ids[i]@].emitted
                &&& after.last() == RequestAbortReason::Disconnected
                    <==> !streams[ids[i]@].emitted
                &&& after.drop_last() == before
            } else {
                after == before
            }
            &&& after.is_prefix_of(abort_reasons(streams, ids))
        }),
    decreases ids.len(),
{
    let head = ids.take(i);
    assert(ids.take(i + 1).drop_last() =~= head);
    let texts = head.map_values(|s: String| s@);
    assert(texts.to_set().contains(ids[i]@) <==> exists|k: int|
        0 <= k < i && (#[trigger] ids[k])@ == ids[i]@) by {
        if texts.contains(ids[i]@) {
            let k = choose|k: int| 0 <= k < texts.len() && texts[k] == ids[i]@;
            assert(ids[k]@ == ids[i]@);
        }
        if exists|k: int| 0 <= k < i && (#[trigger] ids[k])@ == ids[i]@ {
            let k = choose|k: int| 0 <= k < i && (#[trigger] ids[k])@ == ids[i]@;
            assert(texts[k] == ids[i]@);
        }
    }
    let before = abort_reasons(streams, head);
    if i + 1 == ids.len() {
        assert(ids.take(i + 1) =~= ids);
    } else {
        let shorter = ids.drop_last();
        lemma_each_abort_is_recorded_once(streams, shorter, i);
        assert(shorter.take(i) =~= head);
        assert(shorter.take(i + 1) =~= ids.take(i + 1));
        assert(forall|k: int| 0 <= k < i ==> #[trigger] ids[k] == shorter[k]);
    }
    assert(ids.take(i + 1).last() == ids[i]);
}

/// A stream that was marked carries the reason in its own cell, which is the one that the
/// request's sink reads.
pub proof fn lemma_marks_go_to_the_requests_own_cell(
    stream: StreamView,
    reason: RequestAbortReason,
)
    requires
        marked(stream, reason),
    ensures
        stored_into(*stream.cell, reason.raw_spec()),
{
}

} // verus!
