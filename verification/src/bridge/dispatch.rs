//! Demultiplexing a ready burst of the shared token channel.
use vstd::prelude::*;
use vstd::string::*;
use crate::bridge::output::{
    output_views, text_views, EngineCoreOutput, OutputView, RequestBatchOutputs,
};
use crate::bridge::reduce::{reduce_request, reduced, Reduction};
use crate::bridge::streams::{StreamTable, StreamView};
use crate::engine::{RequestTag, TokenEvent};
use crate::text::same_text;

verus! {

pub open spec fn tag_of(tagged: (RequestTag, TokenEvent)) -> Seq<char> {
    (*tagged.0)@
}

/// The tags of a burst in order of first appearance.
pub open spec fn tags_in_order(burst: Seq<(RequestTag, TokenEvent)>) -> Seq<Seq<char>>
    decreases burst.len(),
{
    if burst.len() == 0 {
        Seq::empty()
    } else {
        let before = tags_in_order(burst.drop_last());
        if before.contains(tag_of(burst.last())) {
            before
        } else {
            before.push(tag_of(burst.last()))
        }
    }
}

/// One request's events of a burst, in arrival order.
pub open spec fn events_for(burst: Seq<(RequestTag, TokenEvent)>, tag: Seq<char>) -> Seq<
    TokenEvent,
> {
    burst.filter(|p: (RequestTag, TokenEvent)| tag_of(p) == tag).map_values(
        |p: (RequestTag, TokenEvent)| p.1,
    )
}

/// The state of a dispatch.
pub struct Dispatch {
    pub streams: Map<Seq<char>, StreamView>,
    pub outputs: Seq<OutputView>,
    pub finished: Seq<Seq<char>>,
}

/// The stream after its output went out: an output with tokens marks the request
/// as having emitted.
pub open spec fn after_output(reduction: Reduction) -> StreamView {
    match reduction.output {
        Some(output) => StreamView {
            emitted: reduction.state.emitted || output.new_token_ids.len() > 0,
            ..reduction.state
        },
        None => reduction.state,
    }
}

/// One request's turn. Without a stream the request was aborted or already
/// finished, and its late events are dropped.
pub open spec fn dispatch_one(d: Dispatch, tag: Seq<char>, events: Seq<TokenEvent>) -> Dispatch {
    if !d.streams.contains_key(tag) {
        d
    } else {
        let reduction = reduced(tag, d.streams[tag], events);
        Dispatch {
            streams: if reduction.terminated {
                d.streams.remove(tag)
            } else {
                d.streams.insert(tag, after_output(reduction))
            },
            outputs: match reduction.output {
                Some(output) => d.outputs.push(output),
                None => d.outputs,
            },
            finished: if reduction.terminated {
                d.finished.push(tag)
            } else {
                d.finished
            },
        }
    }
}

/// The first requests of `order` have had their turn.
pub open spec fn dispatch_all(
    streams: Map<Seq<char>, StreamView>,
    order: Seq<Seq<char>>,
    burst: Seq<(RequestTag, TokenEvent)>,
) -> Dispatch
    decreases order.len(),
{
    if order.len() == 0 {
        Dispatch { streams, outputs: Seq::empty(), finished: Seq::empty() }
    } else {
        dispatch_one(
            dispatch_all(streams, order.drop_last(), burst),
            order.last(),
            events_for(burst, order.last()),
        )
    }
}

/// What a burst makes of the live streams.
pub open spec fn dispatched(
    streams: Map<Seq<char>, StreamView>,
    burst: Seq<(RequestTag, TokenEvent)>,
) -> Dispatch {
    dispatch_all(streams, tags_in_order(burst), burst)
}

proof fn lemma_events_for_push(
    burst: Seq<(RequestTag, TokenEvent)>,
    last: (RequestTag, TokenEvent),
    tag: Seq<char>,
)
    ensures
        events_for(burst.push(last), tag) == (if tag_of(last) == tag {
            events_for(burst, tag).push(last.1)
        } else {
            events_for(burst, tag)
        }),
{
    burst.lemma_filter_push(last, |p: (RequestTag, TokenEvent)| tag_of(p) == tag);
    if tag_of(last) == tag {
        assert(events_for(burst.push(last), tag) =~= events_for(burst, tag).push(last.1));
    }
}

proof fn lemma_unseen_tag_has_no_events(burst: Seq<(RequestTag, TokenEvent)>, tag: Seq<char>)
    requires
        !tags_in_order(burst).contains(tag),
    ensures
        events_for(burst, tag) == Seq::<TokenEvent>::empty(),
    decreases burst.len(),
{
    reveal(Seq::filter);
    if burst.len() == 0 {
        assert(events_for(burst, tag) =~= Seq::<TokenEvent>::empty());
    } else {
        let head = burst.drop_last();
        let before = tags_in_order(head);
        assert(burst =~= head.push(burst.last()));
        if before.contains(tag_of(burst.last())) {
        } else {
            assert(tags_in_order(burst)[before.len() as int] == tag_of(burst.last()));
            if before.contains(tag) {
                let k = choose|k: int| 0 <= k < before.len() && before[k] == tag;
                assert(tags_in_order(burst)[k] == tag);
            }
        }
        assert(tag_of(burst.last()) != tag) by {
            if before.contains(tag_of(burst.last())) {
                assert(tags_in_order(burst) == before);
            }
        }
        lemma_unseen_tag_has_no_events(head, tag);
        lemma_events_for_push(head, burst.last(), tag);
    }
}

proof fn lemma_tags_distinct(burst: Seq<(RequestTag, TokenEvent)>)
    ensures
        tags_in_order(burst).no_duplicates(),
    decreases burst.len(),
{
    if burst.len() > 0 {
        lemma_tags_distinct(burst.drop_last());
        let before = tags_in_order(burst.drop_last());
        let tag = tag_of(burst.last());
        if !before.contains(tag) {
            let after = before.push(tag);
            assert forall|i: int, j: int|
                0 <= i < after.len() && 0 <= j < after.len() && i != j implies after[i]
                != after[j] by {
                if i == before.len() {
                    assert(before[j] == after[j]);
                } else if j == before.len() {
                    assert(before[i] == after[i]);
                }
            }
        }
    }
}

/// The events of a burst, one bucket per request in order of first appearance.
struct Buckets {
    order: Vec<String>,
    events: Vec<Vec<TokenEvent>>,
}

impl Buckets {
    spec fn holds(self, burst: Seq<(RequestTag, TokenEvent)>) -> bool {
        &&& text_views(self.order@) == tags_in_order(burst)
        &&& self.events@.len() == self.order@.len()
        &&& forall|i: int|
            0 <= i < self.order@.len() ==> (#[trigger] self.events@[i])@ == events_for(
                burst,
                self.order@[i]@,
            )
    }
}

fn bucket_burst(burst: Vec<(RequestTag, TokenEvent)>) -> (r: Buckets)
    ensures
        r.holds(burst@),
{
    let ghost all = burst@;
    let mut order: Vec<String> = Vec::new();
    let mut events: Vec<Vec<TokenEvent>> = Vec::new();
    proof {
        assert(all.take(0) =~= Seq::<(RequestTag, TokenEvent)>::empty());
        assert(text_views(order@) =~= Seq::<Seq<char>>::empty());
    }
    for tagged in it: burst
        invariant
            it.seq() == all,
            text_views(order@) == tags_in_order(all.take(it.index() as int)),
            events@.len() == order@.len(),
            forall|i: int|
                0 <= i < order@.len() ==> (#[trigger] events@[i])@ == events_for(
                    all.take(it.index() as int),
                    order@[i]@,
                ),
    {
        let ghost done = all.take(it.index() as int);
        let ghost next = all.take(it.index() as int + 1);
        let ghost seen = tagged;
        let ghost order_before = order@;
        let ghost events_before = events@;
        proof {
            assert(next.drop_last() =~= done);
            assert(next =~= done.push(seen));
            lemma_tags_distinct(done);
            assert forall|t: Seq<char>| true implies #[trigger] events_for(next, t) == (if tag_of(
                seen,
            ) == t {
                events_for(done, t).push(seen.1)
            } else {
                events_for(done, t)
            }) by {
                lemma_events_for_push(done, seen, t);
            }
        }
        let (tag, event) = tagged;
        let text: &str = &*tag;
        let mut at: usize = 0;
        while at < order.len() && !same_text(order[at].as_str(), text)
            invariant
                at <= order.len(),
                order@ == order_before,
                text@ == tag_of(seen),
                forall|k: int| 0 <= k < at ==> (#[trigger] order_before[k])@ != text@,
            decreases order.len() - at,
        {
            at = at + 1;
        }
        if at < order.len() {
            proof {
                assert(text_views(order_before)[at as int] == text@);
                assert(tags_in_order(done).contains(text@));
            }
            events[at].push(event);
            assert forall|i: int| 0 <= i < order@.len() implies (#[trigger] events@[i])@
                == events_for(next, order@[i]@) by {
                if i != at {
                    assert(text_views(order_before)[i] != text_views(order_before)[at as int]);
                    assert(events@[i] == events_before[i]);
                }
            }
        } else {
            proof {
                assert(!tags_in_order(done).contains(text@)) by {
                    if tags_in_order(done).contains(text@) {
                        let k = choose|k: int|
                            0 <= k < tags_in_order(done).len() && tags_in_order(done)[k] == text@;
                        assert(text_views(order_before)[k] == order_before[k]@);
                    }
                }
                lemma_unseen_tag_has_no_events(done, text@);
            }
            order.push(text.to_owned());
            let mut bucket: Vec<TokenEvent> = Vec::new();
            bucket.push(event);
            events.push(bucket);
            proof {
                assert(text_views(order@) =~= text_views(order_before).push(text@));
                assert(bucket@ =~= Seq::<TokenEvent>::empty().push(seen.1));
                assert forall|i: int| 0 <= i < order@.len() implies (#[trigger] events@[i])@
                    == events_for(next, order@[i]@) by {
                    if i < order_before.len() {
                        assert(events@[i] == events_before[i]);
                        assert(order@[i] == order_before[i]);
                    }
                }
            }
        }
    }
    assert(all.take(all.len() as int) =~= all);
    Buckets { order, events }
}

/// Buckets a ready burst per request, preserving event order, folds each
/// request's events into at most one output, and returns the whole burst as a
/// single message; `None` when no request has anything to say.
pub fn dispatch_burst(
    engine_index: u32,
    burst: Vec<(RequestTag, TokenEvent)>,
    streams: &mut StreamTable,
) -> (r: Option<RequestBatchOutputs>)
    requires
        old(streams).well_formed(),
    ensures
        final(streams).well_formed(),
        final(streams)@ == dispatched(old(streams)@, burst@).streams,
        match r {
            None => dispatched(old(streams)@, burst@).outputs.len() == 0,
            Some(message) => {
                let d = dispatched(old(streams)@, burst@);
                &&& message.engine_index == engine_index
                &&& d.outputs.len() > 0
                &&& output_views(message.outputs@) == d.outputs
                &&& message.scheduler_stats is None
                &&& match message.finished_requests {
                    Some(finished) => d.finished.len() > 0 && text_views(finished@) == d.finished,
                    None => d.finished.len() == 0,
                }
            },
        },
{
    let ghost all = burst@;
    let ghost start = streams@;
    let ghost tags = tags_in_order(all);
    let buckets = bucket_burst(burst);
    let order = buckets.order;
    let requests: usize = order.len();
    let ghost bucketed = buckets.events@;
    let mut outputs: Vec<EngineCoreOutput> = Vec::new();
    let mut finished: Vec<String> = Vec::new();
    let mut i: usize = 0;
    proof {
        assert(tags.take(0) =~= Seq::<Seq<char>>::empty());
        assert(output_views(outputs@) =~= Seq::<OutputView>::empty());
        assert(text_views(finished@) =~= Seq::<Seq<char>>::empty());
    }
    for events in it: buckets.events
        invariant
            it.seq() == bucketed,
            i == it.index(),
            text_views(order@) == tags,
            order@.len() == requests,
            bucketed.len() == requests,
            forall|k: int|
                0 <= k < order@.len() ==> (#[trigger] bucketed[k])@ == events_for(
                    all,
                    order@[k]@,
                ),
            streams.well_formed(),
            streams@ == dispatch_all(start, tags.take(i as int), all).streams,
            output_views(outputs@) == dispatch_all(start, tags.take(i as int), all).outputs,
            text_views(finished@) == dispatch_all(start, tags.take(i as int), all).finished,
    {
        let ghost done = dispatch_all(start, tags.take(i as int), all);
        let ghost outputs_before = outputs@;
        let ghost finished_before = finished@;
        assert(i < requests);
        let tag = order[i].as_str();
        proof {
            let next = tags.take(i as int + 1);
            assert(next.drop_last() =~= tags.take(i as int));
            assert(text_views(order@)[i as int] == tag@);
            assert(next.last() == tag@);
            assert(bucketed[i as int] == events);
        }
        match streams.remove(tag) {
            None => {},
            Some(state) => {
                let mut state = state;
                let ghost seen = state@;
                let (output, terminated) = reduce_request(tag, &mut state, events);
                let ghost reduction = reduced(tag@, seen, events_for(all, tag@));
                match output {
                    Some(output) => {
                        if !output.new_token_ids.is_empty() {
                            state.has_emitted_tokens = true;
                        }
                        outputs.push(output);
                        assert(output_views(outputs@) =~= output_views(outputs_before).push(
                            output@,
                        ));
                    },
                    None => {},
                }
                assert(state@ == after_output(reduction));
                if terminated {
                    finished.push(tag.to_owned());
                    assert(text_views(finished@) =~= text_views(finished_before).push(tag@));
                } else {
                    streams.insert(tag, state);
                    assert(done.streams.remove(tag@).insert(tag@, state@) =~= done.streams.insert(
                        tag@,
                        state@,
                    ));
                }
            },
        }
        i = i + 1;
    }
    assert(tags.take(tags.len() as int) =~= tags);
    assert(tags.len() == bucketed.len());
    if outputs.is_empty() {
        return None;
    }
    let finished_requests = if finished.is_empty() {
        None
    } else {
        Some(finished)
    };
    Some(
        RequestBatchOutputs { engine_index, outputs, finished_requests, scheduler_stats: None },
    )
}

proof fn lemma_dispatch_touches_only_order(
    streams: Map<Seq<char>, StreamView>,
    order: Seq<Seq<char>>,
    burst: Seq<(RequestTag, TokenEvent)>,
)
    ensures
        ({
            let d = dispatch_all(streams, order, burst);
            forall|t: Seq<char>| #![trigger d.streams.contains_key(t)]
                !order.contains(t) ==> d.streams.contains_key(t) == streams.contains_key(t) && (
                streams.contains_key(t) ==> d.streams[t] == streams[t])
        }),
    decreases order.len(),
{
    if order.len() > 0 {
        let head = order.drop_last();
        lemma_dispatch_touches_only_order(streams, head, burst);
        let before = dispatch_all(streams, head, burst);
        let d = dispatch_all(streams, order, burst);
        assert forall|t: Seq<char>| #![trigger d.streams.contains_key(t)]
            !order.contains(t) implies d.streams.contains_key(t) == streams.contains_key(t) && (
        streams.contains_key(t) ==> d.streams[t] == streams[t]) by {
            assert(order[order.len() - 1] == order.last());
            assert(t != order.last());
            if head.contains(t) {
                let k = choose|k: int| 0 <= k < head.len() && head[k] == t;
                assert(order[k] == t);
            }
            assert(before.streams.contains_key(t) == streams.contains_key(t));
        }
    }
}

/// What a burst makes of one request that has a stream.
pub open spec fn reduction_of(
    streams: Map<Seq<char>, StreamView>,
    burst: Seq<(RequestTag, TokenEvent)>,
    tag: Seq<char>,
) -> Reduction {
    reduced(tag, streams[tag], events_for(burst, tag))
}

/// The request has a stream, and its events make an output.
pub open spec fn speaks(
    streams: Map<Seq<char>, StreamView>,
    burst: Seq<(RequestTag, TokenEvent)>,
    tag: Seq<char>,
) -> bool {
    streams.contains_key(tag) && reduction_of(streams, burst, tag).output is Some
}

/// The request has a stream, and its events end it.
pub open spec fn ends(
    streams: Map<Seq<char>, StreamView>,
    burst: Seq<(RequestTag, TokenEvent)>,
    tag: Seq<char>,
) -> bool {
    streams.contains_key(tag) && reduction_of(streams, burst, tag).terminated
}

/// The outputs of the requests of `order` that speak.
pub open spec fn spoken(
    streams: Map<Seq<char>, StreamView>,
    burst: Seq<(RequestTag, TokenEvent)>,
    order: Seq<Seq<char>>,
) -> Seq<OutputView> {
    order.filter(|t: Seq<char>| speaks(streams, burst, t)).map_values(
        |t: Seq<char>| reduction_of(streams, burst, t).output->Some_0,
    )
}

proof fn lemma_each_request_by_itself(
    streams: Map<Seq<char>, StreamView>,
    order: Seq<Seq<char>>,
    burst: Seq<(RequestTag, TokenEvent)>,
)
    requires
        order.no_duplicates(),
    ensures
        ({
            let d = dispatch_all(streams, order, burst);
            &&& d.outputs == spoken(streams, burst, order)
            &&& d.finished == order.filter(|t: Seq<char>| ends(streams, burst, t))
            &&& d.finished.no_duplicates()
            &&& forall|i: int| 0 <= i < d.finished.len() ==> order.contains(#[trigger] d.finished[i])
            &&& forall|t: Seq<char>| #[trigger]
                d.streams.contains_key(t) <==> streams.contains_key(t) && !(order.contains(t)
                    && ends(streams, burst, t))
            &&& forall|t: Seq<char>|
                order.contains(t) && #[trigger] d.streams.contains_key(t) ==> d.streams[t]
                    == after_output(reduction_of(streams, burst, t))
        }),
    decreases order.len(),
{
    reveal(Seq::filter);
    let d = dispatch_all(streams, order, burst);
    if order.len() == 0 {
        assert(d.outputs =~= spoken(streams, burst, order));
        assert(d.finished =~= order.filter(|t: Seq<char>| ends(streams, burst, t)));
    } else {
        let head = order.drop_last();
        let tag = order.last();
        assert(head.no_duplicates()) by {
            assert forall|i: int, j: int|
                0 <= i < head.len() && 0 <= j < head.len() && i != j implies head[i] != head[j] by {
                assert(order[i] != order[j]);
            }
        }
        lemma_each_request_by_itself(streams, head, burst);
        lemma_dispatch_touches_only_order(streams, head, burst);
        let before = dispatch_all(streams, head, burst);
        assert(!head.contains(tag)) by {
            if head.contains(tag) {
                let k = choose|k: int| 0 <= k < head.len() && head[k] == tag;
                assert(order[k] == order[order.len() - 1]);
            }
        }
        assert(before.streams.contains_key(tag) == streams.contains_key(tag));
        assert forall|t: Seq<char>| order.contains(t) <==> head.contains(t) || t == tag by {
            if head.contains(t) {
                let k = choose|k: int| 0 <= k < head.len() && head[k] == t;
                assert(order[k] == t);
            }
            if t == tag {
                assert(order[order.len() - 1] == t);
            }
            if order.contains(t) {
                let k = choose|k: int| 0 <= k < order.len() && order[k] == t;
                if k < head.len() {
                    assert(head[k] == t);
                }
            }
        }
        assert(d.outputs =~= spoken(streams, burst, order));
        assert(d.finished =~= order.filter(|t: Seq<char>| ends(streams, burst, t)));
        assert(forall|i: int| 0 <= i < before.finished.len() ==> before.finished[i] != tag);
        assert forall|t: Seq<char>| #[trigger]
            d.streams.contains_key(t) <==> streams.contains_key(t) && !(order.contains(t) && ends(
                streams,
                burst,
                t,
            )) by {
            assert(before.streams.contains_key(t) <==> streams.contains_key(t) && !(head.contains(t)
                && ends(streams, burst, t)));
        }
        assert forall|t: Seq<char>|
            order.contains(t) && #[trigger] d.streams.contains_key(t) implies d.streams[t]
            == after_output(reduction_of(streams, burst, t)) by {
            if t != tag {
                assert(before.streams.contains_key(t));
            }
        }
    }
}

/// Coalescing never cross-contaminates requests. A burst makes at most one output
/// of each request, in order of first appearance, and nothing but the request's own
/// events and its own stream goes into it. Each request that ends is named once,
/// and its stream is gone; every other stream that the burst speaks of goes on as
/// its own events left it.
pub proof fn lemma_burst_never_mixes_requests(
    streams: Map<Seq<char>, StreamView>,
    burst: Seq<(RequestTag, TokenEvent)>,
)
    ensures
        tags_in_order(burst).no_duplicates(),
        ({
            let order = tags_in_order(burst);
            let d = dispatched(streams, burst);
            &&& d.outputs == spoken(streams, burst, order)
            &&& d.finished == order.filter(|t: Seq<char>| ends(streams, burst, t))
            &&& d.finished.no_duplicates()
            &&& forall|t: Seq<char>| #[trigger]
                d.streams.contains_key(t) <==> streams.contains_key(t) && !(order.contains(t)
                    && ends(streams, burst, t))
            &&& forall|t: Seq<char>|
                order.contains(t) && #[trigger] d.streams.contains_key(t) ==> d.streams[t]
                    == after_output(reduction_of(streams, burst, t))
        }),
{
    lemma_tags_distinct(burst);
    lemma_each_request_by_itself(streams, tags_in_order(burst), burst);
}

/// A burst leaves the streams it does not mention alone.
pub proof fn lemma_burst_leaves_other_streams(
    streams: Map<Seq<char>, StreamView>,
    burst: Seq<(RequestTag, TokenEvent)>,
    other: Seq<char>,
)
    requires
        !tags_in_order(burst).contains(other),
    ensures
        dispatched(streams, burst).streams.contains_key(other) == streams.contains_key(other),
        streams.contains_key(other) ==> dispatched(streams, burst).streams[other]
            == streams[other],
{
    lemma_dispatch_touches_only_order(streams, tags_in_order(burst), burst);
    assert(dispatch_all(streams, tags_in_order(burst), burst).streams.contains_key(other)
        == streams.contains_key(other));
}

proof fn lemma_unknown_requests_are_passed_over(
    streams: Map<Seq<char>, StreamView>,
    order: Seq<Seq<char>>,
    burst: Seq<(RequestTag, TokenEvent)>,
)
    requires
        forall|i: int| 0 <= i < order.len() ==> !streams.contains_key(#[trigger] order[i]),
    ensures
        dispatch_all(streams, order, burst).streams == streams,
        dispatch_all(streams, order, burst).outputs.len() == 0,
        dispatch_all(streams, order, burst).finished.len() == 0,
    decreases order.len(),
{
    if order.len() > 0 {
        lemma_unknown_requests_are_passed_over(streams, order.drop_last(), burst);
        assert(order.last() == order[order.len() - 1]);
    }
}

/// Events of a request without a stream, aborted or finished, are dropped: a burst
/// of nothing else changes nothing and sends nothing.
pub proof fn lemma_late_events_are_dropped(
    streams: Map<Seq<char>, StreamView>,
    burst: Seq<(RequestTag, TokenEvent)>,
)
    requires
        forall|i: int|
            0 <= i < tags_in_order(burst).len() ==> !streams.contains_key(
                #[trigger] tags_in_order(burst)[i],
            ),
    ensures
        dispatched(streams, burst).streams == streams,
        dispatched(streams, burst).outputs.len() == 0,
        dispatched(streams, burst).finished.len() == 0,
{
    lemma_unknown_requests_are_passed_over(streams, tags_in_order(burst), burst);
}

/// A burst's requests are those of its events, each once, in the order in which they first
/// appear.
pub proof fn lemma_requests_in_order_of_appearance(
    burst: Seq<(RequestTag, TokenEvent)>,
    i: int,
    j: int,
)
    requires
        0 <= i < burst.len(),
    ensures
        tags_in_order(burst).contains(tag_of(burst[i])),
        tags_in_order(burst.take(j)).is_prefix_of(tags_in_order(burst)) || !(0 <= j
            <= burst.len()),
        forall|t: Seq<char>|
            tags_in_order(burst).contains(t) ==> exists|k: int|
                0 <= k < burst.len() && tag_of(#[trigger] burst[k]) == t,
    decreases burst.len(),
{
    let head = burst.drop_last();
    let tags = tags_in_order(burst);
    let before = tags_in_order(head);
    let last = tag_of(burst.last());
    if !before.contains(last) {
        assert(tags[before.len() as int] == last);
    }
    if i < head.len() {
        lemma_requests_in_order_of_appearance(head, i, j);
        let k = choose|k: int| 0 <= k < before.len() && before[k] == tag_of(head[i]);
        assert(tags[k] == tag_of(burst[i]));
    }
    if 0 <= j <= head.len() {
        assert(head.take(j) =~= burst.take(j));
        if head.len() > 0 {
            lemma_requests_in_order_of_appearance(head, 0, j);
        } else {
            assert(head.take(j) =~= head);
        }
    } else if j == burst.len() {
        assert(burst.take(j) =~= burst);
    }
    assert forall|t: Seq<char>| tags.contains(t) implies exists|k: int|
        0 <= k < burst.len() && tag_of(#[trigger] burst[k]) == t by {
        if before.contains(t) {
            if head.len() > 0 {
                lemma_requests_in_order_of_appearance(head, 0, 0);
            }
            let k = choose|k: int| 0 <= k < head.len() && tag_of(#[trigger] head[k]) == t;
            assert(burst[k] == head[k]);
        } else {
            let k = choose|k: int| 0 <= k < tags.len() && tags[k] == t;
            if k < before.len() {
                assert(before[k] == t);
            }
            assert(tag_of(burst[burst.len() - 1]) == t);
        }
    }
}

/// Every event of a burst reaches its own request, behind those of the same request that
/// came before it. No request is given another's.
pub proof fn lemma_every_event_reaches_its_request(
    burst: Seq<(RequestTag, TokenEvent)>,
    i: int,
)
    requires
        0 <= i < burst.len(),
    ensures
        ({
            let tag = tag_of(burst[i]);
            let at = events_for(burst.take(i), tag).len() as int;
            &&& at < events_for(burst, tag).len()
            &&& events_for(burst, tag)[at] == burst[i].1
        }),
        forall|t: Seq<char>|
            t != tag_of(burst[i]) ==> #[trigger] events_for(burst.take(i + 1), t) == events_for(
                burst.take(i),
                t,
            ),
    decreases burst.len(),
{
    let head = burst.drop_last();
    let tag = tag_of(burst[i]);
    assert(burst =~= head.push(burst.last()));
    lemma_events_for_push(head, burst.last(), tag);
    assert(burst.take(i + 1) =~= burst.take(i).push(burst[i]));
    assert forall|t: Seq<char>| t != tag implies #[trigger] events_for(burst.take(i + 1), t)
        == events_for(burst.take(i), t) by {
        lemma_events_for_push(burst.take(i), burst[i], t);
    }
    if i < head.len() {
        assert(head.take(i) =~= burst.take(i));
        lemma_every_event_reaches_its_request(head, i);
    } else {
        assert(burst.take(i) =~= head);
    }
}

/// A request counts as having emitted exactly from its first output with a token on: an
/// output without one does not make it so, and nothing takes it back.
pub proof fn lemma_emission_is_remembered(
    request_id: Seq<char>,
    state: StreamView,
    events: Seq<TokenEvent>,
)
    ensures
        ({
            let reduction = reduced(request_id, state, events);
            let after = after_output(reduction);
            &&& after.emitted <==> state.emitted || (reduction.output matches Some(output)
                && output.new_token_ids.len() > 0)
            &&& after.sentinel == state.sentinel
            &&& after.cell == state.cell
            &&& after.trace_root == state.trace_root
        }),
{
}

} // verus!
