//! Folding one request's events from a single burst into at most one output.
use vstd::prelude::*;
use vstd::string::*;
use crate::arith::monus;
use crate::bridge::output::{
    convert_finish_reason, stop_text, vec_option, wire_finish, EngineCoreEvent,
    EngineCoreEventType, EngineCoreFinishReason, EngineCoreOutput, OutputView, PositionLogprobs,
    PrefillStats, StopReason,
};
use crate::bridge::streams::{RequestStreamState, StreamView};
use crate::engine::{FinishReason, TokenEvent};

verus! {

/// The token ids an event contributes. A stop finish contributes the sentinel:
/// the scheduler suppresses EOS before emitting events, while the text decoder
/// unconditionally removes the final token of a stop output.
pub open spec fn event_tokens(event: TokenEvent, sentinel: Option<u32>) -> Seq<u32> {
    match event {
        TokenEvent::Token { id, .. } => seq![id],
        TokenEvent::Finished { finish_reason: FinishReason::Stop, .. } => match sentinel {
            Some(id) => seq![id],
            None => Seq::empty(),
        },
        _ => Seq::empty(),
    }
}

/// The positions that go with [`event_tokens`].
pub open spec fn event_positions(event: TokenEvent, sentinel: Option<u32>) -> Seq<
    PositionLogprobs,
> {
    match event {
        TokenEvent::Token { id, logprob } => seq![PositionLogprobs { token_id: id, logprob }],
        TokenEvent::Finished { finish_reason: FinishReason::Stop, .. } => match sentinel {
            Some(id) => seq![PositionLogprobs { token_id: id, logprob: None }],
            None => Seq::empty(),
        },
        _ => Seq::empty(),
    }
}

pub open spec fn event_has_logprobs(event: TokenEvent) -> bool {
    event matches TokenEvent::Token { logprob: Some(_), .. }
}

/// The finish reason of a terminal event.
pub open spec fn event_finish(event: TokenEvent) -> Option<EngineCoreFinishReason> {
    match event {
        TokenEvent::Finished { finish_reason, .. } => Some(wire_finish(finish_reason)),
        TokenEvent::Error { .. } => Some(EngineCoreFinishReason::Error),
        TokenEvent::Rejected { .. } => Some(EngineCoreFinishReason::Error),
        _ => None,
    }
}

/// The message of a failure or rejection.
pub open spec fn event_message(event: TokenEvent) -> Option<Seq<char>> {
    match event {
        TokenEvent::Error { message, .. } => Some(message@),
        TokenEvent::Rejected { message, .. } => Some(message@),
        _ => None,
    }
}

/// The lifecycle events a `Scheduled` announces.
pub open spec fn event_lifecycle(event: TokenEvent) -> Option<Seq<EngineCoreEvent>> {
    match event {
        TokenEvent::Scheduled { queued_at_unix_s, scheduled_at_unix_s, .. } => Some(
            seq![
                EngineCoreEvent {
                    event_type: EngineCoreEventType::Queued,
                    timestamp: queued_at_unix_s,
                },
                EngineCoreEvent {
                    event_type: EngineCoreEventType::Scheduled,
                    timestamp: scheduled_at_unix_s,
                },
            ],
        ),
        _ => None,
    }
}

/// The prefill accounting of a `Scheduled`: computed is the prompt less the
/// prefix-cache hit.
pub open spec fn event_prefill(event: TokenEvent) -> Option<PrefillStats> {
    match event {
        TokenEvent::Scheduled { prompt_tokens, cached_tokens, .. } => Some(
            PrefillStats {
                num_prompt_tokens: prompt_tokens as u32,
                num_computed_tokens: (monus(prompt_tokens as nat, cached_tokens as nat) as usize) as u32,
                num_cached_tokens: cached_tokens as u32,
                num_local_cached_tokens: cached_tokens as u32,
                num_external_cached_tokens: 0,
            },
        ),
        _ => None,
    }
}

pub open spec fn event_handoff(event: TokenEvent) -> Option<serde_json::Value> {
    match event {
        TokenEvent::KvTransfer { params } => Some(params),
        _ => None,
    }
}

/// All contributions of `part`, in event order.
pub open spec fn gathered<T>(
    events: Seq<TokenEvent>,
    part: spec_fn(TokenEvent) -> Seq<T>,
) -> Seq<T>
    decreases events.len(),
{
    if events.len() == 0 {
        Seq::empty()
    } else {
        gathered(events.drop_last(), part) + part(events.last())
    }
}

/// The latest value `part` finds, or the earlier one when it finds none.
pub open spec fn latest<T>(
    events: Seq<TokenEvent>,
    part: spec_fn(TokenEvent) -> Option<T>,
    earlier: Option<T>,
) -> Option<T>
    decreases events.len(),
{
    if events.len() == 0 {
        earlier
    } else {
        match part(events.last()) {
            Some(value) => Some(value),
            None => latest(events.drop_last(), part, earlier),
        }
    }
}

pub open spec fn any_event(events: Seq<TokenEvent>, test: spec_fn(TokenEvent) -> bool) -> bool
    decreases events.len(),
{
    if events.len() == 0 {
        false
    } else {
        any_event(events.drop_last(), test) || test(events.last())
    }
}

pub open spec fn all_tokens(events: Seq<TokenEvent>, sentinel: Option<u32>) -> Seq<u32> {
    gathered(events, |e: TokenEvent| event_tokens(e, sentinel))
}

pub open spec fn all_positions(events: Seq<TokenEvent>, sentinel: Option<u32>) -> Seq<
    PositionLogprobs,
> {
    gathered(events, |e: TokenEvent| event_positions(e, sentinel))
}

pub open spec fn any_logprobs(events: Seq<TokenEvent>) -> bool {
    any_event(events, |e: TokenEvent| event_has_logprobs(e))
}

pub open spec fn any_terminal(events: Seq<TokenEvent>) -> bool {
    any_event(events, |e: TokenEvent| event_finish(e) is Some)
}

pub open spec fn last_finish(events: Seq<TokenEvent>) -> Option<EngineCoreFinishReason> {
    latest(events, |e: TokenEvent| event_finish(e), None)
}

pub open spec fn last_message(events: Seq<TokenEvent>) -> Option<Seq<char>> {
    latest(events, |e: TokenEvent| event_message(e), None)
}

pub open spec fn last_lifecycle(
    events: Seq<TokenEvent>,
    earlier: Option<Seq<EngineCoreEvent>>,
) -> Option<Seq<EngineCoreEvent>> {
    latest(events, |e: TokenEvent| event_lifecycle(e), earlier)
}

pub open spec fn last_prefill(
    events: Seq<TokenEvent>,
    earlier: Option<PrefillStats>,
) -> Option<PrefillStats> {
    latest(events, |e: TokenEvent| event_prefill(e), earlier)
}

pub open spec fn last_handoff(
    events: Seq<TokenEvent>,
    earlier: Option<serde_json::Value>,
) -> Option<serde_json::Value> {
    latest(events, |e: TokenEvent| event_handoff(e), earlier)
}

/// What a burst makes of one request.
pub struct Reduction {
    pub output: Option<OutputView>,
    pub terminated: bool,
    pub state: StreamView,
}

/// Tokens coalesce, and a terminal rides the same output with its finish reason.
/// Metadata gathered so far flushes onto the output; without a token or a
/// terminal there is no output and the metadata waits.
pub open spec fn reduced(
    request_id: Seq<char>,
    state: StreamView,
    events: Seq<TokenEvent>,
) -> Reduction {
    let tokens = all_tokens(events, state.sentinel);
    let terminated = any_terminal(events);
    let lifecycle = last_lifecycle(events, state.events);
    let prefill = last_prefill(events, state.stats);
    let handoff = last_handoff(events, state.kv_transfer);
    if tokens.len() == 0 && !terminated {
        Reduction {
            output: None,
            terminated: false,
            state: StreamView {
                events: lifecycle,
                stats: prefill,
                kv_transfer: handoff,
                ..state
            },
        }
    } else {
        Reduction {
            output: Some(
                OutputView {
                    request_id,
                    new_token_ids: tokens,
                    new_logprobs: if any_logprobs(events) {
                        Some(all_positions(events, state.sentinel))
                    } else {
                        None
                    },
                    finish_reason: last_finish(events),
                    stop_reason: last_message(events),
                    events: lifecycle,
                    kv_transfer_params: handoff,
                    prefill_stats: prefill,
                },
            ),
            terminated,
            state: StreamView { events: None, stats: None, kv_transfer: None, ..state },
        }
    }
}

fn lifecycle_events(queued_at: u64, scheduled_at: u64) -> (r: Vec<EngineCoreEvent>)
    ensures
        r@ == seq![
            EngineCoreEvent { event_type: EngineCoreEventType::Queued, timestamp: queued_at },
            EngineCoreEvent { event_type: EngineCoreEventType::Scheduled, timestamp: scheduled_at },
        ],
{
    let mut events: Vec<EngineCoreEvent> = Vec::new();
    events.push(
        EngineCoreEvent { event_type: EngineCoreEventType::Queued, timestamp: queued_at },
    );
    events.push(
        EngineCoreEvent { event_type: EngineCoreEventType::Scheduled, timestamp: scheduled_at },
    );
    assert(events@ =~= seq![
        EngineCoreEvent { event_type: EngineCoreEventType::Queued, timestamp: queued_at },
        EngineCoreEvent { event_type: EngineCoreEventType::Scheduled, timestamp: scheduled_at },
    ]);
    events
}

fn prefill_stats(prompt_tokens: usize, cached_tokens: usize) -> (r: PrefillStats)
    ensures
        r == (PrefillStats {
            num_prompt_tokens: prompt_tokens as u32,
            num_computed_tokens: (monus(prompt_tokens as nat, cached_tokens as nat) as usize) as u32,
            num_cached_tokens: cached_tokens as u32,
            num_local_cached_tokens: cached_tokens as u32,
            num_external_cached_tokens: 0,
        }),
{
    let computed: usize = prompt_tokens.saturating_sub(cached_tokens);
    PrefillStats {
        num_prompt_tokens: prompt_tokens as u32,
        num_computed_tokens: computed as u32,
        num_cached_tokens: cached_tokens as u32,
        num_local_cached_tokens: cached_tokens as u32,
        num_external_cached_tokens: 0,
    }
}

/// Fold one request's events from a single burst into at most one output; the
/// flag says whether the request ended.
pub fn reduce_request(
    request_id: &str,
    state: &mut RequestStreamState,
    events: Vec<TokenEvent>,
) -> (r: (Option<EngineCoreOutput>, bool))
    ensures
        ({
            let reduction = reduced(request_id@, old(state)@, events@);
            &&& match r.0 {
                Some(output) => reduction.output == Some(output@),
                None => reduction.output is None,
            }
            &&& r.1 == reduction.terminated
            &&& final(state)@ == reduction.state
        }),
{
    let ghost before = state@;
    let ghost all = events@;
    let ghost sentinel = before.sentinel;
    let mut token_ids: Vec<u32> = Vec::new();
    let mut positions: Vec<PositionLogprobs> = Vec::new();
    let mut has_logprobs: bool = false;
    let mut finish_reason: Option<EngineCoreFinishReason> = None;
    let mut stop_reason: Option<StopReason> = None;
    let mut terminated: bool = false;

    assert(all.take(0) =~= Seq::<TokenEvent>::empty());
    for event in it: events
        invariant
            it.seq() == all,
            sentinel == before.sentinel,
            token_ids@ == all_tokens(all.take(it.index() as int), sentinel),
            positions@ == all_positions(all.take(it.index() as int), sentinel),
            has_logprobs == any_logprobs(all.take(it.index() as int)),
            terminated == any_terminal(all.take(it.index() as int)),
            finish_reason == last_finish(all.take(it.index() as int)),
            stop_text(stop_reason) == last_message(all.take(it.index() as int)),
            vec_option(state.first_token_events) == last_lifecycle(
                all.take(it.index() as int),
                before.events,
            ),
            state.first_token_prefill_stats == last_prefill(
                all.take(it.index() as int),
                before.stats,
            ),
            state.kv_transfer_params == last_handoff(
                all.take(it.index() as int),
                before.kv_transfer,
            ),
            state.stop_sentinel_id == before.sentinel,
            state.abort_reason == before.cell,
            state.has_emitted_tokens == before.emitted,
            state.trace_root == before.trace_root,
    {
        let ghost done = all.take(it.index() as int);
        let ghost next = all.take(it.index() as int + 1);
        let ghost tokens_before = token_ids@;
        let ghost positions_before = positions@;
        proof {
            assert(next.drop_last() =~= done);
            assert(next.last() == event);
            assert(tokens_before + Seq::<u32>::empty() =~= tokens_before);
            assert(positions_before + Seq::<PositionLogprobs>::empty() =~= positions_before);
        }
        match event {
            TokenEvent::Scheduled {
                queued_at_unix_s,
                scheduled_at_unix_s,
                prompt_tokens,
                cached_tokens,
            } => {
                state.first_token_events = Some(
                    lifecycle_events(queued_at_unix_s, scheduled_at_unix_s),
                );
                state.first_token_prefill_stats = Some(
                    prefill_stats(prompt_tokens, cached_tokens),
                );
            },
            TokenEvent::Token { id, logprob } => {
                token_ids.push(id);
                if logprob.is_some() {
                    has_logprobs = true;
                }
                positions.push(PositionLogprobs { token_id: id, logprob });
                assert(token_ids@ =~= tokens_before + seq![id]);
                assert(positions@ =~= positions_before + seq![
                    PositionLogprobs { token_id: id, logprob },
                ]);
            },
            TokenEvent::PromptTokens { .. } => {},
            TokenEvent::KvTransfer { params } => {
                state.kv_transfer_params = Some(params);
            },
            TokenEvent::Finished { finish_reason: fr, .. } => {
                if fr == FinishReason::Stop {
                    if let Some(id) = state.stop_sentinel_id {
                        token_ids.push(id);
                        positions.push(PositionLogprobs { token_id: id, logprob: None });
                        assert(token_ids@ =~= tokens_before + seq![id]);
                        assert(positions@ =~= positions_before + seq![
                            PositionLogprobs { token_id: id, logprob: None },
                        ]);
                    }
                }
                finish_reason = Some(convert_finish_reason(fr));
                terminated = true;
            },
            TokenEvent::Error { message, .. } => {
                finish_reason = Some(EngineCoreFinishReason::Error);
                stop_reason = Some(StopReason::Text(message));
                terminated = true;
            },
            TokenEvent::Rejected { message, .. } => {
                finish_reason = Some(EngineCoreFinishReason::Error);
                stop_reason = Some(StopReason::Text(message));
                terminated = true;
            },
        }
    }
    assert(all.take(all.len() as int) =~= all);

    if token_ids.is_empty() && !terminated {
        return (None, false);
    }
    let new_logprobs = if has_logprobs {
        Some(positions)
    } else {
        None
    };
    let output = EngineCoreOutput {
        request_id: request_id.to_owned(),
        new_token_ids: token_ids,
        new_logprobs,
        finish_reason,
        stop_reason,
        events: state.first_token_events.take(),
        kv_transfer_params: state.kv_transfer_params.take(),
        prefill_stats: state.first_token_prefill_stats.take(),
    };
    (Some(output), terminated)
}

/// Whether a burst of one request schedules it.
pub open spec fn any_scheduled(events: Seq<TokenEvent>) -> bool {
    any_event(events, |e: TokenEvent| event_lifecycle(e) is Some)
}

proof fn lemma_unscheduled_keeps_earlier(
    events: Seq<TokenEvent>,
    lifecycle: Option<Seq<EngineCoreEvent>>,
    prefill: Option<PrefillStats>,
)
    requires
        !any_scheduled(events),
    ensures
        last_lifecycle(events, lifecycle) == lifecycle,
        last_prefill(events, prefill) == prefill,
    decreases events.len(),
{
    if events.len() > 0 {
        lemma_unscheduled_keeps_earlier(events.drop_last(), lifecycle, prefill);
    }
}

/// First-token metadata rides the first output exactly once: an output flushes
/// it, and the outputs after it carry none unless the request is scheduled anew. A
/// handoff rides once too: a later output carries only what came after the first.
pub proof fn lemma_first_token_metadata_rides_once(
    request_id: Seq<char>,
    state: StreamView,
    first: Seq<TokenEvent>,
    later: Seq<TokenEvent>,
)
    requires
        reduced(request_id, state, first).output is Some,
        !any_scheduled(later),
    ensures
        ({
            let second = reduced(
                request_id,
                reduced(request_id, state, first).state,
                later,
            );
            second.output matches Some(output) ==> output.events is None
                && output.prefill_stats is None && output.kv_transfer_params == last_handoff(
                later,
                None,
            )
        }),
{
    lemma_unscheduled_keeps_earlier(later, None, None);
}

/// Metadata that arrives without a token or a terminal is not lost: it waits and
/// rides the next output. Of two handoffs the later one is carried.
pub proof fn lemma_lone_metadata_waits_for_an_output(
    request_id: Seq<char>,
    state: StreamView,
    first: Seq<TokenEvent>,
    later: Seq<TokenEvent>,
)
    requires
        reduced(request_id, state, first).output is None,
        !any_scheduled(later),
        reduced(request_id, reduced(request_id, state, first).state, later).output is Some,
    ensures
        ({
            let output = reduced(
                request_id,
                reduced(request_id, state, first).state,
                later,
            ).output->Some_0;
            &&& output.events == last_lifecycle(first, state.events)
            &&& output.prefill_stats == last_prefill(first, state.stats)
            &&& output.kv_transfer_params == last_handoff(
                later,
                last_handoff(first, state.kv_transfer),
            )
        }),
{
    let waiting = reduced(request_id, state, first).state;
    lemma_unscheduled_keeps_earlier(later, waiting.events, waiting.stats);
}

/// The prefill accounting adds up: computed plus cached is the prompt, for every
/// cached prefix that lies within a prompt whose length the wire can carry.
pub proof fn lemma_computed_plus_cached_is_prompt(event: TokenEvent)
    requires
        event matches TokenEvent::Scheduled { prompt_tokens, cached_tokens, .. }
            && cached_tokens <= prompt_tokens && prompt_tokens <= u32::MAX,
    ensures
        event_prefill(event) matches Some(stats) && stats.num_computed_tokens
            + stats.num_cached_tokens == stats.num_prompt_tokens,
{
}

/// The tokens that the scheduler emitted.
pub open spec fn visible_tokens(events: Seq<TokenEvent>) -> Seq<u32> {
    gathered(
        events,
        |e: TokenEvent|
            match e {
                TokenEvent::Token { id, .. } => seq![id],
                _ => Seq::<u32>::empty(),
            },
    )
}

/// The event ends its request at a stop token.
pub open spec fn stops(event: TokenEvent) -> bool {
    event matches TokenEvent::Finished { finish_reason: FinishReason::Stop, .. }
}

proof fn lemma_without_stop_all_is_visible(events: Seq<TokenEvent>, sentinel: Option<u32>)
    requires
        forall|i: int| 0 <= i < events.len() ==> !stops(#[trigger] events[i]),
    ensures
        all_tokens(events, sentinel) == visible_tokens(events),
    decreases events.len(),
{
    if events.len() > 0 {
        assert(!stops(events[events.len() - 1]));
        lemma_without_stop_all_is_visible(events.drop_last(), sentinel);
    }
}

/// A stop output loses no visible token to the text decoder, which removes the
/// last token of every stop output: what is left of it are the tokens that the
/// scheduler emitted, all of them and in order.
pub proof fn lemma_stop_output_keeps_visible_tokens(
    request_id: Seq<char>,
    state: StreamView,
    events: Seq<TokenEvent>,
)
    requires
        events.len() > 0,
        stops(events.last()),
        forall|i: int| 0 <= i < events.len() - 1 ==> !stops(#[trigger] events[i]),
        state.sentinel is Some,
    ensures
        reduced(request_id, state, events).output matches Some(output)
            && output.new_token_ids.len() > 0 && output.new_token_ids.drop_last()
            == visible_tokens(events),
{
    lemma_without_stop_all_is_visible(events.drop_last(), state.sentinel);
    let tokens = all_tokens(events, state.sentinel);
    let visible = visible_tokens(events.drop_last());
    assert(tokens == visible + seq![state.sentinel->Some_0]);
    assert(visible_tokens(events) =~= visible);
    assert(tokens.drop_last() =~= visible);
}

/// A terminal event always produces an output, and with it the end of the stream.
pub proof fn lemma_terminal_always_answers(
    request_id: Seq<char>,
    state: StreamView,
    events: Seq<TokenEvent>,
)
    ensures
        reduced(request_id, state, events).terminated ==> (reduced(
            request_id,
            state,
            events,
        ).output matches Some(output) && output.finish_reason is Some),
{
    if any_terminal(events) {
        lemma_terminal_has_finish(events);
    }
}

proof fn lemma_terminal_has_finish(events: Seq<TokenEvent>)
    requires
        any_terminal(events),
    ensures
        last_finish(events) is Some,
    decreases events.len(),
{
    if event_finish(events.last()) is None {
        lemma_terminal_has_finish(events.drop_last());
    }
}

proof fn lemma_gathered_split<T>(
    first: Seq<TokenEvent>,
    later: Seq<TokenEvent>,
    part: spec_fn(TokenEvent) -> Seq<T>,
)
    ensures
        gathered(first + later, part) == gathered(first, part) + gathered(later, part),
    decreases later.len(),
{
    if later.len() == 0 {
        assert(first + later =~= first);
        assert(gathered(first, part) + gathered(later, part) =~= gathered(first, part));
    } else {
        lemma_gathered_split(first, later.drop_last(), part);
        assert((first + later).drop_last() =~= first + later.drop_last());
        assert(gathered(first, part) + gathered(later, part) =~= (gathered(first, part) + gathered(
            later.drop_last(),
            part,
        )) + part(later.last()));
    }
}

proof fn lemma_any_event_is_exists(events: Seq<TokenEvent>, test: spec_fn(TokenEvent) -> bool)
    ensures
        any_event(events, test) <==> exists|i: int|
            0 <= i < events.len() && test(#[trigger] events[i]),
    decreases events.len(),
{
    if events.len() > 0 {
        let head = events.drop_last();
        lemma_any_event_is_exists(head, test);
        if any_event(head, test) {
            let i = choose|i: int| 0 <= i < head.len() && test(#[trigger] head[i]);
            assert(head[i] == events[i]);
        }
        if test(events.last()) {
            assert(events[events.len() - 1] == events.last());
        }
        if exists|i: int| 0 <= i < events.len() && test(#[trigger] events[i]) {
            let i = choose|i: int| 0 <= i < events.len() && test(#[trigger] events[i]);
            if i < head.len() {
                assert(head[i] == events[i]);
            }
        }
    }
}

proof fn lemma_latest_is_the_last<T>(
    events: Seq<TokenEvent>,
    part: spec_fn(TokenEvent) -> Option<T>,
    earlier: Option<T>,
)
    ensures
        (forall|j: int| 0 <= j < events.len() ==> part(#[trigger] events[j]) is None) ==> latest(
            events,
            part,
            earlier,
        ) == earlier,
        forall|i: int|
            0 <= i < events.len() && part(#[trigger] events[i]) is Some && (forall|j: int|
                i < j < events.len() ==> part(#[trigger] events[j]) is None) ==> latest(
                events,
                part,
                earlier,
            ) == part(events[i]),
    decreases events.len(),
{
    if events.len() > 0 {
        let head = events.drop_last();
        let n = events.len() - 1;
        lemma_latest_is_the_last(head, part, earlier);
        assert(events[n] == events.last());
        assert forall|j: int| 0 <= j < n implies head[j] == #[trigger] events[j] by {}
        assert forall|i: int|
            0 <= i < events.len() && part(#[trigger] events[i]) is Some && (forall|j: int|
                i < j < events.len() ==> part(#[trigger] events[j]) is None) implies latest(
            events,
            part,
            earlier,
        ) == part(events[i]) by {
            if i < n {
                assert(part(events[n]) is None);
                assert(head[i] == events[i]);
                assert forall|j: int| i < j < head.len() implies part(#[trigger] head[j]) is None by {
                    assert(head[j] == events[j]);
                }
            }
        }
        if forall|j: int| 0 <= j < events.len() ==> part(#[trigger] events[j]) is None {
            assert(part(events[n]) is None);
            assert forall|j: int| 0 <= j < head.len() implies part(#[trigger] head[j]) is None by {
                assert(head[j] == events[j]);
            }
        }
    }
}

proof fn lemma_positions_pair_with_tokens(events: Seq<TokenEvent>, sentinel: Option<u32>)
    ensures
        all_positions(events, sentinel).len() == all_tokens(events, sentinel).len(),
        forall|i: int|
            0 <= i < all_tokens(events, sentinel).len() ==> (#[trigger] all_positions(
                events,
                sentinel,
            )[i]).token_id == all_tokens(events, sentinel)[i],
    decreases events.len(),
{
    if events.len() > 0 {
        lemma_positions_pair_with_tokens(events.drop_last(), sentinel);
    }
}

/// No emitted token and no emitted log probability is lost, whether or not the request ends
/// in the burst: a token event makes an output, which holds the token behind all that the
/// events before it made, and, where any token of the burst carries a log probability, its
/// own log probability at the same place. The positions pair with the tokens one for one.
pub proof fn lemma_no_emitted_logprob_is_lost(
    request_id: Seq<char>,
    state: StreamView,
    events: Seq<TokenEvent>,
    i: int,
)
    requires
        0 <= i < events.len(),
        events[i] is Token,
    ensures
        reduced(request_id, state, events).output matches Some(output) && {
            let at = all_tokens(events.take(i), state.sentinel).len() as int;
            &&& at < output.new_token_ids.len()
            &&& output.new_token_ids[at] == events[i]->Token_id
            &&& output.new_logprobs is Some <==> exists|j: int|
                0 <= j < events.len() && (#[trigger] events[j] matches TokenEvent::Token {
                    logprob: Some(_),
                    ..
                })
            &&& output.new_logprobs matches Some(positions) ==> {
                &&& positions.len() == output.new_token_ids.len()
                &&& forall|k: int|
                    0 <= k < positions.len() ==> (#[trigger] positions[k]).token_id
                        == output.new_token_ids[k]
                &&& positions[at].token_id == events[i]->Token_id
                &&& positions[at].logprob == events[i]->logprob
            }
        },
{
    let sentinel = state.sentinel;
    let token_part = |e: TokenEvent| event_tokens(e, sentinel);
    let position_part = |e: TokenEvent| event_positions(e, sentinel);
    let event = events[i];
    let first = events.take(i);
    let later = events.skip(i + 1);
    assert(events =~= first.push(event) + later);
    assert(first.push(event).drop_last() =~= first);
    lemma_gathered_split(first.push(event), later, token_part);
    lemma_gathered_split(first.push(event), later, position_part);
    lemma_positions_pair_with_tokens(first, sentinel);
    lemma_positions_pair_with_tokens(events, sentinel);
    lemma_any_event_is_exists(events, |e: TokenEvent| event_has_logprobs(e));
    let tokens = gathered(first, token_part);
    let positions = gathered(first, position_part);
    let at = tokens.len() as int;
    assert(gathered(first.push(event), token_part) == tokens + seq![event->Token_id]);
    assert(gathered(first.push(event), position_part) == positions + seq![
        PositionLogprobs { token_id: event->Token_id, logprob: event->logprob },
    ]);
    assert(all_tokens(events, sentinel) == gathered(first.push(event), token_part) + gathered(
        later,
        token_part,
    ));
    assert(all_positions(events, sentinel) == gathered(first.push(event), position_part)
        + gathered(later, position_part));
    assert(all_tokens(events, sentinel)[at] == event->Token_id);
    assert(all_positions(events, sentinel)[at] == (PositionLogprobs {
        token_id: event->Token_id,
        logprob: event->logprob,
    }));
    if any_logprobs(events) {
        let j = choose|j: int|
            0 <= j < events.len() && event_has_logprobs(#[trigger] events[j]);
        assert(events[j] matches TokenEvent::Token { logprob: Some(_), .. });
    }
}

/// Cutting a burst in two changes no token: the tokens of the two outputs, one behind the
/// other, are those of the whole, and so are the positions.
pub proof fn lemma_bursts_add_up(
    first: Seq<TokenEvent>,
    later: Seq<TokenEvent>,
    sentinel: Option<u32>,
)
    ensures
        all_tokens(first + later, sentinel) == all_tokens(first, sentinel) + all_tokens(
            later,
            sentinel,
        ),
        all_positions(first + later, sentinel) == all_positions(first, sentinel) + all_positions(
            later,
            sentinel,
        ),
{
    lemma_gathered_split(first, later, |e: TokenEvent| event_tokens(e, sentinel));
    lemma_gathered_split(first, later, |e: TokenEvent| event_positions(e, sentinel));
}

/// The event ends its request.
pub open spec fn ends(event: TokenEvent) -> bool {
    event is Finished || event is Error || event is Rejected
}

/// A burst ends its request exactly when one of its events does, and there is an output
/// exactly when one of them is a token or such an end. The output carries the request's
/// own id.
pub proof fn lemma_output_verdict(
    request_id: Seq<char>,
    state: StreamView,
    events: Seq<TokenEvent>,
)
    ensures
        ({
            let r = reduced(request_id, state, events);
            &&& r.terminated <==> exists|i: int|
                0 <= i < events.len() && ends(#[trigger] events[i])
            &&& r.output is Some <==> exists|i: int|
                0 <= i < events.len() && (ends(#[trigger] events[i]) || events[i] is Token)
            &&& r.output matches Some(output) ==> output.request_id == request_id
            &&& r.state.sentinel == state.sentinel
        }),
    decreases events.len(),
{
    let r = reduced(request_id, state, events);
    lemma_any_event_is_exists(events, |e: TokenEvent| event_finish(e) is Some);
    if any_terminal(events) {
        let i = choose|i: int|
            0 <= i < events.len() && event_finish(#[trigger] events[i]) is Some;
        assert(ends(events[i]));
    }
    if exists|i: int| 0 <= i < events.len() && ends(#[trigger] events[i]) {
        let i = choose|i: int| 0 <= i < events.len() && ends(#[trigger] events[i]);
        assert(event_finish(events[i]) is Some);
    }
    if all_tokens(events, state.sentinel).len() > 0 {
        lemma_tokens_have_an_event(events, state.sentinel);
    }
    if exists|i: int| 0 <= i < events.len() && (#[trigger] events[i]) is Token {
        let i = choose|i: int| 0 <= i < events.len() && (#[trigger] events[i]) is Token;
        lemma_no_emitted_logprob_is_lost(request_id, state, events, i);
    }
}

proof fn lemma_tokens_have_an_event(events: Seq<TokenEvent>, sentinel: Option<u32>)
    requires
        all_tokens(events, sentinel).len() > 0,
    ensures
        exists|i: int|
            0 <= i < events.len() && (ends(#[trigger] events[i]) || events[i] is Token),
    decreases events.len(),
{
    if events.len() > 0 {
        let head = events.drop_last();
        if all_tokens(head, sentinel).len() > 0 {
            lemma_tokens_have_an_event(head, sentinel);
            let i = choose|i: int|
                0 <= i < head.len() && (ends(#[trigger] head[i]) || head[i] is Token);
            assert(head[i] == events[i]);
        } else {
            assert(events[events.len() - 1] == events.last());
        }
    }
}

/// An output that ends its request says how: the reason of its last ending event, and the
/// message of the last failure or rejection. One that does not end it gives no reason and
/// no message.
pub proof fn lemma_output_says_how_it_ended(
    request_id: Seq<char>,
    state: StreamView,
    events: Seq<TokenEvent>,
    i: int,
)
    requires
        reduced(request_id, state, events).output is Some,
    ensures
        ({
            let output = reduced(request_id, state, events).output->Some_0;
            &&& (0 <= i < events.len() && ends(events[i]) && forall|j: int|
                i < j < events.len() ==> !ends(#[trigger] events[j])) ==> output.finish_reason
                == Some(
                match events[i] {
                    TokenEvent::Finished { finish_reason: FinishReason::Stop, .. } =>
                        EngineCoreFinishReason::Stop,
                    TokenEvent::Finished { finish_reason: FinishReason::Length, .. } =>
                        EngineCoreFinishReason::Length,
                    _ => EngineCoreFinishReason::Error,
                },
            )
            &&& (0 <= i < events.len() && (events[i] is Error || events[i] is Rejected) && forall|
                j: int,
            |
                i < j < events.len() ==> !((#[trigger] events[j]) is Error || events[j] is Rejected))
                ==> output.stop_reason == Some(
                match events[i] {
                    TokenEvent::Error { message, .. } => message@,
                    TokenEvent::Rejected { message, .. } => message@,
                    _ => Seq::empty(),
                },
            )
            &&& (forall|j: int| 0 <= j < events.len() ==> !ends(#[trigger] events[j]))
                ==> output.finish_reason is None && output.stop_reason is None
        }),
{
    let finish = |e: TokenEvent| event_finish(e);
    let message = |e: TokenEvent| event_message(e);
    lemma_latest_is_the_last(events, finish, None);
    lemma_latest_is_the_last(events, message, None);
    assert forall|j: int| 0 <= j < events.len() implies (finish(#[trigger] events[j]) is Some
        <==> ends(events[j])) by {}
    assert forall|j: int| 0 <= j < events.len() implies (message(#[trigger] events[j]) is Some
        <==> (events[j] is Error || events[j] is Rejected)) by {}
}

/// The lifecycle of a request as it is announced: queued first, then scheduled, each at
/// its own time. The prefill accounting counts what was cached, and the rest as computed.
pub proof fn lemma_scheduling_is_announced(
    request_id: Seq<char>,
    state: StreamView,
    events: Seq<TokenEvent>,
    i: int,
)
    requires
        0 <= i < events.len(),
        events[i] is Scheduled,
        forall|j: int| i < j < events.len() ==> !((#[trigger] events[j]) is Scheduled),
        reduced(request_id, state, events).output is Some,
    ensures
        ({
            let output = reduced(request_id, state, events).output->Some_0;
            let scheduled = events[i];
            &&& output.events matches Some(lifecycle) && lifecycle.len() == 2
                && lifecycle[0].event_type == EngineCoreEventType::Queued && lifecycle[0].timestamp
                == scheduled->queued_at_unix_s && lifecycle[1].event_type
                == EngineCoreEventType::Scheduled && lifecycle[1].timestamp
                == scheduled->scheduled_at_unix_s
            &&& scheduled->Scheduled_prompt_tokens <= u32::MAX && scheduled->cached_tokens
                <= scheduled->Scheduled_prompt_tokens ==> (output.prefill_stats matches Some(stats)
                && stats.num_prompt_tokens == scheduled->Scheduled_prompt_tokens
                && stats.num_cached_tokens == scheduled->cached_tokens
                && stats.num_local_cached_tokens == scheduled->cached_tokens
                && stats.num_external_cached_tokens == 0 && stats.num_computed_tokens
                == scheduled->Scheduled_prompt_tokens - scheduled->cached_tokens)
        }),
{
    lemma_last_scheduled(events, i, state.events, state.stats);
    assert(event_lifecycle(events[i]) is Some);
    assert(event_prefill(events[i]) is Some);
}

proof fn lemma_last_scheduled(
    events: Seq<TokenEvent>,
    i: int,
    lifecycle: Option<Seq<EngineCoreEvent>>,
    prefill: Option<PrefillStats>,
)
    requires
        0 <= i < events.len(),
        events[i] is Scheduled,
        forall|j: int| i < j < events.len() ==> !((#[trigger] events[j]) is Scheduled),
    ensures
        last_lifecycle(events, lifecycle) == event_lifecycle(events[i]),
        last_prefill(events, prefill) == event_prefill(events[i]),
    decreases events.len(),
{
    let head = events.drop_last();
    if i < head.len() {
        assert(!(events[events.len() - 1] is Scheduled));
        assert forall|j: int| i < j < head.len() implies !((#[trigger] head[j]) is Scheduled) by {
            assert(head[j] == events[j]);
        }
        lemma_last_scheduled(head, i, lifecycle, prefill);
    }
}

} // verus!
