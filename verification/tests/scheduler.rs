use fastrace::collector::SpanContext;
use openinfer::engine::{
    EngineCommand, EngineControlRequest, GenerateRequest, SamplingParams, TokenEvent, TokenSink,
    TokenStreamReceiver,
};
use openinfer::scheduler::admission::{
    active_lifetime_blocks, admit_deferred_requests, admitted_future_blocks, blocks_needed, current_active_tokens,
    echo_exceeds_prefill_bound, engine_profile, load_snapshot, max_active_tokens,
    max_request_tokens, pending_lifetime_blocks, request_lifetime_blocks, send_rejection,
    servable_len, ExecutorLimits, RejectReason,
};
use openinfer::scheduler::driver::{LoopPhase, PhaseOutcome};
use openinfer::scheduler::phase_trace::{PhaseTracker, TracePhase};
use openinfer::scheduler::prefetch::{
    needs_adapter_list, offer_prefetch, promote_ready, reject_unknown_lora_requests,
    send_unknown_lora_rejection,
};
use openinfer::scheduler::prefill::{
    request_local_chunks, take_prefill_chunks, NumericPolicy, DEFAULT_MAX_PREFILL_TOKENS,
};
use openinfer::scheduler::request::{ActiveRequestState, PendingRequest, RequestId};
use openinfer::scheduler::step::{
    failure_targets_for, runtime_plan, ExecutionPlan, PlanChoice, SchedulerState, Wait,
};
use std::collections::HashMap;

fn pending(id: u64, prompt: usize, max_tokens: usize) -> (PendingRequest, TokenStreamReceiver) {
    let (token_tx, rx) = TokenSink::standalone();
    let request = GenerateRequest {
        trace_parent: None,
        request_id: Some(format!("req-{id}")),
        queued_at_unix_s: None,
        data_parallel_rank: None,
        prompt_tokens: vec![1; prompt],
        params: SamplingParams::default(),
        max_tokens,
        lora_adapter: None,
        kv_transfer_params: None,
        token_tx,
        logprobs: 0,
        echo: false,
    };
    (PendingRequest::from_scheduler_request(RequestId::new(id), request), rx)
}

fn active(id: u64, prompt_len: usize, generated: usize, max_tokens: usize) -> ActiveRequestState {
    let (token_tx, _rx) = TokenSink::standalone();
    ActiveRequestState {
        request_id: RequestId::new(id),
        lora_adapter: None,
        token_tx,
        last_token: 1,
        generated_count: generated,
        max_tokens,
        prompt_len,
        params: SamplingParams::default(),
        logprobs: 0,
    }
}

fn limits() -> ExecutorLimits {
    ExecutorLimits {
        block_size: 16,
        available_blocks: 10,
        max_request_blocks: 8,
        max_context_tokens: 128,
        max_decode_batch_size: 2,
        max_prefill_tokens: 64,
    }
}

fn ids(requests: &[PendingRequest]) -> Vec<u64> {
    requests.iter().map(|r| r.request_id.get()).collect()
}

#[test]
fn block_accounting_rounds_up() {
    assert_eq!(blocks_needed(0, 16), 0);
    assert_eq!(blocks_needed(17, 16), 2);
    assert_eq!(request_lifetime_blocks(16, 1, 16), 1);
    assert_eq!(request_lifetime_blocks(16, 2, 16), 2);
    assert_eq!(request_lifetime_blocks(0, 0, 16), 1);
    let (request, _rx) = pending(1, 20, 13);
    assert_eq!(max_request_tokens(&request), 32);
    assert_eq!(pending_lifetime_blocks(&request, 16), 3);
    let running = active(2, 20, 5, 13);
    assert_eq!(max_active_tokens(&running), 32);
    assert_eq!(current_active_tokens(&running), 24);
    assert_eq!(active_lifetime_blocks(&running, 16), 3);
    assert_eq!(servable_len(4096, 10, 16), 160);
    assert_eq!(servable_len(100, 10, 16), 100);
    assert_eq!(servable_len(usize::MAX, usize::MAX, 16), u32::MAX);
}

#[test]
fn admission_fills_budget_and_slots_in_order() {
    let (a, _ra) = pending(1, 40, 8);
    let (b, _rb) = pending(2, 100, 28);
    let (c, _rc) = pending(3, 10, 6);
    let (d, _rd) = pending(4, 10, 6);
    let outcome =
        admit_deferred_requests(vec![a, b, c, d], &[], &[], &limits(), &HashMap::new());
    assert_eq!(ids(&outcome.pending), vec![1, 3]);
    assert_eq!(ids(&outcome.deferred), vec![2, 4]);
    assert!(outcome.rejected.is_empty());
}

#[test]
fn an_idle_instance_serves_the_head() {
    let (largest, _r) = pending(1, 100, 28);
    assert_eq!(pending_lifetime_blocks(&largest, 16), limits().max_request_blocks);
    let (next, _rn) = pending(2, 100, 28);
    let outcome =
        admit_deferred_requests(vec![largest, next], &[], &[], &limits(), &HashMap::new());
    assert_eq!(ids(&outcome.pending), vec![1]);
    assert_eq!(ids(&outcome.deferred), vec![2]);
    let (impossible, _ri) = pending(3, 100, 100);
    let outcome = admit_deferred_requests(vec![impossible], &[], &[], &limits(), &HashMap::new());
    assert!(outcome.pending.is_empty() && outcome.deferred.is_empty());
    assert_eq!(outcome.rejected.len(), 1);
}

#[test]
fn impossible_requests_are_rejected_whatever_the_load() {
    let (long, mut long_rx) = pending(1, 100, 100);
    let (mut echo, mut echo_rx) = pending(2, 65, 1);
    echo.echo = true;
    assert!(echo_exceeds_prefill_bound(&echo, 64));
    let (fat, mut fat_rx) = pending(3, 113, 2);
    let mut tight = limits();
    tight.max_request_blocks = 7;
    let outcome =
        admit_deferred_requests(vec![long, echo, fat], &[], &[], &tight, &HashMap::new());
    let reasons: Vec<RejectReason> = outcome.rejected.iter().map(|(_, r)| *r).collect();
    assert_eq!(
        reasons,
        vec![
            RejectReason::ContextLength { limit: 128 },
            RejectReason::EchoPrefillTokens { limit: 64 },
            RejectReason::KvBudget,
        ]
    );
    for (request, reason) in &outcome.rejected {
        send_rejection(request, *reason);
    }
    let mut message = |rx: &mut TokenStreamReceiver| match rx.try_recv() {
        Ok((_, TokenEvent::Rejected { message, .. })) => message,
        _ => panic!("a rejection was sent"),
    };
    assert_eq!(
        message(&mut long_rx),
        "request exceeds this model's maximum context length of 128 tokens: requested 200 (prompt=100 + max_tokens=100)"
    );
    assert_eq!(
        message(&mut echo_rx),
        "echo request prompt exceeds the profiled prefill limit of 64 tokens: prompt_tokens=65"
    );
    assert!(message(&mut fat_rx).starts_with(
        "request requires more KV blocks than this model instance can provide: prompt_tokens=113"
    ));
}

#[test]
fn prefill_chunks_share_the_token_budget() {
    let (a, _ra) = pending(1, 50, 4);
    let (b, _rb) = pending(2, 30, 4);
    let (c, _rc) = pending(3, 10, 4);
    let mut queue = vec![a, b, c];
    let taken = take_prefill_chunks(&mut queue, 64, false);
    let mut chunks: Vec<(u64, usize)> =
        taken.iter().map(|r| (r.request_id.get(), r.step_chunk)).collect();
    chunks.sort();
    assert_eq!(chunks, vec![(1, 50), (2, 14)]);
    assert_eq!(ids(&queue), vec![3]);
    assert_eq!(DEFAULT_MAX_PREFILL_TOKENS, 1024);
}

#[test]
fn request_local_chunks_do_not_depend_on_the_batch() {
    let (a, _ra) = pending(1, 50, 4);
    let (b, _rb) = pending(2, 30, 4);
    let mut queue = vec![a, b];
    let taken = take_prefill_chunks(&mut queue, 64, true);
    assert_eq!(ids(&taken), vec![1]);
    assert_eq!(taken[0].step_chunk, 50);
    let (alone, _r) = pending(2, 30, 4);
    let taken = take_prefill_chunks(&mut vec![alone], 64, true);
    assert_eq!(taken[0].step_chunk, 30);
}

#[test]
fn prefetched_requests_return_to_the_queue() {
    let (a, _ra) = pending(1, 4, 4);
    let (mut b, _rb) = pending(2, 4, 4);
    b.echo = true;
    let (c, _rc) = pending(3, 4, 4);
    let mut deferred = vec![a, b, c];
    let mut loading = Vec::new();
    assert!(deferred[0].wants_prefetch() && !deferred[1].wants_prefetch());
    offer_prefetch(&mut deferred, &mut loading, &[true, false, false]);
    assert_eq!(ids(&deferred), vec![2, 3]);
    assert_eq!(ids(&loading), vec![1]);
    assert!(!deferred[1].wants_prefetch(), "a request is offered once");
    promote_ready(&[RequestId::new(1)], &mut deferred, &mut loading);
    assert!(loading.is_empty());
    assert!(ids(&deferred).contains(&1));
}

#[test]
fn unknown_adapters_are_rejected() {
    let (mut a, mut rx) = pending(1, 4, 4);
    a.lora_adapter = Some("adapter-x".to_string());
    let (b, _rb) = pending(2, 4, 4);
    let (mut c, _rc) = pending(3, 4, 4);
    c.lora_adapter = Some("adapter-a".to_string());
    let queue = vec![a, b, c];
    assert!(needs_adapter_list(&queue));
    let outcome = reject_unknown_lora_requests(queue, &["adapter-a".to_string()]);
    assert_eq!(ids(&outcome.accepted), vec![2, 3]);
    assert_eq!(ids(&outcome.rejected), vec![1]);
    send_unknown_lora_rejection(&outcome.rejected[0]);
    match rx.try_recv() {
        Ok((_, TokenEvent::Rejected { message, .. })) => {
            assert_eq!(message, "LoRA adapter is not loaded: adapter-x")
        }
        _ => panic!("a rejection was sent"),
    }
}

#[test]
fn plans_follow_the_step() {
    assert!(matches!(
        runtime_plan(true, true, Vec::new()),
        PlanChoice::Run(ExecutionPlan::SpeculativeDecode)
    ));
    let (a, _ra) = pending(1, 4, 4);
    assert!(matches!(
        runtime_plan(true, true, vec![a]),
        PlanChoice::Run(ExecutionPlan::Prefill { .. })
    ));
    assert!(matches!(
        runtime_plan(false, true, Vec::new()),
        PlanChoice::Build { has_active: true, .. }
    ));
}

#[test]
fn the_state_carries_requests_through_a_step() {
    let mut tracker = PhaseTracker::new();
    let mut state = SchedulerState::new();
    assert_eq!(state.idle_wait(), Wait::ForArrival);
    let (a, _ra) = pending(7, 20, 4);
    let (token_tx, _rx) = TokenSink::standalone();
    state.submit(&mut tracker, GenerateRequest {
        trace_parent: None,
        request_id: None,
        queued_at_unix_s: None,
        data_parallel_rank: None,
        prompt_tokens: a.prompt_tokens.clone(),
        params: SamplingParams::default(),
        max_tokens: 4,
        lora_adapter: None,
        kv_transfer_params: None,
        token_tx,
        logprobs: 0,
        echo: false,
    });
    assert_eq!(state.num_waiting(), 1);
    assert_eq!(state.num_running(), 0);
    let intake = state.intake(&limits(), false, &HashMap::new(), &[]);
    assert_eq!(intake.pending.len(), 1);
    assert_eq!(state.num_waiting(), 0);
    let plan = ExecutionPlan::Unified { pending: intake.pending };
    assert!(state.overlaps(&plan, true, false));
    assert!(!state.overlaps(&plan, true, true), "a loop with control never overlaps");
    state.step_succeeded(plan, true);
    let plan = ExecutionPlan::Decode;
    assert!(!state.overlaps(&plan, true, false));
    assert_eq!(state.take_completed_prefill().map(|batch| batch.len()), Some(1));
    assert!(state.take_completed_prefill().is_none());
}

#[test]
fn a_failed_step_tells_every_request_it_touched() {
    let mut tracker = PhaseTracker::new();
    let mut state = SchedulerState::new();
    let (token_tx, mut rx) = TokenSink::standalone();
    let mut running = active(1, 20, 5, 13);
    running.token_tx = token_tx;
    state.active.push(running);
    let (late, mut late_rx) = pending(2, 9, 4);
    let plan = ExecutionPlan::Unified { pending: vec![late] };
    let targets = failure_targets_for(&state.active, &plan);
    assert_eq!(targets.len(), 2);
    let parent = Some(SpanContext::random());
    for id in [1, 2, 3] {
        tracker.enter_queue(RequestId::new(id), parent);
    }
    let dropped = state.step_failed(&mut tracker, &targets, "kernel failed");
    assert_eq!(dropped.iter().map(|id| id.get()).collect::<Vec<_>>(), vec![1, 2]);
    assert!(state.active.is_empty());
    assert_eq!(tracker.phase_of(RequestId::new(1)), None);
    assert_eq!(tracker.phase_of(RequestId::new(2)), None);
    assert_eq!(tracker.phase_of(RequestId::new(3)), Some(TracePhase::Queue));
    match rx.try_recv() {
        Ok((_, TokenEvent::Error { message, prompt_tokens, completion_tokens })) => {
            assert_eq!(message, "kernel failed");
            assert_eq!((prompt_tokens, completion_tokens), (20, 5));
        }
        _ => panic!("the running request hears of it"),
    }
    assert!(matches!(late_rx.try_recv(), Ok((_, TokenEvent::Error { .. }))));
}

#[test]
fn control_requests_wait_for_an_idle_engine() {
    let mut tracker = PhaseTracker::new();
    let mut state = SchedulerState::new();
    let (response_tx, _response_rx) = tokio::sync::oneshot::channel();
    let list = EngineControlRequest::ListLoraAdapters { response_tx };
    state.enqueue_engine_command(&mut tracker, EngineCommand::Control(list));
    assert_eq!(state.pending_control.len(), 1);
    let (token_tx, _rx) = TokenSink::standalone();
    state.enqueue_engine_command(&mut tracker, EngineCommand::Generate(Box::new(GenerateRequest {
        trace_parent: None,
        request_id: None,
        queued_at_unix_s: None,
        data_parallel_rank: None,
        prompt_tokens: vec![1],
        params: SamplingParams::default(),
        max_tokens: 1,
        lora_adapter: None,
        kv_transfer_params: None,
        token_tx,
        logprobs: 0,
        echo: false,
    })));
    assert_eq!(state.post_control_deferred.len(), 1, "requests behind a control wait for it");
    assert!(state.deferred.is_empty(), "nothing behind a control is offered");
    state.active.push(active(9, 20, 5, 13));
    assert_eq!(state.drain_idle_control().len(), 0, "a running request holds it up");
    assert_eq!(state.post_control_deferred.len(), 1);
    state.active.clear();
    let drained = state.drain_idle_control();
    assert_eq!(drained.len(), 1);
    assert!(state.pending_control.is_empty());
    assert!(state.post_control_deferred.is_empty());
    assert_eq!(state.deferred.len(), 1, "the request is let through");
}

#[test]
fn the_profile_and_the_load_are_announced() {
    let profile = engine_profile(&limits());
    assert_eq!(profile.servable_len, 128);
    assert_eq!(profile.kv_capacity.total_tokens(), 160);
    assert_eq!(profile.initial_load.kv_total_blocks, 10);
    let load = load_snapshot(10, 4, 2, 1, None);
    assert_eq!(load.kv_used_blocks, 6);
    let load = load_snapshot(10, 14, 2, 1, None);
    assert_eq!(load.kv_used_blocks, 0);
}

#[test]
fn the_loop_goes_round() {
    let mut state = SchedulerState::new();
    let next = |state: &SchedulerState, phase, outcome, control| {
        state.next_phase(phase, outcome, control)
    };
    let done = PhaseOutcome::Done;
    assert_eq!(next(&state, LoopPhase::Publish, done, false), LoopPhase::Drain);
    assert_eq!(next(&state, LoopPhase::Drain, done, false), LoopPhase::Reclaim);
    assert_eq!(next(&state, LoopPhase::Reclaim, done, false), LoopPhase::Offer);
    assert_eq!(
        next(&state, LoopPhase::Offer, done, false),
        LoopPhase::Wait(Wait::ForArrival)
    );
    assert_eq!(next(&state, LoopPhase::Offer, done, true), LoopPhase::Control);
    let wait = LoopPhase::Wait(Wait::ForArrival);
    assert_eq!(next(&state, wait, done, false), LoopPhase::Publish);
    assert_eq!(next(&state, wait, PhaseOutcome::HandlesDropped, false), LoopPhase::Exit);
    let (waiting, _rx) = pending(0, 4, 4);
    state.loading.push(waiting);
    assert_eq!(
        next(&state, LoopPhase::Control, done, true),
        LoopPhase::Wait(Wait::ForPrefetch)
    );
    state.active.push(active(1, 4, 1, 4));
    assert_eq!(next(&state, LoopPhase::Offer, done, false), LoopPhase::Intake);
    let packed = PhaseOutcome::Packed(0);
    assert_eq!(next(&state, LoopPhase::Intake, packed, true), LoopPhase::Step);
    state.active.clear();
    assert_eq!(
        next(&state, LoopPhase::Intake, packed, true),
        LoopPhase::Wait(Wait::ForPrefetch)
    );
    assert_eq!(next(&state, LoopPhase::Intake, packed, false), LoopPhase::Step);
    assert_eq!(next(&state, LoopPhase::Step, done, false), LoopPhase::Publish);
}

#[test]
fn promised_blocks_count_growth_and_prefetches() {
    // 33 of 48 tokens are written: the three blocks that hold them hold the rest too.
    let running = vec![active(1, 32, 2, 16)];
    let (mut half, _rx) = pending(2, 40, 8);
    half.prefill_pos = 16;
    let prefilling = vec![half];
    let none = HashMap::new();
    assert_eq!(admitted_future_blocks(&running, &[], 16, &none), 0);
    assert_eq!(admitted_future_blocks(&[], &prefilling, 16, &none), 2);
    let credit = HashMap::from([(2u64, 1usize)]);
    assert_eq!(admitted_future_blocks(&running, &prefilling, 16, &credit), 1);
}

#[test]
fn the_state_parks_and_reclaims_prefetches() {
    let mut state = SchedulerState::new();
    for id in 1..=3 {
        state.deferred.push(pending(id, 4, 4).0);
    }
    state.next_request_id = 4;
    assert!(state.may_offer_prefetch());
    state.settle_offers(&[true, false, true]);
    assert_eq!(ids(&state.deferred), vec![2]);
    assert_eq!(ids(&state.loading), vec![1, 3]);
    state.reclaim_ready_prefetch(&[RequestId::new(3), RequestId::new(9)]);
    assert_eq!(ids(&state.deferred), vec![3, 2]);
    assert_eq!(ids(&state.loading), vec![1]);
}

#[test]
fn a_traced_request_goes_through_its_phases() {
    let mut tracker = PhaseTracker::new();
    let (traced, untraced) = (RequestId::new(1), RequestId::new(2));
    tracker.enter_queue(traced, Some(SpanContext::random()));
    tracker.enter_queue(untraced, None);
    assert_eq!(tracker.phase_of(traced), Some(TracePhase::Queue));
    assert_eq!(tracker.phase_of(untraced), None);
    tracker.enter_prefill(traced);
    tracker.enter_prefill(traced);
    tracker.enter_prefill(untraced);
    assert_eq!(tracker.phase_of(traced), Some(TracePhase::Prefill));
    assert_eq!(tracker.phase_of(untraced), None);
    tracker.enter_decode(traced);
    tracker.enter_prefill(traced);
    assert_eq!(tracker.phase_of(traced), Some(TracePhase::Decode), "no way back");
    tracker.finish(traced);
    tracker.finish(traced);
    assert_eq!(tracker.phase_of(traced), None);
    assert_eq!(TracePhase::Prefill.name(), "prefill");
}

#[test]
fn pinned_numbers_cut_prompts_by_their_own_length() {
    assert!(request_local_chunks(NumericPolicy::Pin, false));
    assert!(request_local_chunks(NumericPolicy::PerToken, false));
    assert!(!request_local_chunks(NumericPolicy::Free, false));
    assert!(!request_local_chunks(NumericPolicy::Pin, true));
}
