use fastrace::collector::SpanContext;
use fastrace::Span;
use openinfer::bridge::dispatch::dispatch_burst;
use openinfer::bridge::output::{
    terminal_error, EngineCoreFinishReason, EngineCoreOutput, RequestBatchOutputs, StopReason,
};
use openinfer::bridge::run::{Bridge, BridgeAction, BridgeEvent, BridgeMessage, BridgeStop};
use openinfer::bridge::start::{
    check_frames, child_exit_verdict, ipc_endpoint, ipc_namespace_for, local_ipc_namespace,
    ready_response, start_request, stop_sentinel_id, utility_result, ChildExit, EngineCoreRequest,
    take_argument, ModelDtype, SamplingRequest, StartOutcome, UtilityResult,
};
use openinfer::bridge::stats::{spec_decode_delta, SpecDecodingStats, StatsPublisher};
use openinfer::bridge::streams::{abort_requests, RequestStreamState, StreamTable};
use openinfer::bridge::wire::{utility_message, utility_message_of, UtilityCall};
use openinfer::engine::{
    FinishReason, KvCapacity, RequestAbortReason, RequestTag, SamplingParams, TokenEvent,
    TokenLogprob,
};
use openinfer::metrics::{LoadSnapshot, SpecDecodeCounters};
use std::sync::atomic::{AtomicU8, Ordering};
use std::sync::Arc;
use tokio::sync::mpsc;

/// Registers requests, queues tagged events, and dispatches one ready burst at a
/// time.
struct Demux {
    queued: Vec<(RequestTag, TokenEvent)>,
    streams: StreamTable,
    outputs: Vec<RequestBatchOutputs>,
}

impl Demux {
    fn new() -> Self {
        Self { queued: Vec::new(), streams: StreamTable::new(), outputs: Vec::new() }
    }

    fn add(&mut self, id: &str) -> Arc<AtomicU8> {
        self.add_with_stop_sentinel(id, None)
    }

    fn add_with_stop_sentinel(&mut self, id: &str, stop_sentinel_id: Option<u32>) -> Arc<AtomicU8> {
        let abort_reason = Arc::new(AtomicU8::new(RequestAbortReason::NotAborted as u8));
        self.streams
            .insert(
                id,
                RequestStreamState::new(Arc::clone(&abort_reason), Span::noop(), stop_sentinel_id),
            );
        abort_reason
    }

    fn emit(&mut self, id: &str, event: TokenEvent) {
        self.queued.push((Arc::from(id), event));
    }

    fn drain(&mut self) -> bool {
        if self.queued.is_empty() {
            return false;
        }
        let burst = std::mem::take(&mut self.queued);
        if let Some(outputs) = dispatch_burst(0, burst, &mut self.streams) {
            self.outputs.push(outputs);
        }
        true
    }

    fn next_output(&mut self) -> Option<RequestBatchOutputs> {
        if self.outputs.is_empty() {
            None
        } else {
            Some(self.outputs.remove(0))
        }
    }
}

fn scheduled(prompt_tokens: usize, cached_tokens: usize) -> TokenEvent {
    TokenEvent::Scheduled {
        queued_at_unix_s: 1.0f64.to_bits(),
        scheduled_at_unix_s: 2.0f64.to_bits(),
        prompt_tokens,
        cached_tokens,
    }
}

fn token(id: u32) -> TokenEvent {
    TokenEvent::Token { id, logprob: None }
}

fn finished(finish_reason: FinishReason, prompt_tokens: usize, completion_tokens: usize) -> TokenEvent {
    TokenEvent::Finished { finish_reason, prompt_tokens, completion_tokens }
}

fn logprob(value: f32, top: Vec<(u32, f32)>) -> Option<TokenLogprob> {
    Some(TokenLogprob {
        logprob: value.to_bits(),
        top_logprobs: top.into_iter().map(|(id, p)| (id, p.to_bits())).collect(),
    })
}

#[test]
fn token_and_finish_in_one_burst_coalesce() {
    let mut d = Demux::new();
    d.add("req-1");
    d.emit("req-1", scheduled(16, 0));
    d.emit(
        "req-1",
        TokenEvent::Token { id: 11, logprob: logprob(-0.1, vec![(11, -0.1), (12, -0.5)]) },
    );
    d.emit(
        "req-1",
        TokenEvent::Token { id: 21, logprob: logprob(-0.2, vec![(21, -0.2), (22, -0.6)]) },
    );
    d.emit("req-1", finished(FinishReason::Length, 16, 2));
    assert!(d.drain());

    let outputs = d.next_output().expect("coalesced output");
    assert_eq!(outputs.outputs.len(), 1);
    let output = &outputs.outputs[0];
    assert_eq!(output.request_id, "req-1");
    assert_eq!(output.new_token_ids, vec![11, 21]);
    assert_eq!(output.finish_reason, Some(EngineCoreFinishReason::Length));
    assert!(output.events.is_some());
    assert!(output.prefill_stats.is_some());
    assert!(outputs
        .finished_requests
        .as_ref()
        .is_some_and(|requests| requests.contains(&"req-1".to_string())));

    let positions = output.new_logprobs.as_ref().expect("batched logprobs");
    assert_eq!(positions.len(), 2);
    assert_eq!(positions[0].token_id, 11);
    assert_eq!(positions[1].token_id, 21);
    assert_eq!(positions[0].logprob, logprob(-0.1, vec![(11, -0.1), (12, -0.5)]));
    assert_eq!(positions[1].logprob, logprob(-0.2, vec![(21, -0.2), (22, -0.6)]));

    assert!(d.next_output().is_none());
}

#[test]
fn stop_output_appends_eos_for_vllm_decoder() {
    let mut d = Demux::new();
    d.add_with_stop_sentinel("req-stop-eos", Some(2));
    d.emit("req-stop-eos", token(11));
    d.emit("req-stop-eos", finished(FinishReason::Stop, 16, 3));
    assert!(d.drain());

    let batch = d.next_output().expect("terminal output");
    let output = &batch.outputs[0];
    assert_eq!(output.new_token_ids, vec![11, 2]);
    assert_eq!(output.finish_reason, Some(EngineCoreFinishReason::Stop));
}

#[test]
fn explicit_stop_token_is_used_as_sentinel_when_eos_is_absent() {
    assert_eq!(stop_sentinel_id(None, &[42, 43]), Some(42));
    assert_eq!(stop_sentinel_id(Some(2), &[42, 43]), Some(2));
    assert_eq!(stop_sentinel_id(None, &[]), None);

    let mut d = Demux::new();
    d.add_with_stop_sentinel("req-stop-token", Some(42));
    d.emit("req-stop-token", token(11));
    d.emit("req-stop-token", finished(FinishReason::Stop, 16, 2));
    assert!(d.drain());

    let batch = d.next_output().expect("terminal output");
    let output = &batch.outputs[0];
    assert_eq!(output.new_token_ids, vec![11, 42]);
    assert_eq!(output.finish_reason, Some(EngineCoreFinishReason::Stop));
}

#[test]
fn lone_scheduled_defers_until_first_token() {
    let mut d = Demux::new();
    d.add("req-defer");
    d.emit("req-defer", scheduled(4, 0));
    assert!(d.drain());
    assert!(d.next_output().is_none(), "scheduled alone emits nothing");
    assert!(d.streams.contains_key("req-defer"), "stream is retained");

    d.emit("req-defer", token(7));
    assert!(d.drain());
    let output = d.next_output().expect("first token output");
    assert_eq!(output.outputs[0].new_token_ids, vec![7]);
    assert!(
        output.outputs[0].events.is_some(),
        "deferred scheduled events flush onto the first token"
    );
}

fn handoff() -> serde_json::Value {
    let mut inner = serde_json::Map::new();
    inner.insert("version".to_string(), serde_json::Value::from(1));
    let mut outer = serde_json::Map::new();
    outer.insert("openinfer_pd".to_string(), serde_json::Value::Object(inner));
    serde_json::Value::Object(outer)
}

#[test]
fn lone_kv_transfer_defers_until_terminal_output() {
    let mut d = Demux::new();
    d.add("req-handoff");
    let params = handoff();
    d.emit("req-handoff", TokenEvent::KvTransfer { params: params.clone() });
    assert!(d.drain());
    assert!(d.next_output().is_none(), "KV transfer alone emits nothing");
    assert!(
        d.streams.get("req-handoff").expect("live").kv_transfer_params.is_some(),
        "handoff metadata remains attached to the live request"
    );

    d.emit("req-handoff", finished(FinishReason::Stop, 4, 1));
    assert!(d.drain());
    let output = d.next_output().expect("terminal output");
    assert_eq!(output.outputs[0].kv_transfer_params, Some(params));
}

#[test]
fn first_token_metadata_is_only_sent_with_first_output() {
    let mut d = Demux::new();
    d.add("req-2");
    d.emit("req-2", scheduled(8, 5));
    d.emit("req-2", token(1));
    assert!(d.drain());

    d.emit("req-2", TokenEvent::PromptTokens { ids: vec![9], logprobs: vec![None] });
    d.emit("req-2", token(2));
    assert!(d.drain());

    let first_batch = d.next_output().expect("first batch");
    let second_batch = d.next_output().expect("second batch");
    assert_eq!(first_batch.outputs[0].new_token_ids, vec![1]);
    assert_eq!(second_batch.outputs[0].new_token_ids, vec![2]);
    assert!(first_batch.outputs[0].events.is_some());
    let stats = first_batch.outputs[0]
        .prefill_stats
        .as_ref()
        .expect("first batch carries prefill stats");
    assert_eq!(stats.num_prompt_tokens, 8);
    assert_eq!(stats.num_cached_tokens, 5);
    assert_eq!(stats.num_local_cached_tokens, 5);
    assert_eq!(
        stats.num_computed_tokens, 3,
        "computed must be prompt minus cached, not the full prompt"
    );
    assert!(second_batch.outputs[0].events.is_none());
    assert!(second_batch.outputs[0].prefill_stats.is_none());
    assert!(d.next_output().is_none());
}

#[test]
fn stop_on_prefill_terminal_output_carries_prefill_stats() {
    let mut d = Demux::new();
    d.add("req-stop");
    d.emit("req-stop", scheduled(16, 4));
    d.emit("req-stop", finished(FinishReason::Stop, 16, 0));
    assert!(d.drain());

    let terminal = d.next_output().expect("terminal output");
    let output = &terminal.outputs[0];
    assert_eq!(output.finish_reason, Some(EngineCoreFinishReason::Stop));
    assert!(output.events.is_some(), "queued/scheduled events must flush");
    let stats = output
        .prefill_stats
        .as_ref()
        .expect("terminal output must flush prefill stats");
    assert_eq!(stats.num_cached_tokens, 4);
    assert_eq!(stats.num_computed_tokens, 12);
    assert!(d.next_output().is_none());
}

#[test]
fn burst_batches_multiple_requests_into_one_message() {
    let mut d = Demux::new();
    d.add("req-a");
    d.add("req-b");
    d.emit("req-a", token(1));
    d.emit("req-b", token(2));
    assert!(d.drain());

    let outputs = d.next_output().expect("one coalesced message");
    assert_eq!(outputs.outputs.len(), 2);
    let find = |id: &str| -> &EngineCoreOutput {
        outputs.outputs.iter().find(|o| o.request_id == id).expect("output")
    };
    assert_eq!(find("req-a").new_token_ids, vec![1]);
    assert_eq!(find("req-b").new_token_ids, vec![2]);
    assert!(d.next_output().is_none(), "exactly one wire message");
}

#[test]
fn aborted_request_drops_late_tokens() {
    let mut d = Demux::new();
    let abort_reason = d.add("req-abort");

    RequestAbortReason::Cancelled.store(&abort_reason);
    d.streams.remove("req-abort");

    d.emit("req-abort", token(99));
    assert!(d.drain(), "the late event is consumed");
    assert!(d.next_output().is_none(), "no output is produced for an aborted request");
}

#[test]
fn abort_reason_tracks_first_output_boundary() {
    let mut d = Demux::new();
    let disconnected = d.add("req-before-output");
    let cancelled = d.add("req-after-output");

    d.emit("req-after-output", token(7));
    assert!(d.drain());
    assert_eq!(d.next_output().expect("first output").outputs.len(), 1);
    assert!(d
        .streams
        .get("req-after-output")
        .is_some_and(|state| state.has_emitted_tokens));

    let reasons = abort_requests(
        &mut d.streams,
        &[
            "req-before-output".to_string(),
            "req-unknown".to_string(),
            "req-after-output".to_string(),
        ],
    );
    assert_eq!(
        reasons,
        vec![RequestAbortReason::Disconnected, RequestAbortReason::Cancelled]
    );
    assert_eq!(d.streams.len(), 0);

    assert_eq!(
        RequestAbortReason::from_raw(disconnected.load(Ordering::Acquire)),
        RequestAbortReason::Disconnected
    );
    assert_eq!(
        RequestAbortReason::from_raw(cancelled.load(Ordering::Acquire)),
        RequestAbortReason::Cancelled
    );
}

#[test]
fn rejected_request_is_reported_as_error() {
    let mut d = Demux::new();
    d.add("req-1");
    d.emit(
        "req-1",
        TokenEvent::Rejected {
            message: "request is too large for KV cache".to_string(),
            prompt_tokens: 16,
            completion_tokens: 0,
        },
    );
    assert!(d.drain());

    let outputs = d.next_output().expect("terminal output");
    assert!(outputs
        .finished_requests
        .as_ref()
        .is_some_and(|requests| requests.contains(&"req-1".to_string())));
    assert_eq!(outputs.outputs.len(), 1);
    let output = &outputs.outputs[0];
    assert_eq!(output.request_id, "req-1");
    assert_eq!(output.finish_reason, Some(EngineCoreFinishReason::Error));
    assert_eq!(
        output.stop_reason,
        Some(StopReason::Text("request is too large for KV cache".to_string()))
    );
    assert!(d.next_output().is_none());
    assert!(!d.streams.contains_key("req-1"), "finished stream is removed");
}

#[test]
fn load_snapshots_become_stats_only_batches() {
    let mut publisher = StatsPublisher::new();
    let batch = publisher.publish_batch(7, &LoadSnapshot {
        kv_used_blocks: 25,
        kv_total_blocks: 100,
        num_running_reqs: 2,
        num_waiting_reqs: 1,
        spec_decode: None,
    });
    assert!(batch.outputs.is_empty());
    assert!(batch.finished_requests.is_none());
    assert_eq!(batch.engine_index, 7);
    let stats = batch.scheduler_stats.expect("scheduler stats");
    assert_eq!(stats.num_running_reqs, 2);
    assert_eq!(stats.num_waiting_reqs, 1);
    assert_eq!((stats.kv_used_blocks, stats.kv_total_blocks), (25, 100));
    let batch = publisher.publish_batch(7, &LoadSnapshot::default());
    let stats = batch.scheduler_stats.expect("scheduler stats");
    assert_eq!(stats.num_running_reqs, 0);
    assert_eq!((stats.kv_used_blocks, stats.kv_total_blocks), (0, 0));
    assert!(stats.spec_decoding_stats.is_none());
}

#[test]
fn spec_delta_telescopes_to_cumulative() {
    let mut totals = SpecDecodeCounters::new(3).expect("K within bounds");
    let mut last = SpecDecodeCounters::default();
    let mut summed = SpecDecodingStats {
        num_spec_tokens: 0,
        num_drafts: 0,
        num_draft_tokens: 0,
        num_accepted_tokens: 0,
        num_accepted_tokens_per_pos: Vec::new(),
    };
    for (draft, accept) in [(3usize, 3usize), (3, 0), (2, 1)] {
        totals.observe_draft(draft, accept);
        let delta = spec_decode_delta(&last, &totals);
        summed.num_drafts += delta.num_drafts;
        summed.num_draft_tokens += delta.num_draft_tokens;
        summed.num_accepted_tokens += delta.num_accepted_tokens;
        last = totals;
    }
    assert_eq!(summed.num_drafts, totals.num_drafts);
    assert_eq!(summed.num_draft_tokens, totals.num_draft_tokens);
    assert_eq!(summed.num_accepted_tokens, totals.num_accepted_tokens);
    assert_eq!(totals.num_accepted_tokens, 4);

    let fresh = SpecDecodeCounters::new(3).expect("K within bounds");
    let big = spec_decode_delta(&fresh, &totals);
    assert_eq!(big.num_drafts, 3);
    assert_eq!(big.num_draft_tokens, 8);
    assert_eq!(big.num_accepted_tokens, 4);
    assert_eq!(big.num_spec_tokens, 3);
    assert_eq!(big.num_accepted_tokens_per_pos.len(), 3);
    assert_eq!(
        big.num_accepted_tokens_per_pos.iter().sum::<u64>(),
        big.num_accepted_tokens
    );
}

#[test]
fn idle_intervals_omit_spec_decoding_stats() {
    let mut totals = SpecDecodeCounters::new(2).expect("K within bounds");
    totals.observe_draft(2, 1);
    let mut publisher = StatsPublisher::new();

    let first = publisher.publish(&LoadSnapshot {
        spec_decode: Some(totals),
        ..LoadSnapshot::default()
    });
    let spec = first.spec_decoding_stats.expect("first interval has a draft");
    assert_eq!(spec.num_drafts, 1);
    assert_eq!(spec.num_accepted_tokens, 1);

    let idle = publisher.publish(&LoadSnapshot {
        spec_decode: Some(totals),
        num_running_reqs: 1,
        ..LoadSnapshot::default()
    });
    assert!(idle.spec_decoding_stats.is_none());

    totals.observe_draft(2, 2);
    let resumed = publisher.publish(&LoadSnapshot {
        spec_decode: Some(totals),
        ..LoadSnapshot::default()
    });
    let spec = resumed.spec_decoding_stats.expect("second draft interval");
    assert_eq!(spec.num_drafts, 1);
    assert_eq!(spec.num_accepted_tokens, 2);

    let gone = publisher.publish(&LoadSnapshot::default());
    assert!(gone.spec_decoding_stats.is_none());
    let back = publisher.publish(&LoadSnapshot {
        spec_decode: Some(totals),
        ..LoadSnapshot::default()
    });
    assert_eq!(back.spec_decoding_stats.expect("whole totals again").num_drafts, 2);
}

fn sampling() -> SamplingRequest {
    SamplingRequest {
        unsupported: None,
        lora_adapter: Ok(Some("adapter-a".to_string())),
        eos_token_id: None,
        stop_token_ids: vec![5, 6],
        max_tokens: 12,
        params: SamplingParams::default(),
        logprobs: 3,
        extra_args: Some(vec![
            ("kv_transfer".to_string(), serde_json::Value::Null),
            ("kv_transfer_params".to_string(), handoff()),
        ]),
    }
}

fn request(id: &str, prompt: Option<Vec<u32>>, sampling: Option<SamplingRequest>) -> EngineCoreRequest {
    EngineCoreRequest {
        request_id: id.to_string(),
        prompt_token_ids: prompt,
        sampling_params: sampling,
        arrival_time: 4.5f64.to_bits(),
    }
}

#[test]
fn a_complete_request_is_prepared() {
    let (tx, mut rx) = mpsc::unbounded_channel();
    match start_request(3, request("req-s", Some(vec![1, 2]), Some(sampling())), tx, false) {
        StartOutcome::Submit(prepared) => {
            let r = prepared.request;
            assert!(r.trace_parent.is_none());
            assert_eq!(r.request_id.as_deref(), Some("req-s"));
            assert_eq!(r.queued_at_unix_s, Some(4.5f64.to_bits()));
            assert_eq!(r.data_parallel_rank, Some(3));
            assert_eq!(r.prompt_tokens, vec![1, 2]);
            assert_eq!(r.max_tokens, 12);
            assert_eq!(r.lora_adapter.as_deref(), Some("adapter-a"));
            assert_eq!(r.kv_transfer_params, Some(handoff()));
            assert_eq!(r.logprobs, 3);
            assert!(!r.echo);
            assert_eq!(prepared.stream.stop_sentinel_id, Some(5));
            r.token_tx.send(token(1)).expect("the sink is open");
            assert_eq!(rx.try_recv().expect("event").0.as_ref(), "req-s");
            prepared.stream.abort(RequestAbortReason::Cancelled);
            assert!(r.token_tx.is_cancelled(), "stream and sink share the abort cell");
        }
        StartOutcome::Refuse(_) => panic!("nothing is missing"),
    }
}

#[test]
fn incomplete_requests_are_refused() {
    let mut unsupported = sampling();
    unsupported.unsupported = Some("seed".to_string());
    let mut bad_adapter = sampling();
    bad_adapter.lora_adapter = Err("bad adapter name".to_string());
    let cases = [
        (request("a", None, Some(sampling())), None),
        (request("b", Some(vec![1]), None), None),
        (request("c", Some(vec![1]), Some(unsupported)), None),
        (
            request("d", Some(vec![1]), Some(bad_adapter)),
            Some(StopReason::Text("bad adapter name".to_string())),
        ),
    ];
    for (request, stop_reason) in cases {
        let id = request.request_id.clone();
        let (tx, _rx) = mpsc::unbounded_channel();
        match start_request(1, request, tx, true) {
            StartOutcome::Refuse(batch) => {
                assert_eq!(batch.engine_index, 1);
                assert_eq!(batch.outputs.len(), 1);
                assert_eq!(batch.outputs[0].request_id, id);
                assert_eq!(batch.outputs[0].finish_reason, Some(EngineCoreFinishReason::Error));
                assert_eq!(batch.outputs[0].stop_reason, stop_reason);
                assert_eq!(batch.finished_requests, Some(vec![id]));
            }
            StartOutcome::Submit(_) => panic!("request {id} must be refused"),
        }
    }
    let batch = terminal_error(2, &"e".to_string(), None);
    assert_eq!(batch.engine_index, 2);
}

#[test]
fn messages_have_two_frames() {
    assert_eq!(check_frames(2), Ok(()));
    assert_eq!(
        check_frames(3),
        Err("expected 2 local engine request frames, got 3".to_string())
    );
}

#[test]
fn utility_calls_are_answered() {
    assert_eq!(utility_result("is_sleeping"), UtilityResult::False);
    assert_eq!(utility_result("is_paused"), UtilityResult::False);
    assert_eq!(utility_result("reset_prefix_cache"), UtilityResult::False);
    assert_eq!(utility_result("sleep"), UtilityResult::Nil);
    assert_eq!(utility_result("anything"), UtilityResult::Nil);
}

#[test]
fn ready_message_announces_the_pool() {
    let ready = ready_response(100, 2, Some(KvCapacity { total_blocks: 30, block_size: 16 }));
    assert_eq!(ready.max_model_len, 100);
    assert_eq!(ready.num_gpu_blocks, 30);
    assert_eq!(ready.block_size, 16);
    assert_eq!(ready.data_parallel_size, 2);
    assert_eq!((ready.dtype, ready.world_size), (ModelDtype::BFloat16, 1));
    assert_eq!(ready.vllm_version, "openinfer-local-bridge");
    assert_eq!(ready.kv_cache_size_tokens, Some(480));
    assert_eq!(ready.kv_cache_max_concurrency, Some((30, 7)));
    let bare = ready_response(100, 1, None);
    assert_eq!(bare.num_gpu_blocks, 0);
    assert_eq!(bare.block_size, 16);
    assert_eq!(bare.kv_cache_size_tokens, None);
    assert_eq!(bare.kv_cache_max_concurrency, None);
}

#[test]
fn child_exits_are_fatal_before_shutdown() {
    let exit = ChildExit::Returned { name: "output sender".to_string() };
    assert_eq!(child_exit_verdict(true, &exit), Ok(()));
    assert_eq!(
        child_exit_verdict(false, &exit),
        Err("local engine output sender exited unexpectedly".to_string())
    );
    assert_eq!(
        child_exit_verdict(false, &ChildExit::Failed { name: "x".to_string() }),
        Err("local engine x failed".to_string())
    );
    assert_eq!(
        child_exit_verdict(false, &ChildExit::Panicked { error: "e".to_string() }),
        Err("local engine child task panicked: e".to_string())
    );
    assert_eq!(
        child_exit_verdict(false, &ChildExit::NoneLeft),
        Err("local engine child task set became empty".to_string())
    );
}

#[test]
fn endpoints_live_in_a_namespace() {
    assert_eq!(
        ipc_namespace_for(17, "0123abcd-4567-4abc-8def-001122334455"),
        "pgi-17-0123abcd"
    );
    let a = local_ipc_namespace(17);
    let b = local_ipc_namespace(17);
    assert!(a.starts_with("pgi-17-"));
    assert_eq!(a.len(), "pgi-17-".len() + 8);
    assert!(a[7..].chars().all(|c| c.is_ascii_hexdigit()));
    assert_ne!(a, b);
    assert_eq!(ipc_endpoint("/tmp/ns", "input.sock"), "ipc:///tmp/ns/input.sock");
}

#[test]
fn the_bridge_runs_a_request_to_its_end() {
    let mut bridge = Bridge::new(4);
    let (tx, _rx) = mpsc::unbounded_channel();
    let add = BridgeMessage::Add(request("r", Some(vec![1]), Some(sampling())));
    let stream = match bridge.step(BridgeEvent::Message { message: add, event_tx: tx, tracing: true }) {
        BridgeAction::Submit(prepared) => prepared.stream,
        _ => panic!("the request is complete"),
    };
    assert!(!bridge.streams().contains_key("r"));
    assert!(matches!(
        bridge.step(BridgeEvent::Submitted { request_id: "r".to_string(), stream }),
        BridgeAction::Idle
    ));
    assert!(bridge.streams().contains_key("r"));
    let burst = vec![(Arc::from("r"), token(9)), (Arc::from("ghost"), token(1))];
    match bridge.step(BridgeEvent::Burst(burst)) {
        BridgeAction::Send(batch) => {
            assert_eq!(batch.engine_index, 4);
            assert_eq!(batch.outputs.len(), 1);
            assert_eq!(batch.finished_requests, None);
        }
        _ => panic!("one request spoke"),
    }
    let (tx, _rx) = mpsc::unbounded_channel();
    let abort = BridgeMessage::Abort(vec!["r".to_string()]);
    let event = BridgeEvent::Message { message: abort, event_tx: tx, tracing: true };
    assert!(matches!(bridge.step(event), BridgeAction::Idle));
    assert_eq!(bridge.streams().len(), 0);
    assert_eq!(bridge.finish(), 0);
}

#[test]
fn what_stops_the_bridge() {
    let message = |m: BridgeMessage| {
        let (tx, _rx) = mpsc::unbounded_channel();
        Bridge::new(0).step(BridgeEvent::Message { message: m, event_tx: tx, tracing: false })
    };
    let cause = |action: BridgeAction| match action {
        BridgeAction::Stop(BridgeStop::Request(cause)) => cause,
        _ => panic!("the message cannot be handled"),
    };
    assert_eq!(
        cause(message(BridgeMessage::Frames(5))),
        "expected 2 local engine request frames, got 5"
    );
    assert_eq!(cause(message(BridgeMessage::Undecodable("bad bytes".to_string()))), "bad bytes");
    assert_eq!(
        cause(message(BridgeMessage::UnknownType("[9]".to_string()))),
        "unsupported local engine request type frame: [9]"
    );
    let call = UtilityCall { call_id: rmpv::Value::from(7), method: "is_paused".to_string() };
    match message(BridgeMessage::Utility(call)) {
        BridgeAction::Answer { call_id, result } => {
            assert_eq!(call_id, rmpv::Value::from(7));
            assert_eq!(result, UtilityResult::False);
        }
        _ => panic!("a call is answered"),
    }
    assert_eq!(
        cause(Bridge::new(0).step(BridgeEvent::SubmitFailed("closed".to_string()))),
        "failed to submit request to scheduler: closed"
    );
    assert_eq!(
        cause(Bridge::new(0).step(BridgeEvent::OutputClosed { to_burst: false })),
        "local engine output channel closed"
    );
    let stop = |event: BridgeEvent| match Bridge::new(0).step(event) {
        BridgeAction::Stop(stop) => stop.context(),
        _ => panic!("the bridge stops"),
    };
    assert_eq!(stop(BridgeEvent::Shutdown), "");
    assert_eq!(
        stop(BridgeEvent::OutputClosed { to_burst: true }),
        "failed to dispatch local engine output"
    );
    assert_eq!(
        stop(BridgeEvent::ReceiveFailed("eof".to_string())),
        "failed to receive local engine request"
    );
    assert_eq!(
        stop(BridgeEvent::Child { shutting_down: false, exit: ChildExit::NoneLeft }),
        "local engine child task set became empty"
    );
    assert_eq!(
        stop(BridgeEvent::Child { shutting_down: true, exit: ChildExit::NoneLeft }),
        ""
    );
}

#[test]
fn utility_payloads_are_read() {
    let payload = rmp_serde::to_vec(&(0u32, 41u64, "reset_prefix_cache", vec![true])).unwrap();
    match utility_message(&payload) {
        BridgeMessage::Utility(call) => {
            assert_eq!(call.call_id, rmpv::Value::from(41u64));
            assert_eq!(call.method, "reset_prefix_cache");
        }
        _ => panic!("the payload is a call"),
    }
    let short = rmp_serde::to_vec(&(0u32, 41u64)).unwrap();
    assert!(matches!(utility_message(&short), BridgeMessage::Undecodable(_)));
    let named = rmp_serde::to_vec(&(0u32, "call-1", "sleep", ())).unwrap();
    match utility_message(&named) {
        BridgeMessage::Utility(call) => assert_eq!(call.call_id, rmpv::Value::from("call-1")),
        _ => panic!("the payload is a call"),
    }
    match utility_message_of(Err("truncated".to_string())) {
        BridgeMessage::Undecodable(error) => assert_eq!(error, "truncated"),
        _ => panic!("the payload could not be read"),
    }
}

#[test]
fn ending_marks_every_live_stream_cancelled() {
    let mut d = Demux::new();
    let first = d.add("req-a");
    let second = d.add("req-b");
    assert_eq!(first.load(Ordering::Acquire), RequestAbortReason::NotAborted.raw());
    assert_eq!(d.streams.cancel_all(), 2);
    for cell in [first, second] {
        assert_eq!(
            RequestAbortReason::from_raw(cell.load(Ordering::Acquire)),
            RequestAbortReason::Cancelled
        );
    }
}

#[test]
fn a_traced_request_carries_the_context_of_its_root_span() {
    let (tx, _rx) = mpsc::unbounded_channel();
    match start_request(3, request("req-t", Some(vec![1]), Some(sampling())), tx, true) {
        StartOutcome::Submit(prepared) => {
            let parent = prepared.request.trace_parent.expect("tracing is on");
            let root = SpanContext::from_span(&prepared.stream.trace_root).expect("a live span");
            assert_eq!(parent, root);
            assert!(parent.sampled);
        }
        StartOutcome::Refuse(_) => panic!("nothing is missing"),
    }
}

#[test]
fn transfer_parameters_are_looked_up_by_name() {
    let args = || {
        vec![
            ("a".to_string(), serde_json::Value::from(1)),
            ("b".to_string(), serde_json::Value::from(2)),
            ("a".to_string(), serde_json::Value::from(3)),
        ]
    };
    assert_eq!(take_argument(args(), "a"), Some(serde_json::Value::from(1)));
    assert_eq!(take_argument(args(), "b"), Some(serde_json::Value::from(2)));
    assert_eq!(take_argument(args(), "c"), None);
    let mut bare = sampling();
    bare.extra_args = None;
    let (tx, _rx) = mpsc::unbounded_channel();
    match start_request(3, request("req-n", Some(vec![1]), Some(bare)), tx, false) {
        StartOutcome::Submit(prepared) => {
            assert_eq!(prepared.request.kv_transfer_params, None);
        }
        StartOutcome::Refuse(_) => panic!("nothing is missing"),
    }
}
