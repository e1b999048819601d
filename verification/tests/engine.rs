use openinfer::engine::{
    panic_message, ControlReply, EngineCommand, EngineControlError, EngineHandle,
    EngineLoadOptions, EpBackend, GenerateRequest, KvCapacity, PanicPayload, RequestAbortReason,
    SamplingParams, SubmitRoute, TokenEvent, TokenSink,
};
use openinfer::load::{pending_is_empty, publish_load, running_count, running_counts, PoolBlocks};
use openinfer::metrics::{
    LoadSnapshot, SpecDecodeCounters, SpecWidthUnsupported, MAX_SPEC_TOKENS,
};
use std::collections::VecDeque;
use std::sync::atomic::{AtomicU8, Ordering};
use std::sync::Arc;
use tokio::sync::{mpsc, watch};

type Submit = mpsc::UnboundedSender<GenerateRequest>;
type Commands = mpsc::UnboundedSender<EngineCommand>;
type Watch = watch::Receiver<LoadSnapshot>;

#[test]
fn observe_draft_tallies_a_prefix_per_position() {
    let mut counters = SpecDecodeCounters::new(3).expect("K within bounds");
    counters.observe_draft(2, 2);
    counters.observe_draft(3, 1);
    assert_eq!(counters.num_drafts, 2);
    assert_eq!(counters.num_draft_tokens, 5);
    assert_eq!(counters.num_accepted_tokens, 3);
    assert_eq!(&counters.num_accepted_tokens_per_pos[..3], &[2, 1, 0]);
}

#[test]
fn oversized_k_is_rejected_not_truncated() {
    assert!(SpecDecodeCounters::new(MAX_SPEC_TOKENS).is_ok());
    assert_eq!(
        SpecDecodeCounters::new(MAX_SPEC_TOKENS + 1),
        Err(SpecWidthUnsupported { num_spec_tokens: MAX_SPEC_TOKENS + 1 })
    );
    let message = SpecWidthUnsupported { num_spec_tokens: 33 }.message();
    assert!(message.contains("33"));
    assert!(message.contains("32"));
}

#[test]
fn lora_control_support_is_opt_in() {
    let (submit_tx, _submit_rx) = mpsc::unbounded_channel::<GenerateRequest>();
    let handle: EngineHandle<Submit, Commands, Watch, ()> = EngineHandle::new(submit_tx);
    assert!(!handle.supports_lora_control());
    assert!(matches!(handle.submit_route(), SubmitRoute::Submit(_)));
    assert!(handle.lora_control_channel().is_err());

    let (command_tx, _command_rx) = mpsc::unbounded_channel::<EngineCommand>();
    let handle: EngineHandle<Submit, Commands, Watch, ()> =
        EngineHandle::new_with_command_channel(command_tx);
    assert!(handle.supports_lora_control());
    assert!(matches!(handle.submit_route(), SubmitRoute::Command(_)));
    assert!(handle.lora_control_channel().is_ok());
}

#[test]
fn load_watches_define_scheduler_partitions() {
    let (submit_tx, _submit_rx) = mpsc::unbounded_channel::<GenerateRequest>();
    let (_load_tx0, load_rx0) = watch::channel(LoadSnapshot {
        num_running_reqs: 1,
        ..LoadSnapshot::default()
    });
    let (_load_tx1, load_rx1) = watch::channel(LoadSnapshot {
        num_waiting_reqs: 2,
        ..LoadSnapshot::default()
    });
    let handle: EngineHandle<Submit, Commands, Watch, ()> =
        EngineHandle::new(submit_tx).with_load_watches(vec![load_rx0, load_rx1]);

    assert_eq!(handle.scheduler_partition_count(), 2);
    assert_eq!(
        handle.load_watch_for(0).expect("rank 0 watch").borrow().num_running_reqs,
        1
    );
    assert_eq!(
        handle.load_watch_for(1).expect("rank 1 watch").borrow().num_waiting_reqs,
        2
    );
    assert!(handle.load_watch_for(2).is_none());
}

#[test]
fn token_sink_distinguishes_cancelled_from_closed_receiver() {
    let abort_reason = Arc::new(AtomicU8::new(RequestAbortReason::NotAborted as u8));
    let (tx, mut rx) = mpsc::unbounded_channel();
    let sink = TokenSink::new(Arc::from("request-a"), tx, Arc::clone(&abort_reason));

    assert!(!sink.is_cancelled());
    assert!(!sink.is_disconnected());
    assert!(!sink.is_closed());
    sink.send(TokenEvent::Token { id: 7, logprob: None })
        .expect("uncancelled sink should send");
    assert_eq!(rx.try_recv().expect("tagged event").0.as_ref(), "request-a");

    RequestAbortReason::Cancelled.store(&abort_reason);
    assert!(sink.is_cancelled());
    assert!(!sink.is_disconnected());
    assert!(sink.is_closed());
    assert!(sink.send(TokenEvent::Token { id: 8, logprob: None }).is_err());
}

#[test]
fn token_sink_closed_receiver_is_not_explicit_cancel() {
    let (sink, rx) = TokenSink::standalone();

    drop(rx);

    assert!(!sink.is_cancelled());
    assert!(!sink.is_disconnected());
    assert!(sink.is_closed());
    assert!(sink.send(TokenEvent::Token { id: 7, logprob: None }).is_err());
}

#[test]
fn token_sink_distinguishes_disconnected_from_cancelled() {
    let abort_reason = Arc::new(AtomicU8::new(RequestAbortReason::NotAborted as u8));
    let (tx, _rx) = mpsc::unbounded_channel();
    let sink = TokenSink::new(Arc::from("request-a"), tx, Arc::clone(&abort_reason));

    RequestAbortReason::Disconnected.store(&abort_reason);

    assert!(!sink.is_cancelled());
    assert!(sink.is_disconnected());
    assert!(sink.is_closed());
    assert!(sink.send(TokenEvent::Token { id: 7, logprob: None }).is_err());
}

#[test]
fn a_cloned_sink_shares_its_channel_and_its_abort() {
    let abort_reason = Arc::new(AtomicU8::new(0));
    let (tx, mut rx) = mpsc::unbounded_channel();
    let sink = TokenSink::new(Arc::from("request-b"), tx, Arc::clone(&abort_reason));
    let other = sink.clone();
    other.send(TokenEvent::Token { id: 1, logprob: None }).expect("sent");
    assert_eq!(rx.try_recv().expect("event").0.as_ref(), "request-b");
    RequestAbortReason::Cancelled.store(&abort_reason);
    assert!(sink.is_cancelled() && other.is_cancelled());
    assert_eq!(sink.tag().as_ref(), "request-b");
}

#[test]
fn a_refused_event_comes_back() {
    let (sink, rx) = TokenSink::standalone();
    drop(rx);
    match sink.send(TokenEvent::Token { id: 41, logprob: None }) {
        Err(TokenEvent::Token { id, .. }) => assert_eq!(id, 41),
        _ => panic!("the event is handed back"),
    }
    assert!(TokenSink::closed_for(RequestAbortReason::NotAborted, true));
    assert!(!TokenSink::closed_for(RequestAbortReason::NotAborted, false));
    assert!(TokenSink::closed_for(RequestAbortReason::Cancelled, false));
}

#[test]
fn abort_reasons_survive_the_cell() {
    for reason in [
        RequestAbortReason::NotAborted,
        RequestAbortReason::Cancelled,
        RequestAbortReason::Disconnected,
    ] {
        let cell = AtomicU8::new(9);
        reason.store(&cell);
        assert_eq!(RequestAbortReason::from_raw(cell.load(Ordering::Acquire)), reason);
    }
    assert_eq!(RequestAbortReason::from_raw(200), RequestAbortReason::NotAborted);
}

#[test]
fn capacity_rounds_up_and_saturates() {
    let capacity = KvCapacity { total_blocks: 10, block_size: 16 };
    assert_eq!(capacity.total_tokens(), 160);
    assert_eq!(capacity.blocks_for(0), 0);
    assert_eq!(capacity.blocks_for(1), 1);
    assert_eq!(capacity.blocks_for(16), 1);
    assert_eq!(capacity.blocks_for(17), 2);
    let huge = KvCapacity { total_blocks: usize::MAX, block_size: 2 };
    assert_eq!(huge.total_tokens(), usize::MAX);
}

#[test]
fn panic_payloads_read_as_text() {
    assert_eq!(panic_message(&PanicPayload::Literal("boom")), "boom");
    assert_eq!(panic_message(&PanicPayload::Text("owned".to_string())), "owned");
    assert_eq!(panic_message(&PanicPayload::Other), "<non-string panic payload>");
}

#[test]
fn defaults_are_greedy_and_single_device() {
    let options = EngineLoadOptions::default();
    assert!(options.enable_cuda_graph);
    assert_eq!(options.device_ordinals, vec![0]);
    assert_eq!(options.parallel_config, None);
    assert_eq!(options.ep_backend, EpBackend::Nccl);
    let sampling = SamplingParams::default();
    assert_eq!(f32::from_bits(sampling.temperature), 0.0);
    assert_eq!(f32::from_bits(sampling.top_p), 1.0);
    assert_eq!(sampling.top_k, -1);
    assert!(!sampling.ignore_eos);
}

#[test]
fn control_replies_map_to_errors() {
    let lost: Result<(), EngineControlError> =
        openinfer::engine::control_result(ControlReply::Lost);
    assert_eq!(lost, Err(EngineControlError::ChannelClosed));
    let failed: Result<(), EngineControlError> =
        openinfer::engine::control_result(ControlReply::Answered(Err("no such adapter".to_string())));
    assert_eq!(failed, Err(EngineControlError::OperationFailed("no such adapter".to_string())));
    let listed = openinfer::engine::control_result(ControlReply::Answered(Ok(vec!["a".to_string()])));
    assert_eq!(listed, Ok(vec!["a".to_string()]));
    assert!(EngineControlError::OperationFailed("why".to_string()).message().contains("why"));
    assert!(!EngineControlError::ChannelClosed.message().is_empty());
    assert!(EngineControlError::Unsupported("nope").message().contains("nope"));
}

#[test]
fn load_lora_adapter_reports_unsupported_without_control() {
    let (submit_tx, _submit_rx) = mpsc::unbounded_channel::<GenerateRequest>();
    let handle: EngineHandle<Submit, Commands, Watch, ()> = EngineHandle::new(submit_tx);
    match handle.lora_control_channel() {
        Err(error) => assert_eq!(
            error,
            EngineControlError::Unsupported("engine does not support dynamic LoRA adapter loading")
        ),
        Ok(_) => panic!("control should be unsupported"),
    }
}

#[test]
fn handles_keep_what_they_are_built_with() {
    let handle: EngineHandle<u8, u8, u8, u8> = EngineHandle::new(7);
    assert_eq!(handle.servable_len(), None);
    assert_eq!(handle.scheduler_partition_count(), 1);
    let handle = handle
        .with_servable_len(4096)
        .with_kv_capacity(KvCapacity { total_blocks: 3, block_size: 2 })
        .with_load_watch(9)
        .with_kv_events(5);
    assert_eq!(handle.servable_len(), Some(4096));
    assert_eq!(handle.kv_capacity().map(|c| c.total_tokens()), Some(6));
    assert_eq!(handle.load_watch(), Some(&9));
    assert_eq!(handle.take_kv_events(), Some(5));
    assert_eq!(handle.take_kv_events(), None);
}

#[test]
fn each_rank_publishes_its_own_load() {
    let pools = [
        PoolBlocks { total_blocks: 10, available_blocks: 4 },
        PoolBlocks { total_blocks: 8, available_blocks: 8 },
    ];
    let slots: Vec<Vec<Option<u8>>> = vec![vec![Some(1), None, Some(2)], vec![None, None, None]];
    let pending: Vec<VecDeque<u8>> = vec![VecDeque::from(vec![1]), VecDeque::new()];
    assert_eq!(running_count(&slots[0]), 2);
    assert_eq!(running_counts(&slots), vec![2, 0]);
    assert!(!pending_is_empty(&pending));
    assert!(pending_is_empty(&pending[1..]));
    let snapshots = publish_load(2, &pools, &slots, &pending);
    assert_eq!(snapshots.len(), 2);
    assert_eq!(snapshots[0].kv_used_blocks, 5);
    assert_eq!(snapshots[0].kv_total_blocks, 9);
    assert_eq!(snapshots[0].num_running_reqs, 2);
    assert_eq!(snapshots[0].num_waiting_reqs, 1);
    assert_eq!(snapshots[1].kv_used_blocks, 0);
    assert_eq!(snapshots[1].num_running_reqs, 0);
    assert!(snapshots[0].spec_decode.is_none());
}

#[test]
fn acceptance_histogram_never_rises() {
    let mut counters = SpecDecodeCounters::new(4).expect("K within bounds");
    for (drafted, accepted) in [(4, 4), (4, 0), (3, 2), (4, 1)] {
        counters.observe_draft(drafted, accepted);
    }
    let histogram = &counters.num_accepted_tokens_per_pos[..4];
    assert_eq!(histogram, &[3, 2, 1, 1]);
    assert!(histogram.windows(2).all(|pair| pair[0] >= pair[1]));
    assert_eq!(histogram.iter().sum::<u64>(), counters.num_accepted_tokens);
}

#[test]
fn the_first_taker_among_clones_gets_the_feed() {
    let handle: EngineHandle<u8, u8, u8, u8> = EngineHandle::new(7);
    let handle = handle.with_servable_len(16).with_load_watch(9).with_kv_events(5);
    let other = handle.clone();
    assert_eq!(other.servable_len(), Some(16));
    assert_eq!(other.load_watch(), Some(&9));
    assert_eq!(other.take_kv_events(), Some(5));
    assert_eq!(handle.take_kv_events(), None);
    assert_eq!(other.clone().take_kv_events(), None);
    let without: EngineHandle<u8, u8, u8, u8> = EngineHandle::new(7);
    assert_eq!(without.take_kv_events(), None);
}

#[test]
fn a_standalone_sink_is_one_channel_and_not_aborted() {
    let (sink, mut rx) = TokenSink::standalone();
    assert_eq!(sink.abort_reason(), RequestAbortReason::NotAborted);
    assert!(!sink.is_closed());
    assert!(sink.send(TokenEvent::Token { id: 12, logprob: None }).is_ok());
    match rx.try_recv() {
        Ok((tag, TokenEvent::Token { id, .. })) => {
            assert_eq!(tag.as_ref(), sink.tag().as_ref());
            assert_eq!(id, 12);
        }
        _ => panic!("the event arrives"),
    }
    let going = sink.outgoing(
        RequestAbortReason::NotAborted,
        TokenEvent::Token { id: 14, logprob: None },
    );
    assert!(matches!(going, Ok((tag, TokenEvent::Token { id: 14, .. })) if tag.as_ref() == "local"));
    let held = sink.outgoing(
        RequestAbortReason::Disconnected,
        TokenEvent::Token { id: 15, logprob: None },
    );
    assert!(matches!(held, Err(TokenEvent::Token { id: 15, .. })));
    let unsent =
        sink.send_unless_aborted(RequestAbortReason::Cancelled, TokenEvent::Token {
            id: 13,
            logprob: None,
        });
    assert!(matches!(unsent, Err(TokenEvent::Token { id: 13, .. })));
    assert!(rx.try_recv().is_err(), "an aborted request puts nothing on its channel");
}

#[test]
fn position_credits_add_up_to_the_accepted_tokens() {
    let mut counters = SpecDecodeCounters::new(4).expect("K within bounds");
    for accepted in [4, 0, 2, 3, 1] {
        counters.observe_draft(4, accepted);
        assert_eq!(
            counters.num_accepted_tokens_per_pos.iter().sum::<u64>(),
            counters.num_accepted_tokens
        );
    }
    assert_eq!(counters.num_accepted_tokens, 10);
    counters.observe_draft(4, 6);
    assert_eq!(counters.num_accepted_tokens, 16);
    assert_eq!(counters.num_accepted_tokens_per_pos.iter().sum::<u64>(), 14);
}

#[test]
fn blocks_round_per_request() {
    let capacity = KvCapacity { total_blocks: 8, block_size: 16 };
    assert_eq!(capacity.blocks_for(17) + capacity.blocks_for(15), 3);
    assert_eq!(capacity.blocks_for(32), 2);
    assert_eq!(capacity.blocks_for(16) + capacity.blocks_for(16), capacity.blocks_for(32));
}
