use openinfer::engine::SamplingParams;
use openinfer::scheduler::request::RequestId;
use openinfer::tp::error::{DropExpectation, TpError};
use openinfer::tp::executor::{
    check_runtime_limits, decode_plan_items, effective_recurrent_capacity, prefill_plan_chunks,
    prefill_scratch_tokens, preflight_ranks, rank_capacity, shared_pages, worker_panicked,
    DecodeStepItem, MutatingDispatch, PreflightReply, PrefillStepItem, Qwen35TpExecutor,
    RankPages, Refusal, StartupReply, StartupStep, TpStartup,
};
use openinfer::tp::gate::{
    TpCommandDecision, TpCommandStartGate, TpRuntimePoison, TpStartupGate,
};
use openinfer::tp::plan::{
    validate_cuda_ordinals, validate_decode_requests, validate_prefill_chunks,
    validate_unified_plan, TpDecodeStepItem, TpPrefillChunkItem, TpUnifiedPlan,
};
use openinfer::tp::responses::{
    collect_worker_snapshots, rank_failure, reply_name, response_channel_lost,
    step_timeout_message, validate_ack_responses, validate_decode_responses,
    validate_dispatched_responses, validate_drop_responses, validate_prefill_responses,
    validate_unified_responses, DecodeRequestResult, DecodeResult, PrefillRequestResult,
    PrefillResult, ResponseCollector, TpUnifiedResult, TpWorkerReply, TpWorkerResponse,
    WorkerStateSnapshot,
};
use openinfer::tp::worker::{
    command_name, command_step, row_seed, DecodeStep, PrefillRun, PrefillStep, TpCommandKind,
    TpCommandStep, TpRequestPhase, TpWorkerState,
};

fn reply(rank: usize, reply: TpWorkerReply) -> TpWorkerResponse {
    TpWorkerResponse { rank, result: Ok(reply) }
}

fn failed(rank: usize, message: &str) -> TpWorkerResponse {
    TpWorkerResponse { rank, result: Err(message.to_string()) }
}

fn chunk(id: u64, tokens: Vec<u32>, finish: bool) -> TpPrefillChunkItem {
    TpPrefillChunkItem::new(RequestId::new(id), tokens, 0, finish)
}

fn decode(id: u64) -> TpDecodeStepItem {
    TpDecodeStepItem::new(RequestId::new(id), 9707, 0, SamplingParams::default())
}

fn sampled(id: u64, token: u32) -> PrefillRequestResult {
    PrefillRequestResult {
        request_id: RequestId::new(id),
        first_token: token,
        first_token_logprob: None,
    }
}

#[test]
fn runtime_poison_preserves_first_failure() {
    let mut poison = TpRuntimePoison::default();
    assert_eq!(poison.poison("rank 1 OOM".to_string()), "rank 1 OOM");
    assert_eq!(poison.poison("rank 0 NCCL error".to_string()), "rank 1 OOM");
    let err = poison.ensure_healthy().unwrap_err();
    assert!(err.contains("rank 1 OOM"));
    assert!(!err.contains("rank 0 NCCL error"));
}

#[test]
fn runtime_response_failure_poisons_executor() {
    let mut poison = TpRuntimePoison::default();
    let responses = vec![reply(0, TpWorkerReply::Ack), failed(1, "rank 1 failed")];

    let err = validate_dispatched_responses(
        validate_ack_responses(responses, 2, "test"),
        "test",
        &mut poison,
    )
    .unwrap_err();
    assert!(err.contains("rank 1 failed"));
    assert!(poison.ensure_healthy().is_err());
}

#[test]
fn runtime_response_collection_fails_fast_when_peer_never_responds() {
    let mut poison = TpRuntimePoison::default();
    let mut collector = ResponseCollector::new(2, "test");
    let mut queue = vec![failed(0, "rank 0 failed")];
    let mut receive_attempts = 0;

    let mut err = None;
    while collector.wants_more() {
        receive_attempts += 1;
        let response = match queue.pop() {
            Some(response) => response,
            None => panic!("waited for nonresponding rank"),
        };
        if let Err(error) = collector.accept(response, &mut poison) {
            err = Some(error);
            break;
        }
    }
    let err = err.expect("rank 0 failed");

    assert_eq!(receive_attempts, 1, "collector waited for the missing rank");
    assert!(err.contains("rank 0 failed"));
    assert!(!err.contains("waited for nonresponding rank"));
    assert!(poison.ensure_healthy().is_err());
}

#[test]
fn disconnected_runtime_response_poisons_executor() {
    let mut poison = TpRuntimePoison::default();
    let err = response_channel_lost("test", &mut poison);
    assert!(err.contains("response channel disconnected during test"));
    assert!(poison.ensure_healthy().is_err());
}

#[test]
fn mutating_partial_dispatch_cancels_delivered_prefix_and_poisons() {
    let mut poison = TpRuntimePoison::default();
    let mut dispatch = MutatingDispatch::new(2, "test prefill");
    let mut delivered = Vec::new();
    let mut err = None;
    while let Some(rank) = dispatch.next_rank() {
        if rank == 1 {
            err = Some(dispatch.failed("injected prefix-only dispatch failure", &mut poison));
            break;
        }
        delivered.push(rank);
        dispatch.delivered();
    }

    assert!(err.expect("rank 1 fails").contains("injected prefix-only dispatch failure"));
    assert_eq!(delivered, vec![0]);
    assert_eq!(dispatch.decision(), TpCommandDecision::Cancel);
    assert_eq!(
        command_step(TpCommandKind::RunPrefillChunks, dispatch.decision()),
        TpCommandStep::Skip
    );
    assert!(poison.ensure_healthy().is_err());
}

#[test]
fn a_dispatch_without_ranks_is_released_at_once() {
    let dispatch = MutatingDispatch::new(0, "test");
    assert_eq!(dispatch.next_rank(), None);
    assert_eq!(dispatch.decision(), TpCommandDecision::Execute);
}

#[test]
fn a_full_dispatch_releases_every_rank() {
    let mut dispatch = MutatingDispatch::new(2, "test");
    assert_eq!(dispatch.decision(), TpCommandDecision::Pending);
    dispatch.delivered();
    assert_eq!(dispatch.decision(), TpCommandDecision::Pending);
    dispatch.delivered();
    assert_eq!(dispatch.next_rank(), None);
    assert_eq!(dispatch.decision(), TpCommandDecision::Execute);
}

#[test]
fn limits_constructor_rejects_zero_prefill_budget_before_loading() {
    let err = check_runtime_limits(false, &[0, 1], 0).unwrap_err().message();
    assert!(err.contains("max_prefill_tokens must be positive"));
}

#[test]
fn rejects_single_device_topology() {
    let err = check_runtime_limits(false, &[0], 1).unwrap_err().message();
    assert!(err.contains("requires at least two CUDA devices"));
}

#[test]
fn rejects_tensor_parallel_cuda_graph() {
    let err = check_runtime_limits(true, &[0, 1], 1).unwrap_err().message();
    assert!(err.contains("eager execution only"));
    assert!(check_runtime_limits(false, &[0, 1], 1).is_ok());
}

#[test]
fn validates_prefill_chunk_shape() {
    let empty = [chunk(1, vec![], false)];
    let err = validate_prefill_chunks(&empty).unwrap_err().message();
    assert!(err.contains("is empty"));

    let duplicate = [chunk(1, vec![151_646], false), chunk(1, vec![9707], true)];
    let err = validate_prefill_chunks(&duplicate).unwrap_err().message();
    assert!(err.contains("duplicate"));
}

#[test]
fn validates_decode_request_shape() {
    validate_decode_requests(&[decode(1)]).expect("single decode request is valid");

    let duplicate = [
        TpDecodeStepItem::new(RequestId::new(1), 9707, 0, SamplingParams::default()),
        TpDecodeStepItem::new(RequestId::new(1), 560, 0, SamplingParams::default()),
    ];
    let err = validate_decode_requests(&duplicate).unwrap_err().message();
    assert!(err.contains("duplicate"));
}

#[test]
fn ordinals_are_distinct_and_in_the_table() {
    assert!(validate_cuda_ordinals(&[0, 3]).is_ok());
    assert!(matches!(
        validate_cuda_ordinals(&[1, 1]),
        Err(TpError::DuplicateOrdinal { ordinal: 1 })
    ));
    assert!(matches!(
        validate_cuda_ordinals(&[0, 16]),
        Err(TpError::OrdinalOutOfRange { ordinal: 16 })
    ));
}

#[test]
fn startup_gate_cancel_releases_waiting_workers() {
    let mut gate = TpStartupGate::default();
    assert_eq!(gate.may_connect(), None);
    gate.cancel();
    assert_eq!(gate.may_connect(), Some(false));
    let mut gate = TpStartupGate::default();
    gate.connect();
    assert_eq!(gate.may_connect(), Some(true));
}

#[test]
fn a_command_gate_resolves_once() {
    let mut gate = TpCommandStartGate::default();
    assert!(gate.execute());
    assert!(!gate.cancel());
    assert_eq!(gate.decision(), TpCommandDecision::Execute);
}

#[test]
fn capacity_follows_free_memory() {
    let mib = 1_048_576usize;
    assert_eq!(effective_recurrent_capacity(8, 1000 * mib, 100 * mib, 512 * mib, 88 * mib), 4);
    assert_eq!(effective_recurrent_capacity(3, 1000 * mib, 100 * mib, 512 * mib, 88 * mib), 3);
    assert_eq!(effective_recurrent_capacity(8, 100 * mib, 100 * mib, 512 * mib, 88 * mib), 0);
    assert_eq!(rank_capacity(0, 8, 1000 * mib, 100 * mib, 88 * mib, 64).unwrap(), 4);
    let err = rank_capacity(1, 8, 100 * mib, 100 * mib, 88 * mib, 64).unwrap_err().message();
    assert!(err.contains("100"));
    assert_eq!(prefill_scratch_tokens(100, 64), 64);
    assert_eq!(prefill_scratch_tokens(10, 64), 10);
}

#[test]
fn ranks_share_the_smallest_pool() {
    let pages = |page_size, capacity_pages| RankPages { page_size, capacity_pages };
    assert_eq!(shared_pages(&[pages(16, 40), pages(16, 30)]).unwrap(), pages(16, 29));
    assert!(matches!(
        shared_pages(&[pages(16, 40), pages(32, 30)]),
        Err(TpError::PageSizeMismatch { rank: 1, rank_page_size: 32, page_size: 16 })
    ));
}

fn spawned(world_size: usize, max_batch: usize) -> TpStartup {
    let mut startup = TpStartup::new(world_size, max_batch);
    for rank in 0..world_size {
        assert_eq!(startup.next_step(), StartupStep::Spawn { rank });
        startup.worker_spawned();
    }
    startup
}

#[test]
fn ranks_agree_on_the_smallest_batch() {
    let mut startup = spawned(2, 8);
    let agreed = preflight_ranks(
        &mut startup,
        vec![PreflightReply::Ready(6), PreflightReply::Ready(5)],
    );
    assert_eq!(agreed.unwrap(), 5);
    assert!(startup.reduction_notice().expect("reduced").contains("from 8 to 5"));
    startup.connect();
    assert_eq!(startup.gate().may_connect(), Some(true));
    assert!(startup.started(StartupReply::Connected).is_ok());
    assert!(startup.started(StartupReply::Failed("NCCL".to_string())).is_err());

    let mut startup = spawned(2, 8);
    let refused = preflight_ranks(
        &mut startup,
        vec![PreflightReply::Ready(6), PreflightReply::Failed("rank 1 OOM".to_string())],
    );
    assert!(refused.unwrap_err().message().contains("rank 1 OOM"));
    assert_eq!(startup.gate().may_connect(), Some(false));

    let mut startup = spawned(1, 8);
    assert!(preflight_ranks(&mut startup, vec![PreflightReply::Exited]).is_err());
    let mut startup = spawned(1, 8);
    assert!(matches!(
        preflight_ranks(&mut startup, vec![PreflightReply::Ready(0)]),
        Err(TpError::NoRecurrentCapacity)
    ));
}

fn executor() -> Qwen35TpExecutor {
    Qwen35TpExecutor {
        world_size: 2,
        max_batch: 2,
        page_size: 16,
        capacity_pages_for_requests: 100,
        max_position_embeddings: 4096,
        eos_token_id: 2,
    }
}

#[test]
fn a_poisoned_executor_refuses_everything() {
    let tp = executor();
    assert!(tp.is_stop_token(2) && !tp.is_stop_token(3));
    assert_eq!((tp.world_size(), tp.max_batch(), tp.page_size()), (2, 2, 16));
    assert_eq!((tp.capacity_pages_for_requests(), tp.max_position_embeddings()), (100, 4096));
    let mut poison = TpRuntimePoison::default();
    assert!(tp.begin_prefill(&poison, &[chunk(1, vec![5], true)]).is_ok());
    assert!(matches!(tp.begin_prefill(&poison, &[]), Err(Refusal::Invalid(_))));
    assert!(matches!(tp.begin_decode(&poison, &[]), Err(Refusal::Invalid(_))));
    assert!(tp.begin_decode(&poison, &[decode(1)]).is_ok());
    let plan = TpUnifiedPlan {
        prefill: vec![chunk(1, vec![5], true)],
        decode: vec![decode(2)],
        prefill_sample_seed: 1,
        decode_sample_seed: 2,
    };
    assert!(tp.begin_unified(&poison, &plan).is_ok());
    assert!(tp.begin_drop(&poison).is_ok());
    let reason = tp.poison_artifact_contract("decode", "token count", &mut poison);
    assert!(reason.contains("token count"));
    assert!(matches!(
        tp.begin_prefill(&poison, &[chunk(1, vec![5], true)]),
        Err(Refusal::Poisoned(_))
    ));
    assert!(matches!(tp.begin_drop(&poison), Err(Refusal::Poisoned(_))));
    let mut other = TpRuntimePoison::default();
    assert!(worker_panicked(1, &mut other).contains('1'));
    assert!(other.ensure_healthy().is_err());
}

#[test]
fn steps_take_the_primary_answer() {
    let tp = executor();
    let mut poison = TpRuntimePoison::default();
    let result = tp.complete_prefill(
        vec![
            reply(1, TpWorkerReply::Ack),
            reply(0, TpWorkerReply::Prefill(PrefillResult { requests: vec![sampled(1, 42)] })),
        ],
        &mut poison,
    );
    assert_eq!(result.unwrap().requests[0].first_token, 42);
    let decoded = DecodeRequestResult { request_id: RequestId::new(1), token: 43, logprob: None };
    let result = tp.complete_decode(
        vec![
            reply(0, TpWorkerReply::Decode(DecodeResult { requests: vec![decoded] })),
            reply(1, TpWorkerReply::Ack),
        ],
        &mut poison,
    );
    assert_eq!(result.unwrap().requests[0].token, 43);
    assert!(tp
        .complete_ping(vec![reply(0, TpWorkerReply::Ack), reply(1, TpWorkerReply::Ack)], &mut poison)
        .is_ok());
    assert!(tp
        .complete_drop(
            vec![
                reply(0, TpWorkerReply::DropAck { existed: true }),
                reply(1, TpWorkerReply::DropAck { existed: true }),
            ],
            DropExpectation::MustExist,
            &mut poison,
        )
        .is_ok());
    assert!(poison.ensure_healthy().is_ok());
    assert!(tp
        .complete_drop(
            vec![
                reply(0, TpWorkerReply::DropAck { existed: true }),
                reply(1, TpWorkerReply::DropAck { existed: false }),
            ],
            DropExpectation::MustExist,
            &mut poison,
        )
        .is_err());
    assert!(poison.ensure_healthy().is_err());
}

#[test]
fn replies_are_checked_rank_by_rank() {
    assert!(matches!(
        validate_ack_responses(vec![reply(0, TpWorkerReply::Ack)], 2, "ping"),
        Err(TpError::ResponseCount { expected: 2, got: 1, .. })
    ));
    assert!(matches!(
        validate_ack_responses(
            vec![reply(0, TpWorkerReply::Ack), reply(0, TpWorkerReply::Ack)],
            2,
            "ping"
        ),
        Err(TpError::DuplicateRank { rank: 0, .. })
    ));
    assert!(matches!(
        validate_ack_responses(
            vec![reply(0, TpWorkerReply::Ack), reply(7, TpWorkerReply::Ack)],
            2,
            "ping"
        ),
        Err(TpError::RankOutOfRange { rank: 7, .. })
    ));
    assert!(matches!(
        validate_ack_responses(
            vec![
                reply(0, TpWorkerReply::Ack),
                reply(1, TpWorkerReply::DropAck { existed: true }),
            ],
            2,
            "ping"
        ),
        Err(TpError::NotAck { rank: 1, .. })
    ));
    assert!(matches!(
        validate_drop_responses(
            vec![reply(0, TpWorkerReply::Ack), reply(1, TpWorkerReply::Ack)],
            2,
            DropExpectation::MustBeAbsent
        ),
        Err(TpError::NotDropAck { rank: 0, .. })
    ));
    assert!(validate_prefill_responses(
        vec![reply(0, TpWorkerReply::Ack), reply(1, TpWorkerReply::Ack)],
        2
    )
    .is_err());
    assert!(validate_decode_responses(
        vec![reply(0, TpWorkerReply::Ack), reply(1, TpWorkerReply::Ack)],
        2
    )
    .is_err());
    let unified = TpUnifiedResult {
        prefill: PrefillResult { requests: vec![sampled(3, 7)] },
        decode: DecodeResult { requests: vec![] },
    };
    let result = validate_unified_responses(
        vec![reply(1, TpWorkerReply::Ack), reply(0, TpWorkerReply::Unified(unified))],
        2,
    );
    assert_eq!(result.unwrap().prefill.requests[0].first_token, 7);
    assert_eq!(reply_name(&TpWorkerReply::Ack), "acknowledgement");
    assert!(rank_failure(1, "decode", "boom").contains("boom"));
    assert!(step_timeout_message("decode").contains("decode"));
}

#[test]
fn snapshots_come_back_in_rank_order() {
    let snapshot = |rank| {
        TpWorkerReply::Snapshot(WorkerStateSnapshot {
            rank,
            request_count: 0,
            requests: Vec::new(),
        })
    };
    let result = collect_worker_snapshots(vec![reply(1, snapshot(1)), reply(0, snapshot(0))], 2);
    let ranks: Vec<usize> = result.unwrap().iter().map(|s| s.rank).collect();
    assert_eq!(ranks, vec![0, 1]);
}

#[test]
fn a_worker_prefills_then_decodes() {
    let mut worker: TpWorkerState<&str> = TpWorkerState::connect(0, 4, 2).unwrap();
    assert_eq!(worker.rank(), 0);
    assert!(TpWorkerState::<&str>::connect(0, 1, 2).is_err());
    let chunks = [chunk(1, vec![5, 6], false), chunk(2, vec![7], true)];
    worker.check_prefill(&chunks).unwrap();
    let mut run = PrefillRun::new();
    let mut forwards = Vec::new();
    loop {
        match worker.next_prefill(&run, &chunks, 100) {
            PrefillStep::Done => break,
            PrefillStep::Allocate { request_id } => {
                worker.ensure_prefill_state(request_id, "slot");
            }
            PrefillStep::Forward { slot, seed } => {
                forwards.push((slot, seed));
                let id = chunks[run.row].request_id.get();
                let result = seed.map(|_| sampled(id, 11));
                worker.prefill_row_done(&mut run, &chunks, result);
            }
            PrefillStep::Fail(error) => panic!("{}", error.message()),
        }
    }
    assert_eq!(forwards, vec![(0, None), (1, Some(row_seed(100, 0)))]);
    match worker.prefill_reply(run) {
        TpWorkerReply::Prefill(result) => assert_eq!(result.requests[0].request_id.get(), 2),
        _ => panic!("rank 0 answers with tokens"),
    }
    assert_eq!(worker.phase_for(RequestId::new(1)), Some(TpRequestPhase::Prefilling));
    assert_eq!(worker.phase_for(RequestId::new(2)), Some(TpRequestPhase::Decoding));
    assert_eq!(worker.phase_for(RequestId::new(3)), None);

    worker.check_decode(&[decode(2)]).unwrap();
    assert!(matches!(
        worker.next_decode(&[decode(2)], 0, 7),
        DecodeStep::Forward { slot: 1, seed: Some(_) }
    ));
    assert!(matches!(worker.next_decode(&[decode(2)], 1, 7), DecodeStep::Done));
    assert!(matches!(
        worker.next_decode(&[decode(1)], 0, 7),
        DecodeStep::Fail(TpError::DecodeNotReady { request: 1 })
    ));
    assert!(matches!(
        worker.next_decode(&[decode(9)], 0, 7),
        DecodeStep::Fail(TpError::DecodeNoState { request: 9 })
    ));
    let third = [chunk(3, vec![1], true)];
    assert!(matches!(
        worker.check_prefill(&third),
        Err(TpError::PrefillCapacity { max_batch: 2 })
    ));
    let plan = TpUnifiedPlan {
        prefill: vec![chunk(1, vec![5], true)],
        decode: vec![decode(2)],
        prefill_sample_seed: 1,
        decode_sample_seed: 2,
    };
    worker.validate_unified_worker_layout(&plan).unwrap();

    assert!(worker.drop_request(RequestId::new(1)));
    assert!(!worker.drop_request(RequestId::new(1)));
    assert_eq!(worker.request_index(RequestId::new(2)), Some(0));
    let snapshot = worker.snapshot();
    assert_eq!(snapshot.request_count, 1);
    assert_eq!(snapshot.requests, vec![(RequestId::new(2), TpRequestPhase::Decoding)]);
}

#[test]
fn a_failing_worker_poisons_and_stops() {
    let worker: TpWorkerState<()> = TpWorkerState::connect(1, 2, 2).unwrap();
    let mut poison = TpRuntimePoison::default();
    let (response, fatal) = worker.respond("decode", Ok(TpWorkerReply::Ack), &mut poison);
    assert!(!fatal && response.result.is_ok());
    let (response, fatal) = worker.respond("decode", Err("boom".to_string()), &mut poison);
    assert!(fatal);
    assert!(response.result.unwrap_err().contains("boom"));
    assert!(poison.ensure_healthy().is_err());
}

#[test]
fn commands_wait_for_their_decision() {
    assert_eq!(command_step(TpCommandKind::Ping, TpCommandDecision::Pending), TpCommandStep::Run);
    assert_eq!(
        command_step(TpCommandKind::RunDecodeStep, TpCommandDecision::Pending),
        TpCommandStep::Wait
    );
    assert_eq!(
        command_step(TpCommandKind::DropRequest, TpCommandDecision::Execute),
        TpCommandStep::Run
    );
    assert_eq!(
        command_step(TpCommandKind::Shutdown, TpCommandDecision::Pending),
        TpCommandStep::Stop
    );
    assert!(!command_name(TpCommandKind::Ping).is_empty());
}

#[test]
fn unified_plans_hold_both_kinds_of_rows() {
    let plan = |prefill: Vec<u64>, decodes: Vec<u64>| TpUnifiedPlan {
        prefill: prefill.into_iter().map(|id| chunk(id, vec![1], true)).collect(),
        decode: decodes.into_iter().map(decode).collect(),
        prefill_sample_seed: 0,
        decode_sample_seed: 0,
    };
    assert!(validate_unified_plan(&plan(vec![1], vec![2]), 2).is_ok());
    assert!(matches!(
        validate_unified_plan(&plan(vec![], vec![2]), 2),
        Err(TpError::UnifiedNeedsPrefill)
    ));
    assert!(matches!(
        validate_unified_plan(&plan(vec![1], vec![]), 2),
        Err(TpError::UnifiedNeedsDecode)
    ));
    assert!(matches!(
        validate_unified_plan(&plan(vec![1, 3], vec![2]), 2),
        Err(TpError::UnifiedRows { rows: 3, max_batch: 2 })
    ));
    assert!(matches!(
        validate_unified_plan(&plan(vec![1], vec![1]), 2),
        Err(TpError::UnifiedInBoth { request: 1 })
    ));
}

#[test]
fn greedy_steps_become_plans() {
    let chunks = prefill_plan_chunks(vec![PrefillStepItem {
        request_id: RequestId::new(4),
        prompt_tokens: vec![1, 2, 3],
        logprobs: 2,
    }])
    .unwrap();
    assert_eq!(chunks[0].prompt_tokens, vec![1, 2, 3]);
    assert!(chunks[0].finish_prefill);
    assert_eq!(chunks[0].logprobs, 2);
    let items = decode_plan_items(&[DecodeStepItem {
        request_id: RequestId::new(4),
        token_id: 9,
        logprobs: 1,
    }])
    .unwrap();
    assert_eq!((items[0].token_id, items[0].logprobs), (9, 1));
    assert!(prefill_plan_chunks(Vec::new()).is_err());
    assert!(decode_plan_items(&[]).is_err());
}

#[test]
fn a_failed_spawn_lets_the_other_ranks_go() {
    let mut startup = TpStartup::new(3, 4);
    startup.worker_spawned();
    startup.give_up();
    assert_eq!(startup.gate().may_connect(), Some(false));
    assert_eq!(startup.next_step(), StartupStep::Stop);
}

#[test]
fn a_startup_is_ready_once_every_rank_connected() {
    let mut startup = spawned(2, 8);
    for (rank, capacity) in [(0, 6), (1, 9)] {
        assert_eq!(startup.next_step(), StartupStep::Preflight { rank });
        assert!(startup.preflight(PreflightReply::Ready(capacity)).is_ok());
    }
    assert_eq!(startup.next_step(), StartupStep::Agree);
    assert_eq!(startup.agree().unwrap(), 6);
    startup.connect();
    for rank in 0..2 {
        assert_eq!(startup.next_step(), StartupStep::Start { rank });
        assert!(startup.started(StartupReply::Connected).is_ok());
    }
    assert_eq!(startup.next_step(), StartupStep::Ready);
    let executor = startup.finish(RankPages { page_size: 16, capacity_pages: 29 }, 4096, 2);
    assert_eq!((executor.world_size(), executor.max_batch()), (2, 6));
    assert_eq!((executor.page_size(), executor.capacity_pages_for_requests()), (16, 29));
    assert_eq!(executor.max_position_embeddings(), 4096);
    assert!(executor.is_stop_token(2));

    let mut startup = spawned(2, 8);
    assert!(startup.preflight(PreflightReply::Ready(6)).is_ok());
    assert!(matches!(
        startup.preflight(PreflightReply::Exited),
        Err(TpError::PreflightExited { rank: 1 })
    ));
    assert_eq!(startup.next_step(), StartupStep::Stop);
}

#[test]
fn a_unified_step_answers_with_both_halves() {
    let executor = executor();
    let mut poison = TpRuntimePoison::default();
    let unified = TpWorkerReply::Unified(TpUnifiedResult {
        prefill: PrefillResult { requests: vec![sampled(31, 102)] },
        decode: DecodeResult {
            requests: vec![DecodeRequestResult {
                request_id: RequestId::new(30),
                token: 101,
                logprob: None,
            }],
        },
    });
    let mut responses = vec![reply(0, unified)];
    for rank in 1..executor.world_size() {
        responses.push(reply(rank, TpWorkerReply::Ack));
    }
    let result = executor.complete_unified(responses, &mut poison).unwrap();
    assert_eq!(result.prefill.requests[0].first_token, 102);
    assert_eq!(result.decode.requests[0].token, 101);
    assert!(poison.ensure_healthy().is_ok());

    let lone = vec![reply(0, TpWorkerReply::Ack)];
    assert!(executor.complete_unified(lone, &mut poison).is_err());
    assert!(poison.ensure_healthy().is_err());
}

#[test]
fn only_the_first_rank_answers_with_tokens() {
    let decoded = || {
        vec![DecodeRequestResult { request_id: RequestId::new(3), token: 11, logprob: None }]
    };
    let primary: TpWorkerState<u32> = TpWorkerState::connect(0, 2, 2).unwrap();
    match primary.decode_reply(decoded()) {
        TpWorkerReply::Decode(result) => assert_eq!(result.requests[0].token, 11),
        other => panic!("unexpected reply {other:?}"),
    }
    match primary.unified_reply(PrefillRun::new(), decoded()) {
        TpWorkerReply::Unified(result) => {
            assert!(result.prefill.requests.is_empty());
            assert_eq!(result.decode.requests[0].token, 11);
        }
        other => panic!("unexpected reply {other:?}"),
    }
    let other: TpWorkerState<u32> = TpWorkerState::connect(1, 2, 2).unwrap();
    assert!(matches!(other.decode_reply(Vec::new()), TpWorkerReply::Ack));
    assert!(matches!(other.unified_reply(PrefillRun::new(), Vec::new()), TpWorkerReply::Ack));
}

#[test]
fn a_slot_keeps_what_its_request_holds() {
    let mut worker: TpWorkerState<u32> = TpWorkerState::connect(0, 2, 2).unwrap();
    let first = worker.ensure_prefill_state(RequestId::new(8), 80);
    let second = worker.ensure_prefill_state(RequestId::new(9), 90);
    assert_eq!((first, second), (0, 1));
    *worker.slot_resources(second) += 1;
    assert_eq!(*worker.slot_resources(first), 80);
    assert_eq!(*worker.slot_resources(second), 91);
    assert_eq!(worker.ensure_prefill_state(RequestId::new(9), 99), 1);
    assert_eq!(*worker.slot_resources(1), 91);
}

#[test]
fn a_chunk_keeps_its_own_sampling() {
    let sampling = SamplingParams { top_k: 7, ..SamplingParams::default() };
    let chunk = TpPrefillChunkItem::new_with_sampling(
        RequestId::new(5),
        vec![1, 2],
        3,
        sampling,
        true,
    );
    assert_eq!(chunk.sampling_params.top_k, 7);
    assert_eq!((chunk.logprobs, chunk.finish_prefill), (3, true));
    assert_eq!(chunk.prompt_tokens, vec![1, 2]);
}
