use openinfer::bench::measure::{
    build_request_iterations, build_request_metrics, can_measure, curve_windows,
    snapshot_metrics, steps_by_position,
};
use openinfer::bench::mixed::{
    build_mixed_itl, collect_gaps, collect_prefills, count_early, gap_overlaps_any, head_start,
    validate_mixed, BgStream, HeadStart, Injector, MixedArgs,
};
use openinfer::bench::mixed_run::{
    background_step, can_measure_gaps, stream_request_id, BgNext, MixedRun, MixedStep,
};
use openinfer::bench::names::{
    gpu_slug_from, join_words, model_display_name, slug, snapshot_dir, snapshot_path,
    strip_vendor,
};
use openinfer::bench::prompt::{
    distinct_count, file_prompt, random_prompts, random_source, repeated_prompts,
    resolve_prompt_input, synthetic_prompt, synthetic_prompt_tokens,
    synthetic_prompt_tokens_salted, synthetic_random_prompt, text_prompt, truncate_preview,
    EmptyPrompt, PromptChoice, PromptInputArgs, SYNTHETIC_TOKEN_HI, SYNTHETIC_TOKEN_LO,
};
use openinfer::bench::stats::{
    aggregate_tok_s, opt_summarize, sort_durations, summarize_counts, summarize_durations, Rate,
};
use openinfer::bench::time::{sum, Duration};
use openinfer::bench::timings::{
    check_attribution, check_batched_generation, check_sampling_contract, stream_step,
    timings_from_dsv2_lite_attribution, timings_from_dsv2_lite_batched_generation,
    AttributionError, BatchedGenerationResult, GenTimings, StreamRole, StreamStep, TimingRecorder,
};
use openinfer::bench::trace::{generated_token_hash, generated_token_trace};
use openinfer::bench::workload::{
    bench_sampling, cold_prefill_salt, command_seed, kimi_parallel_config, load_plan, matrix_shapes,
    normalize_sizes, parallel_text, snapshot_prefill_prompt_len, validate_concurrency,
    validate_curve, validate_measurement, validate_run_args, BenchCommand, BenchError, KimiLayout, ModelType,
    RunArgs, SizesError,
};
use openinfer::engine::{EpBackend, FinishReason, ParallelConfig, SamplingParams, TokenEvent};

fn ms(millis: u64) -> Duration {
    Duration::from_micros(millis * 1000)
}

fn greedy(ignore_eos: bool) -> SamplingParams {
    SamplingParams { ignore_eos, ..SamplingParams::default() }
}

fn accepts_bench_params() {
    assert!(check_sampling_contract(&greedy(true)).is_ok());
    assert!(check_sampling_contract(&bench_sampling()).is_ok());
}

fn attribution_preserves_decode_steps() {
    let timings = timings_from_dsv2_lite_attribution(
        vec![11, 304, 608],
        3,
        60_000,
        Some(20_000),
        &[19_000, 18_000],
    );

    assert_eq!(timings.ttft, Duration::from_micros(20_000));
    assert_eq!(
        timings.tbt,
        vec![Duration::from_micros(19_000), Duration::from_micros(18_000)]
    );
    assert_eq!(timings.total, Duration::from_micros(60_000));
    assert_eq!(timings.emitted_tokens, 3);
    assert_eq!(timings.generated_tokens, vec![11, 304, 608]);
    assert_eq!(timings.decode_tokens_for_rate, 2);
    assert_eq!(timings.decode_time_for_rate, Duration::from_micros(37_000));
}

fn batched_result() -> BatchedGenerationResult {
    BatchedGenerationResult {
        tokens: vec![vec![11, 304, 608], vec![11, 304, 608]],
        prefill_next_token_us: vec![20_000, 21_000],
        per_token_decode_us: vec![19_000, 18_000],
        total_generation_us: 80_000,
    }
}

fn batched_timings_share_decode_time() {
    assert!(check_batched_generation(&batched_result(), 3).is_ok());
    let timings = timings_from_dsv2_lite_batched_generation(batched_result(), 3);

    assert_eq!(timings.len(), 2);
    assert_eq!(timings[0].decode_tokens_for_rate, 4);
    assert_eq!(timings[0].decode_time_for_rate, Duration::from_micros(37_000));
    assert_eq!(timings[1].decode_tokens_for_rate, 0);
    assert_eq!(timings[1].decode_time_for_rate, Duration::zero());

    assert!(can_measure(&timings));
    let metrics = build_request_metrics(&timings);
    assert_eq!(metrics.steady_tpot.expect("two rows of two steps").p50, ms(18));
    let rate = metrics.decode_rate.expect("decode steps were timed");
    assert!(
        rate.tokens as f64 / (rate.time.nanos() as f64 / 1e9) > 100.0,
        "batched decode tok/s should use one shared step duration instead of duplicating it per row"
    );
}

#[test]
fn main_dsv2_lite_sampling_contract_accepts_bench_params() {
    accepts_bench_params();
}

#[test]
fn bench_serving_dsv2_lite_sampling_contract_accepts_bench_params() {
    accepts_bench_params();
}

#[test]
fn main_dsv2_lite_attribution_timings_preserve_decode_steps() {
    attribution_preserves_decode_steps();
}

#[test]
fn bench_serving_dsv2_lite_attribution_timings_preserve_decode_steps() {
    attribution_preserves_decode_steps();
}

#[test]
fn main_dsv2_lite_batched_timings_use_shared_decode_time_for_rate() {
    batched_timings_share_decode_time();
}

#[test]
fn bench_serving_dsv2_lite_batched_timings_use_shared_decode_time_for_rate() {
    batched_timings_share_decode_time();
}

#[test]
fn sampling_beyond_greedy_is_refused() {
    let hot = SamplingParams {
        temperature: 0.8f32.to_bits(),
        top_k: -1,
        top_p: 0.95f32.to_bits(),
        ignore_eos: true,
    };
    let error = check_sampling_contract(&hot).unwrap_err();
    assert!(error.message().contains("supports greedy decoding only"));
    let error = check_sampling_contract(&greedy(false)).unwrap_err();
    assert!(error.message().contains("requires ignore_eos=true"));
}

#[test]
fn attributions_that_do_not_add_up_are_refused() {
    let message = |tokens, expected, total, prefill, decode: &[u64]| {
        check_attribution(tokens, expected, total, prefill, decode).unwrap_err().message()
    };
    assert!(message(3, 3, 60_000, Some(20_000), &[19_000]).contains("timing count mismatch"));
    assert!(message(2, 3, 60_000, Some(20_000), &[19_000])
        .contains("generated token count mismatch"));
    assert!(message(2, 2, 60_000, Some(20_000), &[0]).contains("zero-duration"));
    assert!(message(2, 2, 0, Some(20_000), &[19_000]).contains("total generation timing is zero"));
    assert!(message(2, 2, 60_000, None, &[19_000]).contains("TTFT timing is missing or zero"));
    assert!(message(2, 2, 60_000, Some(0), &[19_000]).contains("TTFT timing is missing or zero"));
    assert!(check_attribution(2, 2, 60_000, Some(1), &[19_000]).is_ok());
}

#[test]
fn batches_that_do_not_add_up_are_refused() {
    let refused = |change: fn(&mut BatchedGenerationResult)| {
        let mut result = batched_result();
        change(&mut result);
        let error = check_batched_generation(&result, 3).unwrap_err();
        assert!(!error.message().is_empty());
        error
    };
    assert_eq!(refused(|r| r.tokens.clear()), AttributionError::EmptyBatch);
    assert_eq!(
        refused(|r| {
            r.prefill_next_token_us.pop();
        }),
        AttributionError::BatchTtftCount
    );
    assert_eq!(refused(|r| r.total_generation_us = 0), AttributionError::BatchZeroTotal);
    assert_eq!(refused(|r| r.prefill_next_token_us[1] = 0), AttributionError::BatchZeroTtft);
    assert!(matches!(
        refused(|r| {
            r.per_token_decode_us.pop();
        }),
        AttributionError::BatchTimingCount { .. }
    ));
    assert_eq!(refused(|r| r.per_token_decode_us[0] = 0), AttributionError::BatchZeroDecode);
    assert!(matches!(
        refused(|r| {
            r.tokens[1].pop();
        }),
        AttributionError::BatchTokenCount { row: 1, .. }
    ));
}

#[test]
fn durations_are_summarised_by_rank() {
    let samples: Vec<Duration> = (1..=100).rev().map(ms).collect();
    let stats = summarize_durations(&samples);
    assert_eq!(stats.avg, Duration::from_micros(50_500));
    assert_eq!(stats.p50, ms(51));
    assert_eq!(stats.p95, ms(95));
    assert_eq!(stats.p99, ms(99));
    assert_eq!(stats.max, ms(100));
    assert_eq!(stats.samples, 100);
    for n in 1..40usize {
        let samples: Vec<Duration> = (0..n as u64).map(ms).collect();
        let stats = summarize_durations(&samples);
        let p = |pct: f64| ms(((pct / 100.0) * (n - 1) as f64).round() as u64);
        assert_eq!((stats.p50, stats.p95, stats.p99), (p(50.0), p(95.0), p(99.0)), "n = {n}");
    }
    assert!(opt_summarize(&[]).is_none());
    assert_eq!(sort_durations(&[ms(3), ms(1), ms(2)]), vec![ms(1), ms(2), ms(3)]);
    assert_eq!(sum(&[ms(3), ms(1)]), ms(4));
}

#[test]
fn counts_and_rates() {
    let stats = summarize_counts(&[3, 1, 5]);
    assert_eq!((stats.min, stats.max, stats.total, stats.samples), (1, 5, 9, 3));
    assert_eq!(aggregate_tok_s(0, ms(5)), None);
    assert_eq!(aggregate_tok_s(5, Duration::zero()), None);
    assert_eq!(aggregate_tok_s(5, ms(2)), Some(Rate { tokens: 5, time: ms(2) }));
}

#[test]
fn token_traces_fingerprint_outputs() {
    assert_eq!(generated_token_hash(&[]), "cbf29ce484222325");
    let mut hash = 0xcbf2_9ce4_8422_2325u64;
    for token in [11u32, 304, 608] {
        for byte in token.to_le_bytes() {
            hash ^= u64::from(byte);
            hash = hash.wrapping_mul(0x0100_0000_01b3);
        }
    }
    assert_eq!(generated_token_hash(&[11, 304, 608]), format!("{hash:016x}"));
    let tokens: Vec<u32> = (0..20).collect();
    let trace = generated_token_trace(&tokens);
    assert_eq!(trace.len, 20);
    assert_eq!(trace.prefix, (0..16).collect::<Vec<u32>>());
    assert_eq!(trace.hash, generated_token_hash(&tokens));
}

fn recorded(moments: &[u64], total: u64) -> GenTimings {
    let mut recorder = TimingRecorder::new();
    for (i, moment) in moments.iter().enumerate() {
        recorder.on_token(i as u32, ms(*moment));
    }
    recorder.finish(ms(total))
}

#[test]
fn gaps_between_tokens_are_recorded() {
    let timings = recorded(&[10, 15, 25], 30);
    assert_eq!(timings.ttft, ms(10));
    assert_eq!(timings.tbt, vec![ms(5), ms(10)]);
    assert_eq!(timings.total, ms(30));
    assert_eq!(timings.emitted_tokens, 3);
    assert_eq!(timings.generated_tokens, vec![0, 1, 2]);
    assert_eq!(timings.decode_tokens_for_rate, 2);
    assert_eq!(timings.decode_time_for_rate, ms(15));
    let silent = recorded(&[], 7);
    assert_eq!(silent.ttft, ms(7));
    assert_eq!(silent.emitted_tokens, 0);
}

#[test]
fn streams_are_followed_event_by_event() {
    let token = Some(TokenEvent::Token { id: 5, logprob: None });
    assert!(matches!(stream_step(StreamRole::Scheduler, &token), StreamStep::Token(5)));
    let finished = Some(TokenEvent::Finished {
        finish_reason: FinishReason::Length,
        prompt_tokens: 1,
        completion_tokens: 1,
    });
    assert!(matches!(stream_step(StreamRole::Scheduler, &finished), StreamStep::Done));
    let rejected = Some(TokenEvent::Rejected {
        message: "too long".to_string(),
        prompt_tokens: 1,
        completion_tokens: 0,
    });
    let text = |step| match step {
        StreamStep::Failed(text) => text,
        _ => panic!("the stream failed"),
    };
    assert_eq!(
        text(stream_step(StreamRole::Injection, &rejected)),
        "injection request rejected: too long"
    );
    assert_eq!(text(stream_step(StreamRole::Background, &None)), "background channel closed");
    let prompt = Some(TokenEvent::PromptTokens { ids: vec![], logprobs: vec![] });
    assert!(matches!(stream_step(StreamRole::Warmup, &prompt), StreamStep::Skip));
}

#[test]
fn metrics_cover_every_iteration() {
    let timings = vec![recorded(&[10, 15, 25], 30), recorded(&[12, 20], 21)];
    assert!(can_measure(&timings));
    let metrics = build_request_metrics(&timings);
    assert_eq!(metrics.ttft.max, ms(12));
    assert_eq!(metrics.e2e.max, ms(30));
    assert_eq!(metrics.first_decode_step.expect("both decoded").samples, 2);
    assert_eq!(metrics.steady_tpot.expect("one steady step").p50, ms(10));
    assert_eq!(metrics.generated_tokens.total, 5);
    assert_eq!(metrics.request_rate, Some(Rate { tokens: 5, time: ms(51) }));
    assert_eq!(metrics.decode_rate, Some(Rate { tokens: 3, time: ms(23) }));
    assert_eq!(metrics.generated_token_traces.len(), 2);
    assert_eq!(snapshot_metrics(metrics).generated_token_traces.len(), 1);
    let iterations = build_request_iterations(&timings);
    assert_eq!(iterations[1].index, 1);
    assert_eq!(iterations[1].first_decode_step, Some(ms(8)));
    assert!(iterations[1].steady_tpot.is_none());
    assert_eq!(iterations[0].e2e, ms(30));
}

#[test]
fn curves_are_cut_into_windows() {
    let timings = vec![recorded(&[10, 15, 25, 30], 30), recorded(&[12, 20], 21)];
    assert_eq!(
        steps_by_position(&timings),
        vec![vec![ms(5), ms(8)], vec![ms(10)], vec![ms(5)]]
    );
    let windows = curve_windows(&timings, 100, 2);
    assert_eq!(windows.len(), 2);
    assert_eq!((windows[0].ctx_start, windows[0].ctx_end), (101, 102));
    assert_eq!(windows[0].tpot.samples, 3);
    assert_eq!((windows[1].ctx_start, windows[1].ctx_end), (103, 103));
}

#[test]
fn synthetic_prompts_follow_their_pattern() {
    let tokens = synthetic_prompt_tokens(1002);
    assert_eq!((tokens[0], tokens[999], tokens[1000]), (100, 1099, 100));
    assert_eq!(synthetic_prompt_tokens_salted(5, 0), synthetic_prompt_tokens(5));
    assert_ne!(
        synthetic_prompt_tokens_salted(5, 1)[0],
        synthetic_prompt_tokens_salted(5, 2)[0]
    );
    assert_ne!(
        synthetic_prompt_tokens_salted(5, 1_001)[0],
        synthetic_prompt_tokens_salted(5, 2_002)[0]
    );
    assert_eq!(synthetic_prompt_tokens_salted(5, 7), synthetic_prompt_tokens_salted(5, 4_007));
    let spec = synthetic_prompt(3);
    assert_eq!(spec.tokens, vec![100, 101, 102]);
    assert_eq!(spec.descriptor.source, "synthetic:token_id = 100 + (idx % 1000)");
}

#[test]
fn random_prompts_are_seeded_per_request() {
    let a = synthetic_random_prompt(50, 42, 0);
    assert_eq!(a, synthetic_random_prompt(50, 42, 0));
    assert_ne!(a, synthetic_random_prompt(50, 42, 1));
    assert_ne!(a, synthetic_random_prompt(50, 43, 0));
    assert!(a.iter().all(|t| (SYNTHETIC_TOKEN_LO..SYNTHETIC_TOKEN_HI).contains(t)));
    let prompts = random_prompts(10, 42, 2, 5);
    assert_eq!(prompts.len(), 5);
    assert_eq!(prompts[0], prompts[2]);
    assert_ne!(prompts[0], prompts[1]);
    assert_eq!(distinct_count(0, 5), 5);
    assert_eq!(distinct_count(9, 5), 5);
    assert_eq!(distinct_count(2, 5), 2);
    assert_eq!(
        random_source(42, 2, 5),
        "synthetic-random[100..100000) seed=42 distinct=2/5"
    );
    assert_eq!(repeated_prompts(&vec![1, 2], 3), vec![vec![1, 2]; 3]);
}

#[test]
fn prompts_come_from_one_source() {
    let args = |prompt: Option<&str>, file: Option<&str>, len| PromptInputArgs {
        prompt: prompt.map(|s| s.to_string()),
        prompt_file: file.map(|s| s.to_string()),
        prompt_len: len,
    };
    assert!(matches!(
        resolve_prompt_input(&args(Some("hi"), None, None), None, None),
        Ok(PromptChoice::Text(text)) if text == "hi"
    ));
    assert!(matches!(
        resolve_prompt_input(&args(None, Some("p.txt"), None), None, None),
        Ok(PromptChoice::File(path)) if path == "p.txt"
    ));
    assert!(matches!(
        resolve_prompt_input(&args(None, None, Some(7)), None, None),
        Ok(PromptChoice::Synthetic(7))
    ));
    assert!(matches!(
        resolve_prompt_input(&args(None, None, Some(0)), None, None),
        Err(EmptyPrompt)
    ));
    assert!(matches!(
        resolve_prompt_input(&args(None, None, None), Some("default"), None),
        Ok(PromptChoice::Text(_))
    ));
    assert!(matches!(
        resolve_prompt_input(&args(None, None, None), None, Some(512)),
        Ok(PromptChoice::Synthetic(512))
    ));
    assert!(!EmptyPrompt.message().is_empty());
    let text = text_prompt("a\nb", vec![1, 2, 3]);
    assert_eq!(text.descriptor.prompt_preview.as_deref(), Some("a\\nb"));
    assert_eq!(text.descriptor.prompt_tokens, 3);
    let file = file_prompt("p.txt", "abc", vec![1]);
    assert_eq!(file.descriptor.source, "file:p.txt");
    assert_eq!(truncate_preview("abcdef", 3), "abc...");
    assert_eq!(truncate_preview("a\nb", 4), "a\\nb");
}

#[test]
fn arguments_are_checked_before_anything_runs() {
    let run = |iters| RunArgs { warmup: 1, iters, seed: 9 };
    assert!(validate_run_args(&run(1)).is_ok());
    assert_eq!(validate_run_args(&run(0)), Err(BenchError::Iters));
    assert_eq!(validate_measurement(false, 1, 0, &run(1)), Err(BenchError::OutputLen));
    assert_eq!(validate_measurement(false, 0, 1, &run(1)), Err(BenchError::NoPrompts));
    assert_eq!(validate_concurrency(false, 0), Err(BenchError::Concurrency));
    assert!(validate_concurrency(false, 9).is_ok());
    assert_eq!(
        validate_concurrency(true, 9),
        Err(BenchError::AttributionConcurrency { concurrency: 9 })
    );
    assert_eq!(validate_curve(0, 4), Err(BenchError::Window));
    assert_eq!(validate_curve(1, 1), Err(BenchError::CurveOutputLen));
    assert!(validate_curve(1, 2).is_ok());
    assert_eq!(kimi_parallel_config(0, 1), Err(BenchError::TpSize));
    assert_eq!(kimi_parallel_config(1, 0), Err(BenchError::DpSize));
    assert_eq!(
        kimi_parallel_config(1, 8),
        Ok(ParallelConfig { tp_size: 1, dp_size: 8 })
    );
    assert_eq!(command_seed(BenchCommand::Matrix(run(1))), 9);
    assert_eq!(normalize_sizes(&[8, 2, 8, 4]), Ok(vec![2, 4, 8]));
    assert_eq!(normalize_sizes(&[]), Err(SizesError::Empty));
    assert_eq!(normalize_sizes(&[3, 0]), Err(SizesError::Zero));
    assert!(SizesError::Zero.message("--prompt-lens").contains("--prompt-lens"));
    assert_eq!(matrix_shapes(&[1, 2], &[3, 4]), vec![(1, 3), (1, 4), (2, 3), (2, 4)]);
    assert_eq!(parallel_text(1, 8, "deepep"), "tp1-dp8-deepep");
    assert_eq!(cold_prefill_salt(true, 2), 100_002);
    assert_eq!(cold_prefill_salt(true, usize::MAX - 100_000), usize::MAX);
    assert_eq!(cold_prefill_salt(false, 2), 3);
    assert!(snapshot_prefill_prompt_len(ModelType::Qwen3) > 0);
    assert_eq!(
        BenchError::AttributionConcurrency { concurrency: 9 }.message(),
        "DeepSeek-V2-Lite direct benchmark supports --concurrency 1..=8; concurrency=1 is the single-row control and >1 uses the narrow same-prompt batched decode path, got 9"
    );
}

fn mixed_args() -> MixedArgs {
    MixedArgs {
        bg_prompt_len: 16,
        bg_concurrency: 2,
        bg_output_len: 100,
        inj_prompt_len: 64,
        inj_output_len: 1,
        qps: 2.0f64.to_bits(),
        num_injections: 2,
        skip_baseline: false,
        inj_warm_frac: 0.5f64.to_bits(),
        head_start_tokens: 4,
        run: RunArgs { warmup: 3, iters: 1, seed: 9 },
    }
}

#[test]
fn mixed_arguments_are_checked_in_order() {
    assert!(validate_mixed(&mixed_args()).is_ok());
    let cases: Vec<(fn(&mut MixedArgs), BenchError)> = vec![
        (|a| a.bg_concurrency = 0, BenchError::BgConcurrency),
        (|a| a.bg_prompt_len = 0, BenchError::BgPromptLen),
        (|a| a.bg_output_len = 0, BenchError::BgOutputLen),
        (|a| a.inj_prompt_len = 0, BenchError::InjPromptLen),
        (|a| a.inj_output_len = 0, BenchError::InjOutputLen),
        (|a| a.num_injections = 0, BenchError::NumInjections),
        (|a| a.qps = 0.0f64.to_bits(), BenchError::Qps),
        (|a| a.qps = f64::NAN.to_bits(), BenchError::Qps),
        (|a| a.inj_warm_frac = 1.5f64.to_bits(), BenchError::WarmFrac),
        (|a| a.inj_warm_frac = (-0.1f64).to_bits(), BenchError::WarmFrac),
    ];
    for (change, error) in cases {
        let mut args = mixed_args();
        change(&mut args);
        assert_eq!(validate_mixed(&args), Err(error));
    }
}

fn stream(moments: &[u64], finished_early: bool) -> BgStream {
    let mut stream = BgStream::new();
    for moment in moments {
        stream.on_token(ms(*moment));
    }
    if finished_early {
        stream.on_finished();
    }
    stream
}

#[test]
fn gaps_are_sorted_by_the_prefills_that_hit_them() {
    let windows = vec![(ms(20), ms(30))];
    assert!(gap_overlaps_any(ms(25), ms(40), &windows));
    assert!(gap_overlaps_any(ms(10), ms(21), &windows));
    assert!(!gap_overlaps_any(ms(10), ms(20), &windows));
    assert!(!gap_overlaps_any(ms(30), ms(40), &windows));
    assert!(gap_overlaps_any(ms(25), ms(25), &windows), "strictly inside");
    assert!(!gap_overlaps_any(ms(20), ms(20), &windows), "at the edge");
    let streams = [stream(&[10, 15, 25, 35], false), stream(&[40, 42], true), stream(&[], false)];
    let gaps = collect_gaps(&streams, &windows);
    assert_eq!(gaps.all, vec![ms(5), ms(10), ms(10), ms(2)]);
    assert_eq!(gaps.stall, vec![ms(10), ms(10)]);
    assert_eq!(gaps.steady, vec![ms(5), ms(2)]);
    assert!(can_measure_gaps(&gaps));
    let itl = build_mixed_itl(&gaps).expect("there are gaps");
    assert_eq!((itl.total_gap_count, itl.stall_gap_count), (4, 2));
    assert_eq!(itl.all.max, ms(10));
    assert_eq!(itl.steady.expect("steady gaps").samples, 2);
    assert_eq!(count_early(&streams), 1);
    let none = collect_gaps(&[stream(&[3], false)], &windows);
    assert!(build_mixed_itl(&none).is_none());
}

#[test]
fn injections_keep_their_pace() {
    let mut injector = Injector::new(3, ms(0));
    let cold = injector.next_injection(false).expect("first");
    assert_eq!((cold.index, cold.salt), (0, 1));
    let warm = injector.next_injection(true).expect("first, warm");
    assert_eq!(warm.salt, 103);
    assert_eq!(injector.injected(false, ms(10), ms(14), ms(15), ms(20)), Some(ms(15)));
    assert_eq!(injector.injected(true, ms(30), ms(58), ms(60), ms(20)), None);
    assert_eq!(injector.overruns(), 1);
    assert_eq!(injector.injected(false, ms(60), ms(99), ms(99), ms(20)), None);
    assert_eq!(injector.overruns(), 1, "the last injection cannot delay another");
    assert!(injector.next_injection(false).is_none());
    assert_eq!(injector.windows()[1], (ms(30), ms(58)));
    let records = injector.into_records();
    assert_eq!(records[0].prefill, ms(4));
    assert_eq!(records[1].arrival_offset, ms(30));
    assert_eq!(collect_prefills(&records, true), vec![ms(28)]);
    assert_eq!(collect_prefills(&records, false), vec![ms(4), ms(39)]);
}

#[test]
fn injection_waits_for_the_background() {
    assert_eq!(head_start(&[4, 5], 4, ms(0), ms(10)), HeadStart::Reached);
    assert_eq!(head_start(&[3, 5], 4, ms(0), ms(10)), HeadStart::Wait);
    assert_eq!(head_start(&[3, 5], 4, ms(10), ms(10)), HeadStart::TimedOut);
    let mut background = BgStream::new();
    assert!(matches!(
        background_step(&mut background, StreamStep::Token(1), ms(1), false),
        BgNext::Continue
    ));
    assert!(matches!(
        background_step(&mut background, StreamStep::Token(2), ms(2), true),
        BgNext::Stop
    ));
    assert_eq!(background.token_times, vec![ms(1), ms(2)]);
    assert!(!background.finished_early);
    assert!(matches!(
        background_step(&mut background, StreamStep::Done, ms(3), false),
        BgNext::Stop
    ));
    assert!(background.finished_early);
    assert_eq!(stream_request_id(StreamRole::Background, 3), "mixed-bg-3");
    assert_eq!(stream_request_id(StreamRole::Warmup, 0), "mixed-warmup-0");
    assert_eq!(stream_request_id(StreamRole::Injection, 1), "mixed-inj-1");
    assert_eq!(stream_request_id(StreamRole::Scheduler, 2), "bench-serving-2");
}

#[test]
fn a_mixed_run_goes_through_its_steps() {
    assert!(matches!(MixedRun::new(mixed_args(), false), Err(BenchError::NoScheduler)));
    let mut run = match MixedRun::new(mixed_args(), true) {
        Ok(run) => run,
        Err(error) => panic!("{}", error.message()),
    };
    assert_eq!(run.step(), MixedStep::Warmup(3));
    run.warmed();
    assert_eq!(run.step(), MixedStep::Background);
    run.background_started();
    assert_eq!(run.step(), MixedStep::AwaitHeadStart(4));
    run.head_start_over(false, ms(100));
    assert_eq!(run.step(), MixedStep::Inject);
    let mut index = 0;
    while let Some(injection) = run.next_injection(index == 1) {
        let start = ms(100 + 50 * index);
        let _ = run.injected(injection.warm, start, ms(110 + 50 * index), ms(130 + 50 * index), ms(20));
        index += 1;
    }
    assert_eq!(run.step(), MixedStep::StopBackground);
    let streams = [stream(&[90, 105, 125], false), stream(&[95, 100], true)];
    let gaps = run.gaps(&streams);
    assert!(can_measure_gaps(&gaps));
    assert_eq!(run.background_stopped(ms(220), &streams, &gaps, "500"), Ok(()));
    assert_eq!(run.step(), MixedStep::Baseline(ms(120)));
    let control = [stream(&[0, 4, 9], false)];
    let control_gaps = collect_gaps(&control, &Vec::new());
    run.baseline_ran(true, &control, &control_gaps);
    assert_eq!(run.step(), MixedStep::Report);
    let outcome = run.finish();
    assert_eq!(outcome.injections.len(), 2);
    assert_eq!(outcome.itl.total_gap_count, 3);
    assert_eq!(outcome.baseline.expect("the control ran").samples, 2);
    assert_eq!(outcome.decision.mixed_p99, outcome.itl.all.p99);
    assert_eq!(
        outcome.warnings,
        vec![
            "head-start of 4 tokens not reached within 120s; injection started anyway",
            "1 injection(s) overran the 500ms QPS slot (prefill longer than 1/qps); arrivals were not evenly paced",
            "1 background stream(s) hit --bg-output-len before the run ended; raise --bg-output-len to keep steady-state concurrency constant",
        ]
    );
}

#[test]
fn a_run_without_gaps_has_nothing_to_report() {
    let mut run = match MixedRun::new(mixed_args(), true) {
        Ok(run) => run,
        Err(error) => panic!("{}", error.message()),
    };
    run.warmed();
    run.background_started();
    run.head_start_over(true, ms(0));
    while let Some(injection) = run.next_injection(false) {
        let _ = run.injected(injection.warm, ms(0), ms(1), ms(1), ms(20));
    }
    let gaps = run.gaps(&[]);
    assert_eq!(run.background_stopped(ms(9), &[], &gaps, "500"), Err(BenchError::NoGaps));
}

#[test]
fn snapshots_are_named_after_gpu_and_model() {
    assert_eq!(gpu_slug_from("NVIDIA GeForce RTX 5070 Ti"), "rtx-5070-ti");
    assert_eq!(gpu_slug_from("NVIDIA H100 80GB HBM3"), "h100-80gb-hbm3");
    assert_eq!(gpu_slug_from("--Weird__  GPU/Name--"), "weird-gpu-name");
    assert_eq!(gpu_slug_from("unknown"), "unknown");
    assert_eq!(gpu_slug_from("NVIDIA É 4"), "é-4");
    assert_eq!(slug("a..b"), "a-b");
    assert_eq!(join_words("-a--b-"), "a-b");
    assert_eq!(strip_vendor("NVIDIA Tesla"), "Tesla");
    assert_eq!(model_display_name("/models/Qwen3-4B/"), "Qwen3-4B");
    assert_eq!(model_display_name("/"), "unknown");
    assert_eq!(snapshot_dir("snaps", "NVIDIA L4"), "snaps/l4");
    assert_eq!(snapshot_path("snaps", "NVIDIA L4", "Qwen3-4B"), "snaps/l4/qwen3-4b.json");
}

#[test]
fn each_model_line_is_loaded_its_own_way() {
    let layout = KimiLayout {
        parallel: ParallelConfig { tp_size: 1, dp_size: 8 },
        ep_world: 8,
        ep_backend: EpBackend::DeepEp,
    };
    let lite = load_plan(ModelType::DeepSeekV2Lite, true, &layout, 42);
    assert!(lite.by_attribution && !lite.cuda_graph && !lite.options.enable_cuda_graph);
    assert_eq!(lite.options.device_ordinals, vec![0, 1]);
    assert_eq!(lite.options.ep_backend, EpBackend::Nccl);
    assert_eq!(lite.options.parallel_config, None);

    let v4 = load_plan(ModelType::DeepSeekV4, true, &layout, 42);
    assert!(!v4.by_attribution && !v4.cuda_graph);
    assert_eq!(v4.options.device_ordinals, vec![0, 1, 2, 3, 4, 5, 6, 7]);

    let kimi = load_plan(ModelType::KimiK2, true, &layout, 7);
    assert!(kimi.cuda_graph && kimi.options.enable_cuda_graph);
    assert_eq!(kimi.options.device_ordinals.len(), 8);
    assert_eq!(kimi.options.parallel_config, Some(layout.parallel));
    assert_eq!(kimi.options.ep_backend, EpBackend::DeepEp);
    assert_eq!(kimi.options.seed, 7);

    let qwen3 = load_plan(ModelType::Qwen3, false, &layout, 1);
    assert!(!qwen3.cuda_graph);
    assert_eq!(qwen3.options.device_ordinals, vec![0]);
    assert_eq!(qwen3.capacity, None);
    assert_eq!(load_plan(ModelType::Qwen35, true, &layout, 1).capacity, Some(4));
}

#[test]
fn nanoseconds_are_kept() {
    let span = Duration::from_nanos(1_500);
    assert_eq!(span.nanos(), 1_500);
    assert_eq!(Duration::from_micros(2).since(span).nanos(), 500);
    assert_eq!(span.since(Duration::from_micros(2)).nanos(), 0);
}
