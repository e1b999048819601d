use openinfer::bench::prompt::PromptDescriptor;
use openinfer::bench::render::{
    check_shapes, render_comparison, render_snapshot_text, render_text, BenchReport, Change,
    Comparison, DecisionText, DeltaText, MixedLoadReport, PairText, PrefillText, SnapshotReport,
    SnapshotShape, TpotComparison,
};
use openinfer::bench::report::{
    format_rate, join_sizes, CurveReport, CurveRow, MatrixCell, MatrixReport, Repeats,
    RequestReport, RunInfo, StatsText,
};

fn run_info(label: Option<&str>) -> RunInfo {
    RunInfo {
        model_path: "models/m".to_string(),
        model_type: "Qwen3".to_string(),
        cuda_graph: true,
        load_ms: "12.50".to_string(),
        label: label.map(|l| l.to_string()),
    }
}

fn stats(avg: &str, samples: usize) -> StatsText {
    StatsText {
        avg: avg.to_string(),
        p50: "2.00".to_string(),
        p95: "3.00".to_string(),
        p99: "4.00".to_string(),
        max: "5.00".to_string(),
        samples,
    }
}

fn repeats() -> Repeats {
    Repeats { warmup: 1, iters: 3, seed: 42 }
}

fn prompt() -> PromptDescriptor {
    PromptDescriptor {
        source: "text".to_string(),
        prompt_tokens: 7,
        prompt_preview: Some("hello".to_string()),
    }
}

/// The cells of each row that holds text, whatever the borders.
fn rows(text: &str) -> Vec<Vec<String>> {
    text.lines()
        .filter(|line| line.starts_with('|') || line.starts_with('│'))
        .map(|line| {
            line.split(['|', '│', '┆'])
                .map(|cell| cell.trim().to_string())
                .filter(|cell| !cell.is_empty())
                .collect()
        })
        .collect()
}

fn row(cells: &[&str]) -> Vec<String> {
    cells.iter().map(|c| c.to_string()).collect()
}

fn request_report() -> BenchReport {
    BenchReport::Request(RequestReport {
        run: run_info(Some("nightly")),
        prompt: prompt(),
        output_len: 16,
        repeats: repeats(),
        ttft: stats("1.00", 3),
        first_decode_step: None,
        steady_tpot: Some(stats("1.50", 30)),
        e2e: stats("9.00", 3),
        generated_avg: "16.00".to_string(),
        generated_min: 15,
        generated_max: 17,
        generated_runs: 3,
        request_tok_s: Some("88.00".to_string()),
        decode_tok_s: None,
    })
}

#[test]
fn request_reports_hold_three_tables() {
    let text = render_text(&request_report(), false);
    assert!(text.starts_with("bench_serving request\n\n+"));
    let rows = rows(&text);
    assert_eq!(rows[0], row(&["model", "models/m (Qwen3)"]));
    assert_eq!(rows[1], row(&["cuda_graph", "true"]));
    assert_eq!(rows[2], row(&["load_ms", "12.50"]));
    assert_eq!(rows[3], row(&["label", "nightly"]));
    assert_eq!(rows[4], row(&["prompt_source", "text"]));
    assert_eq!(rows[5], row(&["prompt_tokens", "7"]));
    assert_eq!(rows[6], row(&["prompt", "\"hello\""]));
    assert_eq!(rows[7], row(&["output_len", "16"]));
    assert_eq!(rows[8], row(&["warmup / iters", "1 / 3"]));
    assert_eq!(rows[9], row(&["seed", "42"]));
    assert_eq!(
        rows[10],
        row(&["metric", "avg_ms", "p50_ms", "p95_ms", "p99_ms", "max_ms", "samples"])
    );
    assert_eq!(rows[11], row(&["ttft_ms", "1.00", "2.00", "3.00", "4.00", "5.00", "3"]));
    assert_eq!(rows[12][0], "steady_tpot_ms");
    assert_eq!(rows[13][0], "e2e_ms");
    assert_eq!(rows[14], row(&["metric", "value"]));
    assert_eq!(rows[15], row(&["generated_tokens_avg", "16.00"]));
    assert_eq!(rows[19], row(&["request_tok_s", "88.00"]));
    assert_eq!(rows[20], row(&["decode_tok_s", "-"]));
    assert_eq!(rows.len(), 21);
}

#[test]
fn terminals_get_round_corners() {
    let plain = render_text(&request_report(), false);
    let pretty = render_text(&request_report(), true);
    assert!(plain.is_ascii());
    assert!(pretty.contains('╭') && pretty.contains('╯'));
    assert_eq!(rows(&plain), rows(&pretty));
    let number = plain.lines().find(|l| l.contains("load_ms")).expect("a number row");
    let text = plain.lines().find(|l| l.contains("cuda_graph")).expect("a text row");
    assert!(number.ends_with("12.50 |"), "numbers are aligned to the right");
    assert!(text.contains("| true "), "texts are aligned to the left");
}

#[test]
fn matrix_reports_list_their_cells() {
    let cell = |prompt_len, output_len| MatrixCell {
        prompt_len,
        output_len,
        ttft_avg: "1.10".to_string(),
        ttft_p95: "1.20".to_string(),
        e2e_avg: "1.30".to_string(),
        request_tok_s: None,
        decode_tok_s: Some("5.00".to_string()),
        generated_avg: "4.00".to_string(),
    };
    let text = render_text(
        &BenchReport::Matrix(MatrixReport {
            run: run_info(None),
            prompt_lens: vec![128, 512],
            output_lens: vec![4],
            repeats: repeats(),
            cells: vec![cell(128, 4), cell(512, 4)],
        }),
        false,
    );
    assert!(text.starts_with("bench_serving matrix\n\n"));
    let rows = rows(&text);
    assert_eq!(rows[3], row(&["prompt_lens", "128,512"]));
    assert_eq!(rows[4], row(&["output_lens", "4"]));
    assert_eq!(rows[5], row(&["synthetic_pattern", "token_id = 100 + (idx % 1000)"]));
    assert_eq!(
        rows[8],
        row(&[
            "prompt_tok", "output_tok", "ttft_avg", "ttft_p95", "e2e_avg", "req_tok/s",
            "decode_tok/s", "gen_avg",
        ])
    );
    assert_eq!(rows[9], row(&["128", "4", "1.10", "1.20", "1.30", "-", "5.00", "4.00"]));
    assert_eq!(rows[10][0], "512");
    assert_eq!(join_sizes(&vec![1, 2, 3]), "1,2,3");
    assert_eq!(join_sizes(&Vec::new()), "");
    assert_eq!(format_rate(&None), "-");
}

#[test]
fn curve_reports_list_their_windows() {
    let text = render_text(
        &BenchReport::Curve(CurveReport {
            run: run_info(None),
            prompt: PromptDescriptor {
                source: "synthetic".to_string(),
                prompt_tokens: 512,
                prompt_preview: None,
            },
            output_len: 64,
            window: 32,
            repeats: repeats(),
            windows: vec![CurveRow {
                ctx_start: 513,
                ctx_end: 544,
                tpot: stats("1.00", 96),
                decode_tok_s: Some("1000.00".to_string()),
            }],
        }),
        false,
    );
    assert!(text.starts_with("bench_serving curve\n\n"));
    let rows = rows(&text);
    assert_eq!(rows[5], row(&["output_len", "64"]));
    assert_eq!(rows[6], row(&["window", "32"]));
    assert_eq!(
        rows[9],
        row(&["ctx_range", "avg_ms", "p50_ms", "p95_ms", "p99_ms", "tok/s", "samples"])
    );
    assert_eq!(
        rows[10],
        row(&["513-544", "1.00", "2.00", "3.00", "4.00", "1000.00", "96"])
    );
}

fn mixed_report(decision: DecisionText) -> BenchReport {
    BenchReport::Mixed(MixedLoadReport {
        run: run_info(None),
        commit: "abc123".to_string(),
        gpu: "H100".to_string(),
        bg_prompt_len: 16,
        bg_concurrency: 8,
        bg_output_len: 512,
        inj_prompt_len: 4096,
        inj_output_len: 1,
        inj_warm_frac: "0.5".to_string(),
        qps: "2".to_string(),
        num_injections: 10,
        warmup: 1,
        seed: 42,
        baseline_itl: Some(stats("1.00", 9)),
        mixed_all: stats("1.50", 10),
        mixed_steady: Some(stats("1.25", 8)),
        mixed_stall: None,
        stall_gap_count: 2,
        total_gap_count: 10,
        stall_pct: "20.0".to_string(),
        cold: Some(PrefillText {
            p50: "30.00".to_string(),
            p99: "40.00".to_string(),
            max: "41.00".to_string(),
            samples: 5,
        }),
        warm: None,
        decision,
        warnings: vec!["careful".to_string(), "really".to_string()],
    })
}

#[test]
fn mixed_reports_end_in_their_decision() {
    let text = render_text(
        &mixed_report(DecisionText::Compared {
            baseline_p50: "1.00".to_string(),
            baseline_p99: "2.00".to_string(),
            mixed_p50: "1.50".to_string(),
            mixed_p99: "3.00".to_string(),
            delta_pct: "+50.0%".to_string(),
            delta_ms: "+1.00".to_string(),
        }),
        false,
    );
    let rows = rows(&text);
    assert_eq!(rows[3], row(&["commit / gpu", "abc123 / H100"]));
    assert_eq!(rows[4], row(&["bg (prompt,conc,out)", "(16,8,512)"]));
    assert_eq!(rows[5], row(&["injection (prompt,out)", "(4096,1)  warm_frac=0.5"]));
    assert_eq!(rows[6], row(&["qps / num_injections", "2 / 10"]));
    assert_eq!(rows[7], row(&["warmup / seed", "1 / 42"]));
    let labels: Vec<&str> = rows[9..].iter().map(|r| r[0].as_str()).collect();
    assert_eq!(labels, vec!["baseline_itl", "mixed_itl_all", "mixed_itl_steady"]);
    let (_, tail) = text.split_once("stall gaps: ").expect("the gap line");
    assert_eq!(
        tail,
        "2/10 (20.0%)\n\
         injected prefill (cold): p50=30.00ms  p99=40.00ms  max=41.00ms (n=5)\n\
         \n\
         ITL p50: baseline 1.00ms → mixed 1.50ms\n\
         ITL p99: baseline 2.00ms → mixed 3.00ms (+50.0%, +1.00ms)\n\
         warning: careful\n\
         warning: really\n"
    );
    let text = render_text(
        &mixed_report(DecisionText::MixedOnly {
            p50: "1.50".to_string(),
            p99: "3.00".to_string(),
        }),
        false,
    );
    assert!(text.contains("\nITL (mixed, no baseline): p50=1.50ms  p99=3.00ms\n"));
}

fn shape() -> SnapshotShape {
    SnapshotShape {
        prefill_prompt_len: 8192,
        prefill_output_len: 1,
        decode_prompt_len: 1024,
        decode_output_len: 256,
    }
}

fn pair(p50: &str, p99: &str) -> PairText {
    PairText { p50: p50.to_string(), p99: p99.to_string() }
}

#[test]
fn snapshots_are_shown_profile_by_profile() {
    let mut report = SnapshotReport {
        model: "Qwen3-4B".to_string(),
        gpu: "H100".to_string(),
        parallel: Some("tp1-dp8-deepep".to_string()),
        commit: "abc123".to_string(),
        shape: shape(),
        cold: true,
        ttft: pair("10.00", "11.00"),
        cached_ttft: Some(pair("1.00", "2.00")),
        tpot: Some(pair("3.00", "4.00")),
    };
    assert_eq!(
        render_snapshot_text(&report, "snaps/h100/qwen3-4b.json"),
        "bench_serving snapshot\n\n\
         model:  Qwen3-4B\n\
         gpu:    H100\n\
         shape:  tp1-dp8-deepep\n\
         commit: abc123\n\n\
         prefill_heavy (8192,1) [cold — distinct prompt/iter]:\n  TTFT  p50=10.00ms  p99=11.00ms\n\n\
         prefill_cached (8192,1) [warm — repeated prompt, prefix-cache hit]:\n  TTFT  p50=1.00ms  p99=2.00ms\n\n\
         decode_heavy (1024,256):\n  TPOT  p50=3.00ms  p99=4.00ms\n\n\
         written to snaps/h100/qwen3-4b.json\n"
    );
    report.parallel = None;
    report.cold = false;
    report.cached_ttft = None;
    report.tpot = None;
    assert_eq!(
        render_snapshot_text(&report, "p"),
        "bench_serving snapshot\n\n\
         model:  Qwen3-4B\n\
         gpu:    H100\n\
         commit: abc123\n\n\
         prefill_heavy (8192,1):\n  TTFT  p50=10.00ms  p99=11.00ms\n\n\
         decode_heavy (1024,256):\n\n\
         written to p\n"
    );
}

fn delta(current: &str, baseline: &str, delta: &str) -> DeltaText {
    DeltaText {
        current_ms: current.to_string(),
        baseline_ms: baseline.to_string(),
        delta: delta.to_string(),
    }
}

fn comparison(ttft_pct: f64, tpot_pct: Option<f64>) -> Comparison {
    Comparison {
        current_commit: "abc".to_string(),
        baseline_commit: "def".to_string(),
        ref_name: "HEAD".to_string(),
        shape: shape(),
        ttft_p50: delta("10.30", "10.00", "+3.0%"),
        ttft_p99: delta("11.00", "11.00", "+0.0%"),
        ttft_change: Change { signed_pct: format!("{ttft_pct:+.1}"), pct: ttft_pct.to_bits() },
        tpot: tpot_pct.map(|pct| TpotComparison {
            p50: delta("5.00", "4.00", "+25.0%"),
            p99: delta("6.00", "6.00", "+0.0%"),
            change: Change { signed_pct: format!("{pct:+.1}"), pct: pct.to_bits() },
        }),
    }
}

#[test]
fn comparisons_flag_regressions() {
    let calm = render_comparison(&comparison(3.0, Some(2.0)), false);
    assert!(calm.starts_with("bench_serving compare\n\ncomparing abc (working tree) vs def (HEAD)\n\n"));
    assert!(calm.ends_with("\n\nno regression detected (threshold: TPOT >2%, TTFT >3%)\n"));
    let shown = rows(&calm);
    assert_eq!(shown[0], row(&["metric", "current", "baseline", "delta"]));
    assert_eq!(shown[1], row(&["TTFT p50 (8192,1)", "10.30ms", "10.00ms", "+3.0%"]));
    assert_eq!(shown[2][0], "TTFT p99 (8192,1)");
    assert_eq!(shown[3], row(&["TPOT p50 (1024,256)", "5.00ms", "4.00ms", "+25.0%"]));
    assert_eq!(shown.len(), 5);
    let both = render_comparison(&comparison(3.1, Some(25.0)), false);
    assert!(both.ends_with(
        "\n\nREGRESSION DETECTED:\n  TTFT p50 +3.1% > 3% threshold\n  TPOT p50 +25.0% > 2% threshold\n"
    ));
    let none = render_comparison(&comparison(-4.0, None), false);
    assert_eq!(rows(&none).len(), 3);
    assert!(none.contains("no regression detected"));
    let late = render_comparison(&comparison(0.0, Some(2.5)), false);
    assert!(late.ends_with("\nREGRESSION DETECTED:\n  TPOT p50 +2.5% > 2% threshold\n"));
}

#[test]
fn only_like_profiles_compare() {
    assert!(check_shapes(shape(), shape()).is_ok());
    let mut other = shape();
    other.decode_output_len = 128;
    let error = check_shapes(shape(), other).unwrap_err();
    assert_eq!(
        error.message(),
        "profile shape mismatch: current (8192,1) + (1024,256) vs baseline (8192,1) + (1024,128)\n\
         the snapshot profiles were changed — re-baseline by committing a fresh snapshot"
    );
}
