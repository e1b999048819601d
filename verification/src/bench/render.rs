//! Whole reports as text.
use vstd::prelude::*;
use vstd::string::*;
use comfy_table::Table;
use crate::bench::report::{
    curve_header, curve_meta_rows, curve_rows, duration_header, matrix_header, matrix_meta_rows,
    matrix_rows, render_curve_meta, render_curve_table, render_duration_table, render_matrix_meta,
    render_matrix_table, render_request_meta, render_request_summary, render_run_summary,
    request_meta_rows, row_if, run_rows, size_text, stats_row, stats_rows, summary_header,
    summary_rows, text_row, CurveReport, MatrixReport, RequestReport, RunInfo, StatsText,
};
use crate::bench::table::{
    add_cells, add_text, drawn, header_of, new_table, push_table, set_labels, shows, table_header,
    table_plain, table_preset, table_rounded, table_rows, views,
};
use crate::float_bits::{wide_above, wide_above_bits};
use crate::text::{decimal, push_decimal, push_size};

verus! {

/// What the injected prompts of one kind took, in milliseconds.
pub struct PrefillText {
    pub p50: String,
    pub p99: String,
    pub max: String,
    pub samples: usize,
}

/// What a reader of a mixed-load report decides from, in milliseconds.
pub enum DecisionText {
    Compared {
        baseline_p50: String,
        baseline_p99: String,
        mixed_p50: String,
        mixed_p99: String,
        delta_pct: String,
        delta_ms: String,
    },
    MixedOnly { p50: String, p99: String },
}

pub struct MixedLoadReport {
    pub run: RunInfo,
    pub commit: String,
    pub gpu: String,
    pub bg_prompt_len: usize,
    pub bg_concurrency: usize,
    pub bg_output_len: usize,
    pub inj_prompt_len: usize,
    pub inj_output_len: usize,
    pub inj_warm_frac: String,
    pub qps: String,
    pub num_injections: usize,
    pub warmup: usize,
    pub seed: u64,
    pub baseline_itl: Option<StatsText>,
    pub mixed_all: StatsText,
    pub mixed_steady: Option<StatsText>,
    pub mixed_stall: Option<StatsText>,
    pub stall_gap_count: usize,
    pub total_gap_count: usize,
    pub stall_pct: String,
    pub cold: Option<PrefillText>,
    pub warm: Option<PrefillText>,
    pub decision: DecisionText,
    pub warnings: Vec<String>,
}

pub enum BenchReport {
    Request(RequestReport),
    Matrix(MatrixReport),
    Curve(CurveReport),
    Mixed(MixedLoadReport),
}

pub open spec fn mixed_meta_rows(report: MixedLoadReport) -> Seq<Seq<(Seq<char>, bool)>> {
    run_rows(report.run) + seq![
        text_row("commit / gpu"@, report.commit@ + " / "@ + report.gpu@),
        text_row(
            "bg (prompt,conc,out)"@,
            "("@ + decimal(report.bg_prompt_len as nat) + ","@ + decimal(
                report.bg_concurrency as nat,
            ) + ","@ + decimal(report.bg_output_len as nat) + ")"@,
        ),
        text_row(
            "injection (prompt,out)"@,
            "("@ + decimal(report.inj_prompt_len as nat) + ","@ + decimal(
                report.inj_output_len as nat,
            ) + ")  warm_frac="@ + report.inj_warm_frac@,
        ),
        text_row(
            "qps / num_injections"@,
            report.qps@ + " / "@ + decimal(report.num_injections as nat),
        ),
        text_row(
            "warmup / seed"@,
            decimal(report.warmup as nat) + " / "@ + decimal(report.seed as nat),
        ),
    ]
}

fn render_mixed_meta(report: &MixedLoadReport, terminal: bool) -> (table: Table)
    ensures
        shows(table, terminal, None, mixed_meta_rows(*report)),
{
    let mut table = render_run_summary(&report.run, terminal);
    let mut build = String::from_str(report.commit.as_str());
    build.append(" / ");
    build.append(report.gpu.as_str());
    add_text(&mut table, "commit / gpu", build);
    let mut background = String::from_str("(");
    push_size(&mut background, report.bg_prompt_len);
    background.append(",");
    push_size(&mut background, report.bg_concurrency);
    background.append(",");
    push_size(&mut background, report.bg_output_len);
    background.append(")");
    add_text(&mut table, "bg (prompt,conc,out)", background);
    let mut injection = String::from_str("(");
    push_size(&mut injection, report.inj_prompt_len);
    injection.append(",");
    push_size(&mut injection, report.inj_output_len);
    injection.append(")  warm_frac=");
    injection.append(report.inj_warm_frac.as_str());
    add_text(&mut table, "injection (prompt,out)", injection);
    let mut pace = String::from_str(report.qps.as_str());
    pace.append(" / ");
    push_size(&mut pace, report.num_injections);
    add_text(&mut table, "qps / num_injections", pace);
    let mut repeats = size_text(report.warmup);
    repeats.append(" / ");
    push_decimal(&mut repeats, report.seed);
    add_text(&mut table, "warmup / seed", repeats);
    assert(table_rows(table) =~= mixed_meta_rows(*report));
    table
}

/// A summary under its label, where there is one.
pub open spec fn stats_if(label: Seq<char>, stats: Option<StatsText>) -> Seq<
    Seq<(Seq<char>, bool)>,
> {
    row_if(stats is Some, stats_row(label, stats->Some_0))
}

pub open spec fn mixed_rows(report: MixedLoadReport) -> Seq<Seq<(Seq<char>, bool)>> {
    stats_if("baseline_itl"@, report.baseline_itl) + seq![
        stats_row("mixed_itl_all"@, report.mixed_all),
    ] + stats_if("mixed_itl_steady"@, report.mixed_steady) + stats_if(
        "mixed_itl_stall"@,
        report.mixed_stall,
    )
}

fn render_mixed_table(report: &MixedLoadReport, terminal: bool) -> (table: Table)
    ensures
        shows(table, terminal, Some(duration_header()), mixed_rows(*report)),
{
    let mut rows: Vec<(&str, &StatsText)> = Vec::new();
    match &report.baseline_itl {
        Some(stats) => {
            rows.push(("baseline_itl", stats));
        },
        None => {},
    }
    rows.push(("mixed_itl_all", &report.mixed_all));
    match &report.mixed_steady {
        Some(stats) => {
            rows.push(("mixed_itl_steady", stats));
        },
        None => {},
    }
    match &report.mixed_stall {
        Some(stats) => {
            rows.push(("mixed_itl_stall", stats));
        },
        None => {},
    }
    assert(stats_rows(rows@) =~= mixed_rows(*report));
    render_duration_table(&rows, terminal)
}

pub open spec fn prefill_line(label: Seq<char>, prefill: Option<PrefillText>) -> Seq<char> {
    match prefill {
        Some(p) => label + ": p50="@ + p.p50@ + "ms  p99="@ + p.p99@ + "ms  max="@ + p.max@
            + "ms (n="@ + decimal(p.samples as nat) + ")\n"@,
        None => Seq::empty(),
    }
}

fn push_prefill(out: &mut String, label: &str, prefill: &Option<PrefillText>)
    ensures
        final(out)@ == old(out)@ + prefill_line(label@, *prefill),
{
    match prefill {
        Some(p) => {
            out.append(label);
            out.append(": p50=");
            out.append(p.p50.as_str());
            out.append("ms  p99=");
            out.append(p.p99.as_str());
            out.append("ms  max=");
            out.append(p.max.as_str());
            out.append("ms (n=");
            push_size(out, p.samples);
            out.append(")\n");
        },
        None => {},
    }
    assert(out@ =~= old(out)@ + prefill_line(label@, *prefill));
}

pub open spec fn decision_lines(decision: DecisionText) -> Seq<char> {
    match decision {
        DecisionText::Compared {
            baseline_p50,
            baseline_p99,
            mixed_p50,
            mixed_p99,
            delta_pct,
            delta_ms,
        } => "\nITL p50: baseline "@ + baseline_p50@ + "ms → mixed "@ + mixed_p50@
            + "ms\nITL p99: baseline "@ + baseline_p99@ + "ms → mixed "@ + mixed_p99@ + "ms ("@
            + delta_pct@ + ", "@ + delta_ms@ + "ms)\n"@,
        DecisionText::MixedOnly { p50, p99 } => "\nITL (mixed, no baseline): p50="@ + p50@
            + "ms  p99="@ + p99@ + "ms\n"@,
    }
}

fn push_decision(out: &mut String, decision: &DecisionText)
    ensures
        final(out)@ == old(out)@ + decision_lines(*decision),
{
    match decision {
        DecisionText::Compared {
            baseline_p50,
            baseline_p99,
            mixed_p50,
            mixed_p99,
            delta_pct,
            delta_ms,
        } => {
            out.append("\nITL p50: baseline ");
            out.append(baseline_p50.as_str());
            out.append("ms → mixed ");
            out.append(mixed_p50.as_str());
            out.append("ms\nITL p99: baseline ");
            out.append(baseline_p99.as_str());
            out.append("ms → mixed ");
            out.append(mixed_p99.as_str());
            out.append("ms (");
            out.append(delta_pct.as_str());
            out.append(", ");
            out.append(delta_ms.as_str());
            out.append("ms)\n");
        },
        DecisionText::MixedOnly { p50, p99 } => {
            out.append("\nITL (mixed, no baseline): p50=");
            out.append(p50.as_str());
            out.append("ms  p99=");
            out.append(p99.as_str());
            out.append("ms\n");
        },
    }
    assert(out@ =~= old(out)@ + decision_lines(*decision));
}

/// A line for each warning.
pub open spec fn warning_lines(warnings: Seq<String>) -> Seq<char>
    decreases warnings.len(),
{
    if warnings.len() == 0 {
        Seq::empty()
    } else {
        warning_lines(warnings.drop_last()) + "warning: "@ + warnings.last()@ + "\n"@
    }
}

fn push_warnings(out: &mut String, warnings: &Vec<String>)
    ensures
        final(out)@ == old(out)@ + warning_lines(warnings@),
{
    let ghost all = warnings@;
    let ghost before = out@;
    let mut i: usize = 0;
    assert(out@ =~= before + warning_lines(all.take(0)));
    while i < warnings.len()
        invariant
            all == warnings@,
            i <= all.len(),
            out@ == before + warning_lines(all.take(i as int)),
        decreases all.len() - i,
    {
        assert(all.take(i as int + 1).drop_last() =~= all.take(i as int));
        out.append("warning: ");
        out.append(warnings[i].as_str());
        out.append("\n");
        assert(out@ =~= before + warning_lines(all.take(i as int + 1)));
        i = i + 1;
    }
    assert(all.take(i as int) =~= all);
}

pub open spec fn mixed_text(report: MixedLoadReport, terminal: bool) -> Seq<char> {
    "bench_serving mixed-load ITL\n\n"@ + drawn(terminal, None, mixed_meta_rows(report)) + "\n"@
        + "\n"@ + drawn(terminal, Some(duration_header()), mixed_rows(report)) + "\n"@ + "\n"@
        + "stall gaps: "@ + decimal(report.stall_gap_count as nat) + "/"@ + decimal(
        report.total_gap_count as nat,
    ) + " ("@ + report.stall_pct@ + "%)\n"@ + prefill_line(
        "injected prefill (cold)"@,
        report.cold,
    ) + prefill_line("injected prefill (warm)"@, report.warm) + decision_lines(report.decision)
        + warning_lines(report.warnings@)
}

pub fn render_mixed_text(report: &MixedLoadReport, terminal: bool) -> (out: String)
    ensures
        out@ == mixed_text(*report, terminal),
{
    let mut out = String::from_str("bench_serving mixed-load ITL\n\n");
    push_table(&mut out, &render_mixed_meta(report, terminal));
    out.append("\n");
    push_table(&mut out, &render_mixed_table(report, terminal));
    out.append("\n");
    out.append("stall gaps: ");
    push_size(&mut out, report.stall_gap_count);
    out.append("/");
    push_size(&mut out, report.total_gap_count);
    out.append(" (");
    out.append(report.stall_pct.as_str());
    out.append("%)\n");
    push_prefill(&mut out, "injected prefill (cold)", &report.cold);
    push_prefill(&mut out, "injected prefill (warm)", &report.warm);
    push_decision(&mut out, &report.decision);
    push_warnings(&mut out, &report.warnings);
    out
}

pub open spec fn request_stats_rows(report: RequestReport) -> Seq<Seq<(Seq<char>, bool)>> {
    seq![stats_row("ttft_ms"@, report.ttft)] + stats_if(
        "first_decode_step_ms"@,
        report.first_decode_step,
    ) + stats_if("steady_tpot_ms"@, report.steady_tpot) + seq![stats_row("e2e_ms"@, report.e2e)]
}

fn render_request_stats(report: &RequestReport, terminal: bool) -> (table: Table)
    ensures
        shows(table, terminal, Some(duration_header()), request_stats_rows(*report)),
{
    let mut rows: Vec<(&str, &StatsText)> = Vec::new();
    rows.push(("ttft_ms", &report.ttft));
    match &report.first_decode_step {
        Some(stats) => {
            rows.push(("first_decode_step_ms", stats));
        },
        None => {},
    }
    match &report.steady_tpot {
        Some(stats) => {
            rows.push(("steady_tpot_ms", stats));
        },
        None => {},
    }
    rows.push(("e2e_ms", &report.e2e));
    assert(stats_rows(rows@) =~= request_stats_rows(*report));
    render_duration_table(&rows, terminal)
}

pub open spec fn report_text(report: BenchReport, terminal: bool) -> Seq<char> {
    match report {
        BenchReport::Request(r) => "bench_serving request\n\n"@ + drawn(
            terminal,
            None,
            request_meta_rows(r),
        ) + "\n"@ + "\n"@ + drawn(terminal, Some(duration_header()), request_stats_rows(r)) + "\n"@
            + "\n"@ + drawn(terminal, Some(summary_header()), summary_rows(r)) + "\n"@,
        BenchReport::Matrix(r) => "bench_serving matrix\n\n"@ + drawn(
            terminal,
            None,
            matrix_meta_rows(r),
        ) + "\n"@ + "\n"@ + drawn(terminal, Some(matrix_header()), matrix_rows(r.cells@)) + "\n"@,
        BenchReport::Curve(r) => "bench_serving curve\n\n"@ + drawn(
            terminal,
            None,
            curve_meta_rows(r),
        ) + "\n"@ + "\n"@ + drawn(terminal, Some(curve_header()), curve_rows(r.windows@)) + "\n"@,
        BenchReport::Mixed(r) => mixed_text(r, terminal),
    }
}

/// A report, laid out for a terminal or for anything else.
pub fn render_text(report: &BenchReport, terminal: bool) -> (out: String)
    ensures
        out@ == report_text(*report, terminal),
{
    match report {
        BenchReport::Request(r) => {
            let mut out = String::from_str("bench_serving request\n\n");
            push_table(&mut out, &render_request_meta(r, terminal));
            out.append("\n");
            push_table(&mut out, &render_request_stats(r, terminal));
            out.append("\n");
            push_table(&mut out, &render_request_summary(r, terminal));
            out
        },
        BenchReport::Matrix(r) => {
            let mut out = String::from_str("bench_serving matrix\n\n");
            push_table(&mut out, &render_matrix_meta(r, terminal));
            out.append("\n");
            push_table(&mut out, &render_matrix_table(r, terminal));
            out
        },
        BenchReport::Curve(r) => {
            let mut out = String::from_str("bench_serving curve\n\n");
            push_table(&mut out, &render_curve_meta(r, terminal));
            out.append("\n");
            push_table(&mut out, &render_curve_table(r, terminal));
            out
        },
        BenchReport::Mixed(r) => render_mixed_text(r, terminal),
    }
}

/// Two percentiles, in milliseconds.
pub struct PairText {
    pub p50: String,
    pub p99: String,
}

/// The prompt and output lengths of a snapshot's two profiles.
#[derive(Clone, Copy, Debug, PartialEq, Eq, Structural)]
pub struct SnapshotShape {
    pub prefill_prompt_len: usize,
    pub prefill_output_len: usize,
    pub decode_prompt_len: usize,
    pub decode_output_len: usize,
}

pub struct SnapshotReport {
    pub model: String,
    pub gpu: String,
    pub parallel: Option<String>,
    pub commit: String,
    pub shape: SnapshotShape,
    /// Every iteration of the prefill profile had a prompt of its own.
    pub cold: bool,
    pub ttft: PairText,
    /// The same profile with a repeated prompt.
    pub cached_ttft: Option<PairText>,
    pub tpot: Option<PairText>,
}

pub open spec fn lens_shown(prompt_len: usize, output_len: usize) -> Seq<char> {
    "("@ + decimal(prompt_len as nat) + ","@ + decimal(output_len as nat) + ")"@
}

fn push_lens(out: &mut String, prompt_len: usize, output_len: usize)
    ensures
        final(out)@ == old(out)@ + lens_shown(prompt_len, output_len),
{
    out.append("(");
    push_size(out, prompt_len);
    out.append(",");
    push_size(out, output_len);
    out.append(")");
    assert(out@ =~= old(out)@ + lens_shown(prompt_len, output_len));
}

pub open spec fn pair_shown(label: Seq<char>, pair: PairText) -> Seq<char> {
    label + "p50="@ + pair.p50@ + "ms  p99="@ + pair.p99@ + "ms\n"@
}

fn push_pair(out: &mut String, label: &str, pair: &PairText)
    ensures
        final(out)@ == old(out)@ + pair_shown(label@, *pair),
{
    out.append(label);
    out.append("p50=");
    out.append(pair.p50.as_str());
    out.append("ms  p99=");
    out.append(pair.p99.as_str());
    out.append("ms\n");
    assert(out@ =~= old(out)@ + pair_shown(label@, *pair));
}

/// The parallel layout, where there is one to speak of.
pub open spec fn layout_line(parallel: Option<String>) -> Seq<char> {
    match parallel {
        Some(layout) => "shape:  "@ + layout@ + "\n"@,
        None => Seq::empty(),
    }
}

fn push_layout(out: &mut String, parallel: &Option<String>)
    ensures
        final(out)@ == old(out)@ + layout_line(*parallel),
{
    match parallel {
        Some(layout) => {
            out.append("shape:  ");
            out.append(layout.as_str());
            out.append("\n");
        },
        None => {},
    }
    assert(out@ =~= old(out)@ + layout_line(*parallel));
}

/// How the prefill profile did.
pub open spec fn prefill_lines(report: SnapshotReport) -> Seq<char> {
    let lens = lens_shown(report.shape.prefill_prompt_len, report.shape.prefill_output_len);
    "prefill_heavy "@ + lens + (if report.cold {
        " [cold — distinct prompt/iter]:\n"@
    } else {
        ":\n"@
    }) + pair_shown("  TTFT  "@, report.ttft) + (match report.cached_ttft {
        Some(pair) => "\nprefill_cached "@ + lens
            + " [warm — repeated prompt, prefix-cache hit]:\n"@ + pair_shown("  TTFT  "@, pair),
        None => Seq::empty(),
    })
}

fn push_prefill_lines(out: &mut String, report: &SnapshotReport)
    ensures
        final(out)@ == old(out)@ + prefill_lines(*report),
{
    out.append("prefill_heavy ");
    push_lens(out, report.shape.prefill_prompt_len, report.shape.prefill_output_len);
    if report.cold {
        out.append(" [cold — distinct prompt/iter]:\n");
    } else {
        out.append(":\n");
    }
    push_pair(out, "  TTFT  ", &report.ttft);
    match &report.cached_ttft {
        Some(pair) => {
            out.append("\nprefill_cached ");
            push_lens(out, report.shape.prefill_prompt_len, report.shape.prefill_output_len);
            out.append(" [warm — repeated prompt, prefix-cache hit]:\n");
            push_pair(out, "  TTFT  ", pair);
        },
        None => {},
    }
    assert(out@ =~= old(out)@ + prefill_lines(*report));
}

/// How the decode profile did.
pub open spec fn decode_lines(report: SnapshotReport) -> Seq<char> {
    "decode_heavy "@ + lens_shown(report.shape.decode_prompt_len, report.shape.decode_output_len)
        + ":\n"@ + (match report.tpot {
        Some(pair) => pair_shown("  TPOT  "@, pair),
        None => Seq::empty(),
    })
}

fn push_decode_lines(out: &mut String, report: &SnapshotReport)
    ensures
        final(out)@ == old(out)@ + decode_lines(*report),
{
    out.append("decode_heavy ");
    push_lens(out, report.shape.decode_prompt_len, report.shape.decode_output_len);
    out.append(":\n");
    match &report.tpot {
        Some(pair) => {
            push_pair(out, "  TPOT  ", pair);
        },
        None => {},
    }
    assert(out@ =~= old(out)@ + decode_lines(*report));
}

pub open spec fn snapshot_text(report: SnapshotReport, path: Seq<char>) -> Seq<char> {
    "bench_serving snapshot\n\nmodel:  "@ + report.model@ + "\ngpu:    "@ + report.gpu@ + "\n"@
        + layout_line(report.parallel) + "commit: "@ + report.commit@ + "\n\n"@ + prefill_lines(
        report,
    ) + "\n"@ + decode_lines(report) + "\nwritten to "@ + path + "\n"@
}

pub fn render_snapshot_text(report: &SnapshotReport, path: &str) -> (out: String)
    ensures
        out@ == snapshot_text(*report, path@),
{
    let mut out = String::from_str("bench_serving snapshot\n\nmodel:  ");
    out.append(report.model.as_str());
    out.append("\ngpu:    ");
    out.append(report.gpu.as_str());
    out.append("\n");
    push_layout(&mut out, &report.parallel);
    out.append("commit: ");
    out.append(report.commit.as_str());
    out.append("\n\n");
    push_prefill_lines(&mut out, report);
    out.append("\n");
    push_decode_lines(&mut out, report);
    out.append("\nwritten to ");
    out.append(path);
    out.append("\n");
    out
}

/// Two snapshots measured different profiles.
#[derive(Clone, Copy, Debug, PartialEq, Eq, Structural)]
pub struct ShapeMismatch {
    pub current: SnapshotShape,
    pub baseline: SnapshotShape,
}

pub open spec fn shape_shown(shape: SnapshotShape) -> Seq<char> {
    lens_shown(shape.prefill_prompt_len, shape.prefill_output_len) + " + "@ + lens_shown(
        shape.decode_prompt_len,
        shape.decode_output_len,
    )
}

fn push_shape(out: &mut String, shape: &SnapshotShape)
    ensures
        final(out)@ == old(out)@ + shape_shown(*shape),
{
    push_lens(out, shape.prefill_prompt_len, shape.prefill_output_len);
    out.append(" + ");
    push_lens(out, shape.decode_prompt_len, shape.decode_output_len);
    assert(out@ =~= old(out)@ + shape_shown(*shape));
}

impl ShapeMismatch {
    pub open spec fn text(self) -> Seq<char> {
        "profile shape mismatch: current "@ + shape_shown(self.current) + " vs baseline "@
            + shape_shown(self.baseline)
            + "\nthe snapshot profiles were changed — re-baseline by committing a fresh snapshot"@
    }

    pub fn message(&self) -> (s: String)
        ensures
            s@ == self.text(),
    {
        let mut s = String::from_str("profile shape mismatch: current ");
        push_shape(&mut s, &self.current);
        s.append(" vs baseline ");
        push_shape(&mut s, &self.baseline);
        s.append(
            "\nthe snapshot profiles were changed — re-baseline by committing a fresh snapshot",
        );
        s
    }
}

/// Only snapshots of the same profiles compare.
pub fn check_shapes(current: SnapshotShape, baseline: SnapshotShape) -> (r: Result<
    (),
    ShapeMismatch,
>)
    ensures
        r == (if current == baseline {
            Ok::<(), ShapeMismatch>(())
        } else {
            Err::<(), ShapeMismatch>(ShapeMismatch { current, baseline })
        }),
{
    if current == baseline {
        Ok(())
    } else {
        Err(ShapeMismatch { current, baseline })
    }
}

/// A figure of two snapshots, and how it changed.
pub struct DeltaText {
    pub current_ms: String,
    pub baseline_ms: String,
    pub delta: String,
}

/// How the middle of a figure changed, in percent: as a text, and as the bit
/// pattern of a double.
pub struct Change {
    pub signed_pct: String,
    pub pct: u64,
}

pub struct Comparison {
    pub current_commit: String,
    pub baseline_commit: String,
    pub ref_name: String,
    pub shape: SnapshotShape,
    pub ttft_p50: DeltaText,
    pub ttft_p99: DeltaText,
    pub ttft_change: Change,
    pub tpot: Option<TpotComparison>,
}

/// Only where both snapshots have decode steps.
pub struct TpotComparison {
    pub p50: DeltaText,
    pub p99: DeltaText,
    pub change: Change,
}

/// Two percent, as the pattern of a double.
pub const REGRESSION_TPOT_PCT: u64 = 0x4000_0000_0000_0000;

/// Three percent, as the pattern of a double.
pub const REGRESSION_TTFT_PCT: u64 = 0x4008_0000_0000_0000;

pub open spec fn delta_row(
    label: Seq<char>,
    prompt_len: usize,
    output_len: usize,
    delta: DeltaText,
) -> Seq<(Seq<char>, bool)> {
    header_of(
        seq![
            label + lens_shown(prompt_len, output_len),
            delta.current_ms@ + "ms"@,
            delta.baseline_ms@ + "ms"@,
            delta.delta@,
        ],
        true,
    )
}

fn add_delta(
    table: &mut Table,
    label: &str,
    prompt_len: usize,
    output_len: usize,
    delta: &DeltaText,
)
    ensures
        table_plain(*old(table)) ==> table_plain(*final(table)),
        table_preset(*final(table)) == table_preset(*old(table)),
        table_rounded(*final(table)) == table_rounded(*old(table)),
        table_header(*final(table)) == table_header(*old(table)),
        table_rows(*final(table)) == table_rows(*old(table)).push(
            delta_row(label@, prompt_len, output_len, *delta),
        ),
{
    let mut name = String::from_str(label);
    push_lens(&mut name, prompt_len, output_len);
    let mut current = String::from_str(delta.current_ms.as_str());
    current.append("ms");
    let mut baseline = String::from_str(delta.baseline_ms.as_str());
    baseline.append("ms");
    let texts = vec![name, current, baseline, String::from_str(delta.delta.as_str())];
    assert(texts@.map_values(|t: String| t@) =~= seq![
        label@ + lens_shown(prompt_len, output_len),
        delta.current_ms@ + "ms"@,
        delta.baseline_ms@ + "ms"@,
        delta.delta@,
    ]);
    add_cells(table, texts, true);
}

pub open spec fn comparison_header() -> Seq<(Seq<char>, bool)> {
    header_of(seq!["metric"@, "current"@, "baseline"@, "delta"@], true)
}

pub open spec fn comparison_rows(c: Comparison) -> Seq<Seq<(Seq<char>, bool)>> {
    seq![
        delta_row(
            "TTFT p50 "@,
            c.shape.prefill_prompt_len,
            c.shape.prefill_output_len,
            c.ttft_p50,
        ),
        delta_row(
            "TTFT p99 "@,
            c.shape.prefill_prompt_len,
            c.shape.prefill_output_len,
            c.ttft_p99,
        ),
    ] + (match c.tpot {
        Some(tpot) => seq![
            delta_row(
                "TPOT p50 "@,
                c.shape.decode_prompt_len,
                c.shape.decode_output_len,
                tpot.p50,
            ),
            delta_row(
                "TPOT p99 "@,
                c.shape.decode_prompt_len,
                c.shape.decode_output_len,
                tpot.p99,
            ),
        ],
        None => Seq::empty(),
    })
}

fn render_comparison_table(c: &Comparison, terminal: bool) -> (table: Table)
    ensures
        shows(table, terminal, Some(comparison_header()), comparison_rows(*c)),
{
    let mut table = new_table(terminal);
    let labels: [&str; 4] = ["metric", "current", "baseline", "delta"];
    set_labels(&mut table, labels.as_slice(), true);
    assert(views(labels@) =~= seq!["metric"@, "current"@, "baseline"@, "delta"@]);
    add_delta(
        &mut table,
        "TTFT p50 ",
        c.shape.prefill_prompt_len,
        c.shape.prefill_output_len,
        &c.ttft_p50,
    );
    add_delta(
        &mut table,
        "TTFT p99 ",
        c.shape.prefill_prompt_len,
        c.shape.prefill_output_len,
        &c.ttft_p99,
    );
    match &c.tpot {
        Some(tpot) => {
            add_delta(
                &mut table,
                "TPOT p50 ",
                c.shape.decode_prompt_len,
                c.shape.decode_output_len,
                &tpot.p50,
            );
            add_delta(
                &mut table,
                "TPOT p99 ",
                c.shape.decode_prompt_len,
                c.shape.decode_output_len,
                &tpot.p99,
            );
        },
        None => {},
    }
    assert(table_rows(table) =~= comparison_rows(*c));
    table
}

/// The first tokens come later than the threshold allows.
pub open spec fn ttft_regressed(c: Comparison) -> bool {
    wide_above(c.ttft_change.pct, REGRESSION_TTFT_PCT)
}

/// The decode steps take longer than the threshold allows.
pub open spec fn tpot_regressed(c: Comparison) -> bool {
    c.tpot is Some && wide_above(c.tpot->Some_0.change.pct, REGRESSION_TPOT_PCT)
}

pub open spec fn verdict_text(c: Comparison) -> Seq<char> {
    if !ttft_regressed(c) && !tpot_regressed(c) {
        "no regression detected (threshold: TPOT >2%, TTFT >3%)\n"@
    } else {
        "REGRESSION DETECTED:\n"@ + (if ttft_regressed(c) {
            "  TTFT p50 "@ + c.ttft_change.signed_pct@ + "% > 3% threshold\n"@
        } else {
            Seq::empty()
        }) + (if tpot_regressed(c) {
            "  TPOT p50 "@ + c.tpot->Some_0.change.signed_pct@ + "% > 2% threshold\n"@
        } else {
            Seq::empty()
        })
    }
}

pub open spec fn comparison_text(c: Comparison, terminal: bool) -> Seq<char> {
    "bench_serving compare\n\ncomparing "@ + c.current_commit@ + " (working tree) vs "@
        + c.baseline_commit@ + " ("@ + c.ref_name@ + ")\n\n"@ + drawn(
        terminal,
        Some(comparison_header()),
        comparison_rows(c),
    ) + "\n"@ + "\n"@ + verdict_text(c)
}

pub fn render_comparison(c: &Comparison, terminal: bool) -> (out: String)
    ensures
        out@ == comparison_text(*c, terminal),
{
    let mut out = String::from_str("bench_serving compare\n\ncomparing ");
    out.append(c.current_commit.as_str());
    out.append(" (working tree) vs ");
    out.append(c.baseline_commit.as_str());
    out.append(" (");
    out.append(c.ref_name.as_str());
    out.append(")\n\n");
    push_table(&mut out, &render_comparison_table(c, terminal));
    out.append("\n");
    let ghost before = out@;
    let ttft: bool = wide_above_bits(c.ttft_change.pct, REGRESSION_TTFT_PCT);
    let tpot: bool = match &c.tpot {
        Some(tpot) => wide_above_bits(tpot.change.pct, REGRESSION_TPOT_PCT),
        None => false,
    };
    if !ttft && !tpot {
        out.append("no regression detected (threshold: TPOT >2%, TTFT >3%)\n");
    } else {
        out.append("REGRESSION DETECTED:\n");
        if ttft {
            out.append("  TTFT p50 ");
            out.append(c.ttft_change.signed_pct.as_str());
            out.append("% > 3% threshold\n");
        }
        match &c.tpot {
            Some(figures) => {
                if tpot {
                    out.append("  TPOT p50 ");
                    out.append(figures.change.signed_pct.as_str());
                    out.append("% > 2% threshold\n");
                }
            },
            None => {},
        }
    }
    assert(out@ =~= before + verdict_text(*c));
    out
}

/// Warnings are written one after the other, a line each.
pub proof fn lemma_warnings_take_a_line_each(a: Seq<String>, b: Seq<String>, warning: String)
    ensures
        warning_lines(a + b) == warning_lines(a) + warning_lines(b),
        warning_lines(seq![warning]) == "warning: "@ + warning@ + "\n"@,
        warning_lines(Seq::<String>::empty()).len() == 0,
    decreases b.len(),
{
    reveal_with_fuel(warning_lines, 2);
    assert(seq![warning].drop_last() =~= Seq::<String>::empty());
    assert(warning_lines(seq![warning]) =~= "warning: "@ + warning@ + "\n"@);
    if b.len() == 0 {
        assert(a + b =~= a);
        assert(warning_lines(a) + warning_lines(b) =~= warning_lines(a));
    } else {
        lemma_warnings_take_a_line_each(a, b.drop_last(), warning);
        assert((a + b).drop_last() =~= a + b.drop_last());
        assert(warning_lines(a + b) =~= warning_lines(a) + warning_lines(b));
    }
}

/// A comparison finds a regression exactly when the first tokens come more than three
/// percent later or the decode steps take more than two percent longer, in the patterns of
/// doubles; a change that is no number is none, and no steps are no regression.
pub proof fn lemma_regression_verdict(c: Comparison)
    ensures
        ({
            let pct = c.ttft_change.pct;
            ttft_regressed(c) <==> 0x4008_0000_0000_0000 < pct <= 0x7ff0_0000_0000_0000
        }),
        tpot_regressed(c) <==> (c.tpot matches Some(tpot) && 0x4000_0000_0000_0000 < tpot.change.pct
            <= 0x7ff0_0000_0000_0000),
        verdict_text(c) == "no regression detected (threshold: TPOT >2%, TTFT >3%)\n"@ <==> !(
        ttft_regressed(c) || tpot_regressed(c)),
        ttft_regressed(c) || tpot_regressed(c) ==> "REGRESSION DETECTED:\n"@.is_prefix_of(
            verdict_text(c),
        ),
{
    reveal_strlit("no regression detected (threshold: TPOT >2%, TTFT >3%)\n");
    reveal_strlit("REGRESSION DETECTED:\n");
    let found = "REGRESSION DETECTED:\n"@;
    if ttft_regressed(c) || tpot_regressed(c) {
        let text = verdict_text(c);
        assert(text.take(found.len() as int) =~= found);
        assert(text[0] == found[0]);
        assert(found[0] == 'R');
        assert("no regression detected (threshold: TPOT >2%, TTFT >3%)\n"@[0] == 'n');
    }
}

/// Snapshots compare exactly when they measured the same lengths, all four of them.
pub proof fn lemma_shapes_verdict(
    current: SnapshotShape,
    baseline: SnapshotShape,
    r: Result<(), ShapeMismatch>,
)
    requires
        call_ensures(check_shapes, (current, baseline), r),
    ensures
        r is Ok <==> {
            &&& current.prefill_prompt_len == baseline.prefill_prompt_len
            &&& current.prefill_output_len == baseline.prefill_output_len
            &&& current.decode_prompt_len == baseline.decode_prompt_len
            &&& current.decode_output_len == baseline.decode_output_len
        },
        r matches Err(error) ==> error.current == current && error.baseline == baseline,
{
}

/// The rows of a report on requests: the first token, the first and the steady decode
/// steps where there were any, and the whole, in this order.
pub proof fn lemma_request_rows_are_complete(report: RequestReport)
    ensures
        ({
            let rows = request_stats_rows(report);
            &&& rows[0] == stats_row("ttft_ms"@, report.ttft)
            &&& rows.last() == stats_row("e2e_ms"@, report.e2e)
            &&& report.first_decode_step matches Some(stats) ==> rows[1] == stats_row(
                "first_decode_step_ms"@,
                stats,
            )
            &&& report.steady_tpot matches Some(stats) ==> rows[rows.len() - 2] == stats_row(
                "steady_tpot_ms"@,
                stats,
            )
            &&& rows.len() == 2 + (if report.first_decode_step is Some {
                1int
            } else {
                0int
            }) + (if report.steady_tpot is Some {
                1int
            } else {
                0int
            })
        }),
{
}

/// The rows of a report on a mixed load: the control where it ran, all gaps, and the
/// steady and the stalled ones where there were any, in this order.
pub proof fn lemma_mixed_rows_are_complete(report: MixedLoadReport)
    ensures
        ({
            let rows = mixed_rows(report);
            let all = if report.baseline_itl is Some {
                1int
            } else {
                0int
            };
            &&& report.baseline_itl matches Some(stats) ==> rows[0] == stats_row(
                "baseline_itl"@,
                stats,
            )
            &&& rows[all] == stats_row("mixed_itl_all"@, report.mixed_all)
            &&& report.mixed_steady matches Some(stats) ==> rows[all + 1] == stats_row(
                "mixed_itl_steady"@,
                stats,
            )
            &&& report.mixed_stall matches Some(stats) ==> rows.last() == stats_row(
                "mixed_itl_stall"@,
                stats,
            )
            &&& rows.len() == all + 1 + (if report.mixed_steady is Some {
                1int
            } else {
                0int
            }) + (if report.mixed_stall is Some {
                1int
            } else {
                0int
            })
        }),
{
}

/// The rows of a comparison: both percentiles of the first token under the prefill
/// lengths, and of the decode steps, where both snapshots have them, under the decode ones.
pub proof fn lemma_comparison_rows_are_complete(c: Comparison)
    ensures
        ({
            let rows = comparison_rows(c);
            let s = c.shape;
            &&& rows[0] == delta_row(
                "TTFT p50 "@,
                s.prefill_prompt_len,
                s.prefill_output_len,
                c.ttft_p50,
            )
            &&& rows[1] == delta_row(
                "TTFT p99 "@,
                s.prefill_prompt_len,
                s.prefill_output_len,
                c.ttft_p99,
            )
            &&& rows.len() == (if c.tpot is Some {
                4int
            } else {
                2int
            })
            &&& c.tpot matches Some(tpot) ==> {
                &&& rows[2] == delta_row(
                    "TPOT p50 "@,
                    s.decode_prompt_len,
                    s.decode_output_len,
                    tpot.p50,
                )
                &&& rows[3] == delta_row(
                    "TPOT p99 "@,
                    s.decode_prompt_len,
                    s.decode_output_len,
                    tpot.p99,
                )
            }
            &&& forall|i: int|
                0 <= i < rows.len() ==> (#[trigger] rows[i]).len() == comparison_header().len()
        }),
{
}

/// The figures of a comparison are aligned as their header is.
pub proof fn lemma_comparison_is_aligned(
    label: Seq<char>,
    prompt_len: usize,
    output_len: usize,
    delta: DeltaText,
    k: int,
)
    requires
        0 <= k < comparison_header().len(),
    ensures
        ({
            let row = delta_row(label, prompt_len, output_len, delta);
            &&& row.len() == comparison_header().len()
            &&& row[k].1 == comparison_header()[k].1
            &&& row[1].0 == delta.current_ms@ + "ms"@
            &&& row[2].0 == delta.baseline_ms@ + "ms"@
            &&& row[3].0 == delta.delta@
            &&& label.is_prefix_of(row[0].0)
        }),
{
    let name = label + lens_shown(prompt_len, output_len);
    assert(name.take(label.len() as int) =~= label);
}

} // verus!
