//! Reports as text. Figures that are not whole numbers come in as texts.
use vstd::prelude::*;
use vstd::string::*;
use comfy_table::Table;
use crate::bench::prompt::{synthetic_pattern, synthetic_pattern_text, PromptDescriptor};
use crate::bench::table::{
    add_cells, add_number, add_text, header_of, left, new_table, right, set_labels, shows,
    table_header, table_plain, table_preset, table_rounded, table_rows, views,
};
use crate::text::{decimal, push_decimal, push_size};

verus! {

/// What every report says of its run.
pub struct RunInfo {
    pub model_path: String,
    pub model_type: String,
    pub cuda_graph: bool,
    pub load_ms: String,
    pub label: Option<String>,
}

/// How often a workload ran.
#[derive(Clone, Copy, Debug, PartialEq, Eq, Structural)]
pub struct Repeats {
    pub warmup: usize,
    pub iters: usize,
    pub seed: u64,
}

/// A summary of durations, in milliseconds.
pub struct StatsText {
    pub avg: String,
    pub p50: String,
    pub p95: String,
    pub p99: String,
    pub max: String,
    pub samples: usize,
}

pub struct RequestReport {
    pub run: RunInfo,
    pub prompt: PromptDescriptor,
    pub output_len: usize,
    pub repeats: Repeats,
    pub ttft: StatsText,
    pub first_decode_step: Option<StatsText>,
    pub steady_tpot: Option<StatsText>,
    pub e2e: StatsText,
    pub generated_avg: String,
    pub generated_min: usize,
    pub generated_max: usize,
    pub generated_runs: usize,
    pub request_tok_s: Option<String>,
    pub decode_tok_s: Option<String>,
}

pub struct MatrixCell {
    pub prompt_len: usize,
    pub output_len: usize,
    pub ttft_avg: String,
    pub ttft_p95: String,
    pub e2e_avg: String,
    pub request_tok_s: Option<String>,
    pub decode_tok_s: Option<String>,
    pub generated_avg: String,
}

pub struct MatrixReport {
    pub run: RunInfo,
    pub prompt_lens: Vec<usize>,
    pub output_lens: Vec<usize>,
    pub repeats: Repeats,
    pub cells: Vec<MatrixCell>,
}

pub struct CurveRow {
    pub ctx_start: usize,
    pub ctx_end: usize,
    pub tpot: StatsText,
    pub decode_tok_s: Option<String>,
}

pub struct CurveReport {
    pub run: RunInfo,
    pub prompt: PromptDescriptor,
    pub output_len: usize,
    pub window: usize,
    pub repeats: Repeats,
    pub windows: Vec<CurveRow>,
}

/// A copy of a text.
fn copy(text: &str) -> (s: String)
    ensures
        s@ == text@,
{
    String::from_str(text)
}

/// The decimal text of a size.
pub fn size_text(n: usize) -> (s: String)
    ensures
        s@ == decimal(n as nat),
{
    let mut s = String::new();
    push_size(&mut s, n);
    assert(s@ =~= decimal(n as nat));
    s
}

pub open spec fn rate_shown(rate: Option<String>) -> Seq<char> {
    match rate {
        Some(text) => text@,
        None => "-"@,
    }
}

/// A rate, or a dash where there is none.
pub fn format_rate(rate: &Option<String>) -> (s: String)
    ensures
        s@ == rate_shown(*rate),
{
    match rate {
        Some(text) => copy(text.as_str()),
        None => copy("-"),
    }
}

pub open spec fn bool_shown(b: bool) -> Seq<char> {
    if b {
        "true"@
    } else {
        "false"@
    }
}

pub open spec fn text_row(label: Seq<char>, value: Seq<char>) -> Seq<(Seq<char>, bool)> {
    seq![left(label), left(value)]
}

pub open spec fn number_row(label: Seq<char>, value: Seq<char>) -> Seq<(Seq<char>, bool)> {
    seq![left(label), right(value)]
}

/// One row, or none.
pub open spec fn row_if(there: bool, row: Seq<(Seq<char>, bool)>) -> Seq<Seq<(Seq<char>, bool)>> {
    if there {
        seq![row]
    } else {
        Seq::empty()
    }
}

pub open spec fn run_rows(run: RunInfo) -> Seq<Seq<(Seq<char>, bool)>> {
    seq![
        text_row("model"@, run.model_path@ + " ("@ + run.model_type@ + ")"@),
        text_row("cuda_graph"@, bool_shown(run.cuda_graph)),
        number_row("load_ms"@, run.load_ms@),
    ] + row_if(run.label is Some, text_row("label"@, run.label->Some_0@))
}

pub fn render_run_summary(run: &RunInfo, terminal: bool) -> (table: Table)
    ensures
        shows(table, terminal, None, run_rows(*run)),
{
    let mut table = new_table(terminal);
    let mut model = copy(run.model_path.as_str());
    model.append(" (");
    model.append(run.model_type.as_str());
    model.append(")");
    add_text(&mut table, "model", model);
    add_text(
        &mut table,
        "cuda_graph",
        if run.cuda_graph {
            copy("true")
        } else {
            copy("false")
        },
    );
    add_number(&mut table, "load_ms", copy(run.load_ms.as_str()));
    match &run.label {
        Some(label) => {
            add_text(&mut table, "label", copy(label.as_str()));
        },
        None => {},
    }
    assert(table_rows(table) =~= run_rows(*run));
    table
}

pub open spec fn prompt_rows(prompt: PromptDescriptor) -> Seq<Seq<(Seq<char>, bool)>> {
    seq![
        text_row("prompt_source"@, prompt.source@),
        number_row("prompt_tokens"@, decimal(prompt.prompt_tokens as nat)),
    ] + row_if(
        prompt.prompt_preview is Some,
        text_row("prompt"@, "\""@ + prompt.prompt_preview->Some_0@ + "\""@),
    )
}

/// Adds what there is to say of a prompt.
fn add_prompt(table: &mut Table, prompt: &PromptDescriptor)
    ensures
        table_plain(*old(table)) ==> table_plain(*final(table)),
        table_preset(*final(table)) == table_preset(*old(table)),
        table_rounded(*final(table)) == table_rounded(*old(table)),
        table_header(*final(table)) == table_header(*old(table)),
        table_rows(*final(table)) == table_rows(*old(table)) + prompt_rows(*prompt),
{
    add_text(table, "prompt_source", copy(prompt.source.as_str()));
    add_number(table, "prompt_tokens", size_text(prompt.prompt_tokens));
    match &prompt.prompt_preview {
        Some(preview) => {
            let mut quoted = copy("\"");
            quoted.append(preview.as_str());
            quoted.append("\"");
            add_text(table, "prompt", quoted);
        },
        None => {},
    }
    assert(table_rows(*table) =~= table_rows(*old(table)) + prompt_rows(*prompt));
}

pub open spec fn repeat_rows(repeats: Repeats) -> Seq<Seq<(Seq<char>, bool)>> {
    seq![
        text_row(
            "warmup / iters"@,
            decimal(repeats.warmup as nat) + " / "@ + decimal(repeats.iters as nat),
        ),
        number_row("seed"@, decimal(repeats.seed as nat)),
    ]
}

/// Adds how often a workload ran.
fn add_repeats(table: &mut Table, repeats: &Repeats)
    ensures
        table_plain(*old(table)) ==> table_plain(*final(table)),
        table_preset(*final(table)) == table_preset(*old(table)),
        table_rounded(*final(table)) == table_rounded(*old(table)),
        table_header(*final(table)) == table_header(*old(table)),
        table_rows(*final(table)) == table_rows(*old(table)) + repeat_rows(*repeats),
{
    let mut counts = size_text(repeats.warmup);
    counts.append(" / ");
    push_size(&mut counts, repeats.iters);
    add_text(table, "warmup / iters", counts);
    let mut seed = String::new();
    push_decimal(&mut seed, repeats.seed);
    assert(seed@ =~= decimal(repeats.seed as nat));
    add_number(table, "seed", seed);
    assert(table_rows(*table) =~= table_rows(*old(table)) + repeat_rows(*repeats));
}

pub open spec fn request_meta_rows(report: RequestReport) -> Seq<Seq<(Seq<char>, bool)>> {
    run_rows(report.run) + prompt_rows(report.prompt) + seq![
        number_row("output_len"@, decimal(report.output_len as nat)),
    ] + repeat_rows(report.repeats)
}

pub fn render_request_meta(report: &RequestReport, terminal: bool) -> (table: Table)
    ensures
        shows(table, terminal, None, request_meta_rows(*report)),
{
    let mut table = render_run_summary(&report.run, terminal);
    add_prompt(&mut table, &report.prompt);
    add_number(&mut table, "output_len", size_text(report.output_len));
    add_repeats(&mut table, &report.repeats);
    assert(table_rows(table) =~= request_meta_rows(*report));
    table
}

pub open spec fn duration_header() -> Seq<(Seq<char>, bool)> {
    header_of(
        seq!["metric"@, "avg_ms"@, "p50_ms"@, "p95_ms"@, "p99_ms"@, "max_ms"@, "samples"@],
        true,
    )
}

pub open spec fn stats_row(label: Seq<char>, stats: StatsText) -> Seq<(Seq<char>, bool)> {
    header_of(
        seq![
            label,
            stats.avg@,
            stats.p50@,
            stats.p95@,
            stats.p99@,
            stats.max@,
            decimal(stats.samples as nat),
        ],
        true,
    )
}

/// Each label with its summary.
pub open spec fn stats_rows(rows: Seq<(&str, &StatsText)>) -> Seq<Seq<(Seq<char>, bool)>> {
    rows.map_values(|row: (&str, &StatsText)| stats_row(row.0@, *row.1))
}

pub fn render_duration_table(rows: &Vec<(&str, &StatsText)>, terminal: bool) -> (table: Table)
    ensures
        shows(table, terminal, Some(duration_header()), stats_rows(rows@)),
{
    let mut table = new_table(terminal);
    let labels: [&str; 7] = [
        "metric",
        "avg_ms",
        "p50_ms",
        "p95_ms",
        "p99_ms",
        "max_ms",
        "samples",
    ];
    set_labels(&mut table, labels.as_slice(), true);
    assert(views(labels@) =~= seq![
        "metric"@,
        "avg_ms"@,
        "p50_ms"@,
        "p95_ms"@,
        "p99_ms"@,
        "max_ms"@,
        "samples"@,
    ]);
    let mut i: usize = 0;
    assert(table_rows(table) =~= stats_rows(rows@.take(0)));
    while i < rows.len()
        invariant
            i <= rows.len(),
            shows(table, terminal, Some(duration_header()), stats_rows(rows@.take(i as int))),
        decreases rows.len() - i,
    {
        let (label, stats) = rows[i];
        let texts = vec![
            copy(label),
            copy(stats.avg.as_str()),
            copy(stats.p50.as_str()),
            copy(stats.p95.as_str()),
            copy(stats.p99.as_str()),
            copy(stats.max.as_str()),
            size_text(stats.samples),
        ];
        assert(texts@.map_values(|t: String| t@) =~= seq![
            label@,
            stats.avg@,
            stats.p50@,
            stats.p95@,
            stats.p99@,
            stats.max@,
            decimal(stats.samples as nat),
        ]);
        add_cells(&mut table, texts, true);
        assert(stats_rows(rows@.take(i as int + 1)) =~= stats_rows(rows@.take(i as int)).push(
            stats_row(label@, *stats),
        ));
        i = i + 1;
    }
    assert(rows@.take(i as int) =~= rows@);
    table
}

pub open spec fn summary_rows(report: RequestReport) -> Seq<Seq<(Seq<char>, bool)>> {
    seq![
        number_row("generated_tokens_avg"@, report.generated_avg@),
        number_row("generated_tokens_min"@, decimal(report.generated_min as nat)),
        number_row("generated_tokens_max"@, decimal(report.generated_max as nat)),
        number_row("generated_token_runs"@, decimal(report.generated_runs as nat)),
        number_row("request_tok_s"@, rate_shown(report.request_tok_s)),
        number_row("decode_tok_s"@, rate_shown(report.decode_tok_s)),
    ]
}

pub open spec fn summary_header() -> Seq<(Seq<char>, bool)> {
    header_of(seq!["metric"@, "value"@], true)
}

pub fn render_request_summary(report: &RequestReport, terminal: bool) -> (table: Table)
    ensures
        shows(table, terminal, Some(summary_header()), summary_rows(*report)),
{
    let mut table = new_table(terminal);
    let labels: [&str; 2] = ["metric", "value"];
    set_labels(&mut table, labels.as_slice(), true);
    assert(views(labels@) =~= seq!["metric"@, "value"@]);
    add_number(&mut table, "generated_tokens_avg", copy(report.generated_avg.as_str()));
    add_number(&mut table, "generated_tokens_min", size_text(report.generated_min));
    add_number(&mut table, "generated_tokens_max", size_text(report.generated_max));
    add_number(&mut table, "generated_token_runs", size_text(report.generated_runs));
    add_number(&mut table, "request_tok_s", format_rate(&report.request_tok_s));
    add_number(&mut table, "decode_tok_s", format_rate(&report.decode_tok_s));
    assert(table_rows(table) =~= summary_rows(*report));
    table
}

/// Sizes with commas between them.
pub open spec fn comma_list(sizes: Seq<usize>) -> Seq<char>
    decreases sizes.len(),
{
    if sizes.len() == 0 {
        Seq::empty()
    } else if sizes.len() == 1 {
        decimal(sizes[0] as nat)
    } else {
        comma_list(sizes.drop_last()) + ","@ + decimal(sizes.last() as nat)
    }
}

pub fn join_sizes(sizes: &Vec<usize>) -> (s: String)
    ensures
        s@ == comma_list(sizes@),
{
    let mut s = String::new();
    let mut i: usize = 0;
    assert(s@ =~= comma_list(sizes@.take(0)));
    while i < sizes.len()
        invariant
            i <= sizes.len(),
            s@ == comma_list(sizes@.take(i as int)),
        decreases sizes.len() - i,
    {
        let ghost more = sizes@.take(i as int + 1);
        assert(more.drop_last() =~= sizes@.take(i as int));
        let ghost before = s@;
        if i > 0 {
            s.append(",");
        }
        push_size(&mut s, sizes[i]);
        assert(s@ =~= comma_list(more)) by {
            if i == 0 {
                assert(before =~= Seq::<char>::empty());
            }
        }
        i = i + 1;
    }
    assert(sizes@.take(i as int) =~= sizes@);
    s
}

pub open spec fn matrix_meta_rows(report: MatrixReport) -> Seq<Seq<(Seq<char>, bool)>> {
    run_rows(report.run) + seq![
        text_row("prompt_lens"@, comma_list(report.prompt_lens@)),
        text_row("output_lens"@, comma_list(report.output_lens@)),
        text_row("synthetic_pattern"@, synthetic_pattern()),
    ] + repeat_rows(report.repeats)
}

pub fn render_matrix_meta(report: &MatrixReport, terminal: bool) -> (table: Table)
    ensures
        shows(table, terminal, None, matrix_meta_rows(*report)),
{
    let mut table = render_run_summary(&report.run, terminal);
    add_text(&mut table, "prompt_lens", join_sizes(&report.prompt_lens));
    add_text(&mut table, "output_lens", join_sizes(&report.output_lens));
    add_text(&mut table, "synthetic_pattern", copy(synthetic_pattern_text()));
    add_repeats(&mut table, &report.repeats);
    assert(table_rows(table) =~= matrix_meta_rows(*report));
    table
}

pub open spec fn matrix_header() -> Seq<(Seq<char>, bool)> {
    header_of(
        seq![
            "prompt_tok"@,
            "output_tok"@,
            "ttft_avg"@,
            "ttft_p95"@,
            "e2e_avg"@,
            "req_tok/s"@,
            "decode_tok/s"@,
            "gen_avg"@,
        ],
        false,
    )
}

pub open spec fn matrix_row(cell: MatrixCell) -> Seq<(Seq<char>, bool)> {
    header_of(
        seq![
            decimal(cell.prompt_len as nat),
            decimal(cell.output_len as nat),
            cell.ttft_avg@,
            cell.ttft_p95@,
            cell.e2e_avg@,
            rate_shown(cell.request_tok_s),
            rate_shown(cell.decode_tok_s),
            cell.generated_avg@,
        ],
        false,
    )
}

pub open spec fn matrix_rows(cells: Seq<MatrixCell>) -> Seq<Seq<(Seq<char>, bool)>> {
    cells.map_values(|cell: MatrixCell| matrix_row(cell))
}

pub fn render_matrix_table(report: &MatrixReport, terminal: bool) -> (table: Table)
    ensures
        shows(table, terminal, Some(matrix_header()), matrix_rows(report.cells@)),
{
    let mut table = new_table(terminal);
    let labels: [&str; 8] = [
        "prompt_tok",
        "output_tok",
        "ttft_avg",
        "ttft_p95",
        "e2e_avg",
        "req_tok/s",
        "decode_tok/s",
        "gen_avg",
    ];
    set_labels(&mut table, labels.as_slice(), false);
    assert(views(labels@) =~= seq![
        "prompt_tok"@,
        "output_tok"@,
        "ttft_avg"@,
        "ttft_p95"@,
        "e2e_avg"@,
        "req_tok/s"@,
        "decode_tok/s"@,
        "gen_avg"@,
    ]);
    let ghost cells = report.cells@;
    let mut i: usize = 0;
    assert(table_rows(table) =~= matrix_rows(cells.take(0)));
    while i < report.cells.len()
        invariant
            cells == report.cells@,
            i <= cells.len(),
            shows(table, terminal, Some(matrix_header()), matrix_rows(cells.take(i as int))),
        decreases cells.len() - i,
    {
        let cell = &report.cells[i];
        let texts = vec![
            size_text(cell.prompt_len),
            size_text(cell.output_len),
            copy(cell.ttft_avg.as_str()),
            copy(cell.ttft_p95.as_str()),
            copy(cell.e2e_avg.as_str()),
            format_rate(&cell.request_tok_s),
            format_rate(&cell.decode_tok_s),
            copy(cell.generated_avg.as_str()),
        ];
        assert(texts@.map_values(|t: String| t@) =~= seq![
            decimal(cell.prompt_len as nat),
            decimal(cell.output_len as nat),
            cell.ttft_avg@,
            cell.ttft_p95@,
            cell.e2e_avg@,
            rate_shown(cell.request_tok_s),
            rate_shown(cell.decode_tok_s),
            cell.generated_avg@,
        ]);
        add_cells(&mut table, texts, false);
        assert(matrix_rows(cells.take(i as int + 1)) =~= matrix_rows(cells.take(i as int)).push(
            matrix_row(*cell),
        ));
        i = i + 1;
    }
    assert(cells.take(i as int) =~= cells);
    table
}

pub open spec fn curve_meta_rows(report: CurveReport) -> Seq<Seq<(Seq<char>, bool)>> {
    run_rows(report.run) + prompt_rows(report.prompt) + seq![
        number_row("output_len"@, decimal(report.output_len as nat)),
        number_row("window"@, decimal(report.window as nat)),
    ] + repeat_rows(report.repeats)
}

pub fn render_curve_meta(report: &CurveReport, terminal: bool) -> (table: Table)
    ensures
        shows(table, terminal, None, curve_meta_rows(*report)),
{
    let mut table = render_run_summary(&report.run, terminal);
    add_prompt(&mut table, &report.prompt);
    add_number(&mut table, "output_len", size_text(report.output_len));
    add_number(&mut table, "window", size_text(report.window));
    add_repeats(&mut table, &report.repeats);
    assert(table_rows(table) =~= curve_meta_rows(*report));
    table
}

pub open spec fn curve_header() -> Seq<(Seq<char>, bool)> {
    header_of(
        seq!["ctx_range"@, "avg_ms"@, "p50_ms"@, "p95_ms"@, "p99_ms"@, "tok/s"@, "samples"@],
        true,
    )
}

pub open spec fn curve_row(row: CurveRow) -> Seq<(Seq<char>, bool)> {
    header_of(
        seq![
            decimal(row.ctx_start as nat) + "-"@ + decimal(row.ctx_end as nat),
            row.tpot.avg@,
            row.tpot.p50@,
            row.tpot.p95@,
            row.tpot.p99@,
            rate_shown(row.decode_tok_s),
            decimal(row.tpot.samples as nat),
        ],
        true,
    )
}

pub open spec fn curve_rows(rows: Seq<CurveRow>) -> Seq<Seq<(Seq<char>, bool)>> {
    rows.map_values(|row: CurveRow| curve_row(row))
}

pub fn render_curve_table(report: &CurveReport, terminal: bool) -> (table: Table)
    ensures
        shows(table, terminal, Some(curve_header()), curve_rows(report.windows@)),
{
    let mut table = new_table(terminal);
    let labels: [&str; 7] = [
        "ctx_range",
        "avg_ms",
        "p50_ms",
        "p95_ms",
        "p99_ms",
        "tok/s",
        "samples",
    ];
    set_labels(&mut table, labels.as_slice(), true);
    assert(views(labels@) =~= seq![
        "ctx_range"@,
        "avg_ms"@,
        "p50_ms"@,
        "p95_ms"@,
        "p99_ms"@,
        "tok/s"@,
        "samples"@,
    ]);
    let ghost rows = report.windows@;
    let mut i: usize = 0;
    assert(table_rows(table) =~= curve_rows(rows.take(0)));
    while i < report.windows.len()
        invariant
            rows == report.windows@,
            i <= rows.len(),
            shows(table, terminal, Some(curve_header()), curve_rows(rows.take(i as int))),
        decreases rows.len() - i,
    {
        let row = &report.windows[i];
        let mut range = size_text(row.ctx_start);
        range.append("-");
        push_size(&mut range, row.ctx_end);
        let texts = vec![
            range,
            copy(row.tpot.avg.as_str()),
            copy(row.tpot.p50.as_str()),
            copy(row.tpot.p95.as_str()),
            copy(row.tpot.p99.as_str()),
            format_rate(&row.decode_tok_s),
            size_text(row.tpot.samples),
        ];
        assert(texts@.map_values(|t: String| t@) =~= seq![
            decimal(row.ctx_start as nat) + "-"@ + decimal(row.ctx_end as nat),
            row.tpot.avg@,
            row.tpot.p50@,
            row.tpot.p95@,
            row.tpot.p99@,
            rate_shown(row.decode_tok_s),
            decimal(row.tpot.samples as nat),
        ]);
        add_cells(&mut table, texts, true);
        assert(curve_rows(rows.take(i as int + 1)) =~= curve_rows(rows.take(i as int)).push(
            curve_row(*row),
        ));
        i = i + 1;
    }
    assert(rows.take(i as int) =~= rows);
    table
}

/// Lists of sizes are joined by a comma, and a list of one is its text.
pub proof fn lemma_comma_list_joins(a: Seq<usize>, b: Seq<usize>, size: usize)
    ensures
        a.len() > 0 && b.len() > 0 ==> comma_list(a + b) == comma_list(a) + ","@ + comma_list(b),
        comma_list(seq![size]) == decimal(size as nat),
        comma_list(Seq::<usize>::empty()).len() == 0,
    decreases b.len(),
{
    if a.len() > 0 && b.len() > 0 {
        assert((a + b).drop_last() =~= a + b.drop_last());
        assert((a + b).last() == b.last());
        if b.len() == 1 {
            assert(a + b.drop_last() =~= a);
            assert(b[0] == b.last());
        } else {
            lemma_comma_list_joins(a, b.drop_last(), size);
            assert(comma_list(a + b) =~= comma_list(a) + ","@ + comma_list(b));
        }
    }
}

/// Some row shows this value under this label.
pub open spec fn says(
    rows: Seq<Seq<(Seq<char>, bool)>>,
    label: Seq<char>,
    value: Seq<char>,
) -> bool {
    exists|i: int|
        0 <= i < rows.len() && (#[trigger] rows[i]).len() == 2 && rows[i][0].0 == label
            && rows[i][1].0 == value
}

proof fn lemma_says_in_part(
    before: Seq<Seq<(Seq<char>, bool)>>,
    part: Seq<Seq<(Seq<char>, bool)>>,
    after: Seq<Seq<(Seq<char>, bool)>>,
)
    ensures
        forall|label: Seq<char>, value: Seq<char>|
            says(part, label, value) ==> #[trigger] says(before + part + after, label, value),
{
    let rows = before + part + after;
    assert forall|label: Seq<char>, value: Seq<char>|
        says(part, label, value) implies #[trigger] says(rows, label, value) by {
        let i = choose|i: int|
            0 <= i < part.len() && (#[trigger] part[i]).len() == 2 && part[i][0].0 == label
                && part[i][1].0 == value;
        assert(rows[before.len() + i] == part[i]);
    }
}

/// What a report says of its run: its model, whether graphs were captured, how long the
/// model took to load, and the label where there is one.
pub proof fn lemma_run_is_described(run: RunInfo)
    ensures
        says(run_rows(run), "model"@, run.model_path@ + " ("@ + run.model_type@ + ")"@),
        says(run_rows(run), "cuda_graph"@, bool_shown(run.cuda_graph)),
        says(run_rows(run), "load_ms"@, run.load_ms@),
        run.label matches Some(label) ==> says(run_rows(run), "label"@, label@),
        run_rows(run).len() == (if run.label is Some {
            4int
        } else {
            3int
        }),
{
    let rows = run_rows(run);
    assert(rows[0][0].0 == "model"@);
    assert(rows[1][0].0 == "cuda_graph"@);
    assert(rows[2][0].0 == "load_ms"@);
    if run.label is Some {
        assert(rows[3][0].0 == "label"@);
    }
}

/// What a report says of its prompt: where it came from, how long it is, and the start of
/// it where there is one.
pub proof fn lemma_prompt_is_described(prompt: PromptDescriptor)
    ensures
        says(prompt_rows(prompt), "prompt_source"@, prompt.source@),
        says(prompt_rows(prompt), "prompt_tokens"@, decimal(prompt.prompt_tokens as nat)),
        prompt.prompt_preview matches Some(text) ==> says(
            prompt_rows(prompt),
            "prompt"@,
            "\""@ + text@ + "\""@,
        ),
{
    let rows = prompt_rows(prompt);
    assert(rows[0][0].0 == "prompt_source"@);
    assert(rows[1][0].0 == "prompt_tokens"@);
    if prompt.prompt_preview is Some {
        assert(rows[2][0].0 == "prompt"@);
    }
}

/// What a report says of its repeats.
pub proof fn lemma_repeats_are_described(repeats: Repeats)
    ensures
        says(
            repeat_rows(repeats),
            "warmup / iters"@,
            decimal(repeats.warmup as nat) + " / "@ + decimal(repeats.iters as nat),
        ),
        says(repeat_rows(repeats), "seed"@, decimal(repeats.seed as nat)),
{
    let rows = repeat_rows(repeats);
    assert(rows[0][0].0 == "warmup / iters"@);
    assert(rows[1][0].0 == "seed"@);
}

/// The heading of a report on requests, and that of a report on a curve, say all there is
/// to say of the run, the prompt and the repeats, and the lengths that were asked for.
pub proof fn lemma_headings_are_complete(request: RequestReport, curve: CurveReport)
    ensures
        forall|label: Seq<char>, value: Seq<char>|
            says(run_rows(request.run), label, value) || says(
                prompt_rows(request.prompt),
                label,
                value,
            ) || says(repeat_rows(request.repeats), label, value) ==> #[trigger] says(
                request_meta_rows(request),
                label,
                value,
            ),
        says(request_meta_rows(request), "output_len"@, decimal(request.output_len as nat)),
        forall|label: Seq<char>, value: Seq<char>|
            says(run_rows(curve.run), label, value) || says(
                prompt_rows(curve.prompt),
                label,
                value,
            ) || says(repeat_rows(curve.repeats), label, value) ==> #[trigger] says(
                curve_meta_rows(curve),
                label,
                value,
            ),
        says(curve_meta_rows(curve), "output_len"@, decimal(curve.output_len as nat)),
        says(curve_meta_rows(curve), "window"@, decimal(curve.window as nat)),
{
    let none = Seq::<Seq<(Seq<char>, bool)>>::empty();
    let all = request_meta_rows(request);
    let (run, prompt, repeats) = (
        run_rows(request.run),
        prompt_rows(request.prompt),
        repeat_rows(request.repeats),
    );
    let own = seq![number_row("output_len"@, decimal(request.output_len as nat))];
    assert(all =~= none + run + (prompt + own + repeats));
    assert(all =~= run + prompt + (own + repeats));
    assert(all =~= (run + prompt + own) + repeats + none);
    lemma_says_in_part(none, run, prompt + own + repeats);
    lemma_says_in_part(run, prompt, own + repeats);
    lemma_says_in_part(run + prompt + own, repeats, none);
    assert(all[(run + prompt).len() as int] == own[0]);
    assert(own[0][0].0 == "output_len"@);
    let all = curve_meta_rows(curve);
    let (run, prompt, repeats) = (
        run_rows(curve.run),
        prompt_rows(curve.prompt),
        repeat_rows(curve.repeats),
    );
    let own = seq![
        number_row("output_len"@, decimal(curve.output_len as nat)),
        number_row("window"@, decimal(curve.window as nat)),
    ];
    assert(all =~= none + run + (prompt + own + repeats));
    assert(all =~= run + prompt + (own + repeats));
    assert(all =~= (run + prompt + own) + repeats + none);
    lemma_says_in_part(none, run, prompt + own + repeats);
    lemma_says_in_part(run, prompt, own + repeats);
    lemma_says_in_part(run + prompt + own, repeats, none);
    assert(all[(run + prompt).len() as int] == own[0]);
    assert(all[(run + prompt).len() as int + 1] == own[1]);
    assert(own[0][0].0 == "output_len"@);
    assert(own[1][0].0 == "window"@);
}

/// The heading of a report on a matrix says all there is to say of the run and the
/// repeats, and the lengths that were swept.
pub proof fn lemma_matrix_heading_is_complete(report: MatrixReport)
    ensures
        forall|label: Seq<char>, value: Seq<char>|
            says(run_rows(report.run), label, value) || says(
                repeat_rows(report.repeats),
                label,
                value,
            ) ==> #[trigger] says(matrix_meta_rows(report), label, value),
        says(matrix_meta_rows(report), "prompt_lens"@, comma_list(report.prompt_lens@)),
        says(matrix_meta_rows(report), "output_lens"@, comma_list(report.output_lens@)),
        says(matrix_meta_rows(report), "synthetic_pattern"@, synthetic_pattern()),
{
    let none = Seq::<Seq<(Seq<char>, bool)>>::empty();
    let all = matrix_meta_rows(report);
    let (run, repeats) = (run_rows(report.run), repeat_rows(report.repeats));
    let own = seq![
        text_row("prompt_lens"@, comma_list(report.prompt_lens@)),
        text_row("output_lens"@, comma_list(report.output_lens@)),
        text_row("synthetic_pattern"@, synthetic_pattern()),
    ];
    assert(all =~= none + run + (own + repeats));
    assert(all =~= (run + own) + repeats + none);
    lemma_says_in_part(none, run, own + repeats);
    lemma_says_in_part(run + own, repeats, none);
    assert(all[run.len() as int] == own[0]);
    assert(all[run.len() as int + 1] == own[1]);
    assert(all[run.len() as int + 2] == own[2]);
    assert(own[0][0].0 == "prompt_lens"@);
    assert(own[1][0].0 == "output_lens"@);
    assert(own[2][0].0 == "synthetic_pattern"@);
}

/// The figures stand under their headings: each row of a table is as wide as its header,
/// and aligned as it is.
pub proof fn lemma_figures_stand_under_their_headings(
    label: Seq<char>,
    stats: StatsText,
    cell: MatrixCell,
    row: CurveRow,
)
    ensures
        ({
            let (h, r) = (duration_header(), stats_row(label, stats));
            &&& h.len() == r.len()
            &&& forall|k: int| 0 <= k < r.len() ==> (#[trigger] r[k]).1 == h[k].1
            &&& forall|k: int| 0 <= k < r.len() ==> {
                &&& h[k].0 == "metric"@ ==> (#[trigger] r[k]).0 == label
                &&& h[k].0 == "samples"@ ==> k == 6
            }
        }),
        matrix_header().len() == matrix_row(cell).len(),
        forall|k: int|
            0 <= k < matrix_row(cell).len() ==> (#[trigger] matrix_row(cell)[k]).1
                == matrix_header()[k].1,
        curve_header().len() == curve_row(row).len(),
        forall|k: int|
            0 <= k < curve_row(row).len() ==> (#[trigger] curve_row(row)[k]).1
                == curve_header()[k].1,
{
    reveal_strlit("metric");
    reveal_strlit("avg_ms");
    reveal_strlit("p50_ms");
    reveal_strlit("p95_ms");
    reveal_strlit("p99_ms");
    reveal_strlit("max_ms");
    reveal_strlit("samples");
    assert("metric"@[0] == 'm' && "metric"@[1] == 'e');
    assert("max_ms"@[1] == 'a');
    assert("avg_ms"@[0] == 'a');
    assert("p50_ms"@[0] == 'p' && "p95_ms"@[0] == 'p' && "p99_ms"@[0] == 'p');
    assert("samples"@.len() == 7);
    assert("metric"@.len() == 6 && "avg_ms"@.len() == 6 && "p50_ms"@.len() == 6 && "p95_ms"@.len()
        == 6 && "p99_ms"@.len() == 6 && "max_ms"@.len() == 6);
}

} // verus!
