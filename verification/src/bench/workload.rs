//! What a benchmark runs, and the checks on what it was asked to run.
use vstd::prelude::*;
use vstd::string::*;
use crate::engine::{EngineLoadOptions, EpBackend, ParallelConfig, SamplingParams};
use crate::text::{decimal, push_size};

verus! {

pub const SNAPSHOT_PREFILL_OUTPUT_LEN: usize = 1;

pub const SNAPSHOT_DECODE_PROMPT_LEN: usize = 1024;

pub const SNAPSHOT_DECODE_OUTPUT_LEN: usize = 256;

pub const DEFAULT_CURVE_PROMPT_LEN: usize = 512;

/// Rows that generation by attribution can run at once.
pub const ATTRIBUTION_MAX_CONCURRENCY: usize = 8;

/// The models a benchmark can run.
#[derive(Clone, Copy, Debug, PartialEq, Eq, Structural)]
pub enum ModelType {
    DeepSeekV2Lite,
    DeepSeekV4,
    KimiK2,
    Qwen3,
    Qwen35,
}

/// The long prompt of a snapshot. One model's serving shape admits no more than
/// two thousand and forty-eight tokens.
pub fn snapshot_prefill_prompt_len(model_type: ModelType) -> (r: usize)
    ensures
        r == (if model_type == ModelType::KimiK2 {
            2_048usize
        } else {
            10_000usize
        }),
{
    match model_type {
        ModelType::KimiK2 => 2_048,
        _ => 10_000,
    }
}

/// Iterations and seed of a run.
#[derive(Clone, Copy, Debug, PartialEq, Eq, Structural)]
pub struct RunArgs {
    pub warmup: usize,
    pub iters: usize,
    pub seed: u64,
}

/// The command a benchmark was started with.
#[derive(Clone, Copy, Debug, PartialEq, Eq, Structural)]
pub enum BenchCommand {
    Request(RunArgs),
    Matrix(RunArgs),
    Curve(RunArgs),
    Snapshot(RunArgs),
    Mixed(RunArgs),
    Compare,
}

/// The seed an engine is loaded with.
pub fn command_seed(command: BenchCommand) -> (seed: u64)
    ensures
        seed == (match command {
            BenchCommand::Request(run) | BenchCommand::Matrix(run) | BenchCommand::Curve(run)
            | BenchCommand::Snapshot(run) | BenchCommand::Mixed(run) => run.seed,
            BenchCommand::Compare => 42,
        }),
{
    match command {
        BenchCommand::Request(run) => run.seed,
        BenchCommand::Matrix(run) => run.seed,
        BenchCommand::Curve(run) => run.seed,
        BenchCommand::Snapshot(run) => run.seed,
        BenchCommand::Mixed(run) => run.seed,
        BenchCommand::Compare => 42,
    }
}

/// Why a benchmark was refused.
#[derive(Clone, Copy, Debug, PartialEq, Eq, Structural)]
pub enum BenchError {
    TpSize,
    DpSize,
    Iters,
    OutputLen,
    NoPrompts,
    Concurrency,
    AttributionConcurrency { concurrency: usize },
    Window,
    CurveOutputLen,
    BgConcurrency,
    BgPromptLen,
    BgOutputLen,
    InjPromptLen,
    InjOutputLen,
    NumInjections,
    Qps,
    WarmFrac,
    NoScheduler,
    NoGaps,
}

impl BenchError {
    pub open spec fn text(self) -> Seq<char> {
        match self {
            BenchError::TpSize => "--tp-size must be positive"@,
            BenchError::DpSize => "--dp-size must be positive"@,
            BenchError::Iters => "--iters must be > 0"@,
            BenchError::OutputLen => "--output-len must be > 0"@,
            BenchError::NoPrompts => "concurrency must be > 0"@,
            BenchError::Concurrency => "--concurrency must be > 0"@,
            BenchError::AttributionConcurrency { concurrency } =>
            "DeepSeek-V2-Lite direct benchmark supports --concurrency 1..=8; concurrency=1 is the single-row control and >1 uses the narrow same-prompt batched decode path, got "@
                + decimal(concurrency as nat),
            BenchError::Window => "--window must be > 0"@,
            BenchError::CurveOutputLen => "--output-len must be >= 2 for curve"@,
            BenchError::BgConcurrency => "--bg-concurrency must be > 0"@,
            BenchError::BgPromptLen => "--bg-prompt-len must be > 0"@,
            BenchError::BgOutputLen => "--bg-output-len must be > 0"@,
            BenchError::InjPromptLen => "--inj-prompt-len must be > 0"@,
            BenchError::InjOutputLen => "--inj-output-len must be > 0"@,
            BenchError::NumInjections => "--num-injections must be > 0"@,
            BenchError::Qps => "--qps must be > 0"@,
            BenchError::WarmFrac => "--inj-warm-frac must be in [0.0, 1.0]"@,
            BenchError::NoScheduler =>
            "mixed-load requires a scheduler-backed continuous-batching model; this model exposes no scheduler handle"@,
            BenchError::NoGaps =>
            "no background decode gaps recorded; increase --bg-output-len or --num-injections"@,
        }
    }

    pub fn message(&self) -> (s: String)
        ensures
            s@ == self.text(),
    {
        match self {
            BenchError::TpSize => String::from_str("--tp-size must be positive"),
            BenchError::DpSize => String::from_str("--dp-size must be positive"),
            BenchError::Iters => String::from_str("--iters must be > 0"),
            BenchError::OutputLen => String::from_str("--output-len must be > 0"),
            BenchError::NoPrompts => String::from_str("concurrency must be > 0"),
            BenchError::Concurrency => String::from_str("--concurrency must be > 0"),
            BenchError::AttributionConcurrency { concurrency } => {
                let mut s = String::from_str(
                    "DeepSeek-V2-Lite direct benchmark supports --concurrency 1..=8; concurrency=1 is the single-row control and >1 uses the narrow same-prompt batched decode path, got ",
                );
                push_size(&mut s, *concurrency);
                s
            },
            BenchError::Window => String::from_str("--window must be > 0"),
            BenchError::CurveOutputLen => String::from_str("--output-len must be >= 2 for curve"),
            BenchError::BgConcurrency => String::from_str("--bg-concurrency must be > 0"),
            BenchError::BgPromptLen => String::from_str("--bg-prompt-len must be > 0"),
            BenchError::BgOutputLen => String::from_str("--bg-output-len must be > 0"),
            BenchError::InjPromptLen => String::from_str("--inj-prompt-len must be > 0"),
            BenchError::InjOutputLen => String::from_str("--inj-output-len must be > 0"),
            BenchError::NumInjections => String::from_str("--num-injections must be > 0"),
            BenchError::Qps => String::from_str("--qps must be > 0"),
            BenchError::WarmFrac => String::from_str("--inj-warm-frac must be in [0.0, 1.0]"),
            BenchError::NoScheduler => String::from_str(
                "mixed-load requires a scheduler-backed continuous-batching model; this model exposes no scheduler handle",
            ),
            BenchError::NoGaps => String::from_str(
                "no background decode gaps recorded; increase --bg-output-len or --num-injections",
            ),
        }
    }
}

pub fn kimi_parallel_config(tp_size: usize, dp_size: usize) -> (r: Result<
    ParallelConfig,
    BenchError,
>)
    ensures
        r == (if tp_size == 0 {
            Err::<ParallelConfig, BenchError>(BenchError::TpSize)
        } else if dp_size == 0 {
            Err(BenchError::DpSize)
        } else {
            Ok(ParallelConfig { tp_size, dp_size })
        }),
{
    if tp_size == 0 {
        return Err(BenchError::TpSize);
    }
    if dp_size == 0 {
        return Err(BenchError::DpSize);
    }
    Ok(ParallelConfig { tp_size, dp_size })
}

pub fn validate_run_args(run: &RunArgs) -> (r: Result<(), BenchError>)
    ensures
        r == (if run.iters == 0 {
            Err::<(), BenchError>(BenchError::Iters)
        } else {
            Ok(())
        }),
{
    if run.iters == 0 {
        return Err(BenchError::Iters);
    }
    Ok(())
}

/// Whether a model takes a batch of this size.
pub open spec fn concurrency_error(by_attribution: bool, concurrency: usize) -> Option<BenchError> {
    if by_attribution {
        if 0 < concurrency <= ATTRIBUTION_MAX_CONCURRENCY {
            None
        } else {
            Some(BenchError::AttributionConcurrency { concurrency })
        }
    } else if concurrency == 0 {
        Some(BenchError::Concurrency)
    } else {
        None
    }
}

pub fn validate_concurrency(by_attribution: bool, concurrency: usize) -> (r: Result<
    (),
    BenchError,
>)
    ensures
        match concurrency_error(by_attribution, concurrency) {
            Some(error) => r == Err::<(), BenchError>(error),
            None => r is Ok,
        },
{
    if by_attribution {
        if concurrency > 0 && concurrency <= ATTRIBUTION_MAX_CONCURRENCY {
            Ok(())
        } else {
            Err(BenchError::AttributionConcurrency { concurrency })
        }
    } else if concurrency == 0 {
        Err(BenchError::Concurrency)
    } else {
        Ok(())
    }
}

/// Checks a measurement before its first iteration.
pub fn validate_measurement(
    by_attribution: bool,
    prompts: usize,
    output_len: usize,
    run: &RunArgs,
) -> (r: Result<(), BenchError>)
    ensures
        ({
            let error = if output_len == 0 {
                Some(BenchError::OutputLen)
            } else if prompts == 0 {
                Some(BenchError::NoPrompts)
            } else if concurrency_error(by_attribution, prompts) is Some {
                concurrency_error(by_attribution, prompts)
            } else if run.iters == 0 {
                Some(BenchError::Iters)
            } else {
                None
            };
            match error {
                Some(error) => r == Err::<(), BenchError>(error),
                None => r is Ok,
            }
        }),
{
    if output_len == 0 {
        return Err(BenchError::OutputLen);
    }
    if prompts == 0 {
        return Err(BenchError::NoPrompts);
    }
    match validate_concurrency(by_attribution, prompts) {
        Err(error) => {
            return Err(error);
        },
        Ok(()) => {},
    }
    validate_run_args(run)
}

/// Checks the shape of a curve.
pub fn validate_curve(window: usize, output_len: usize) -> (r: Result<(), BenchError>)
    ensures
        r == (if window == 0 {
            Err::<(), BenchError>(BenchError::Window)
        } else if output_len < 2 {
            Err(BenchError::CurveOutputLen)
        } else {
            Ok(())
        }),
{
    if window == 0 {
        return Err(BenchError::Window);
    }
    if output_len < 2 {
        return Err(BenchError::CurveOutputLen);
    }
    Ok(())
}

/// Sampling of a benchmark: greedy, and to the end.
pub fn bench_sampling() -> (r: SamplingParams)
    ensures
        r.temperature == 0,
        r.top_k == -1,
        r.top_p == 0x3f80_0000,
        r.ignore_eos,
{
    let mut params = SamplingParams::default();
    params.ignore_eos = true;
    params
}

/// A list of sizes that cannot be swept.
#[derive(Clone, Copy, Debug, PartialEq, Eq, Structural)]
pub enum SizesError {
    Empty,
    Zero,
}

impl SizesError {
    pub fn message(&self, flag: &str) -> (s: String)
        ensures
            s@ == flag@ + (match self {
                SizesError::Empty => " must not be empty"@,
                SizesError::Zero => " values must be > 0"@,
            }),
    {
        let mut s = String::from_str(flag);
        match self {
            SizesError::Empty => {
                s.append(" must not be empty");
            },
            SizesError::Zero => {
                s.append(" values must be > 0");
            },
        }
        s
    }
}

/// Sizes in ascending order, each once.
pub open spec fn strictly_ascending(sizes: Seq<usize>) -> bool {
    forall|i: int, j: int|
        0 <= i < j < sizes.len() ==> (#[trigger] sizes[i]) < (#[trigger] sizes[j])
}

/// Checks sizes and puts them in order, each once.
#[verifier::loop_isolation(false)]
pub fn normalize_sizes(values: &[usize]) -> (r: Result<Vec<usize>, SizesError>)
    ensures
        if values@.len() == 0 {
            r == Err::<Vec<usize>, SizesError>(SizesError::Empty)
        } else if values@.contains(0) {
            r == Err::<Vec<usize>, SizesError>(SizesError::Zero)
        } else {
            &&& r matches Ok(sizes)
            &&& strictly_ascending(sizes@)
            &&& forall|size: usize| sizes@.contains(size) == values@.contains(size)
        },
{
    if values.len() == 0 {
        return Err(SizesError::Empty);
    }
    let mut i: usize = 0;
    while i < values.len()
        invariant
            i <= values.len(),
            forall|k: int| 0 <= k < i ==> (#[trigger] values@[k]) > 0,
        decreases values.len() - i,
    {
        if values[i] == 0 {
            assert(values@[i as int] == 0);
            return Err(SizesError::Zero);
        }
        i = i + 1;
    }
    let mut sizes: Vec<usize> = Vec::new();
    let mut i: usize = 0;
    assert(values@.take(0) =~= Seq::<usize>::empty());
    while i < values.len()
        invariant
            i <= values.len(),
            strictly_ascending(sizes@),
            forall|size: usize| #[trigger]
                sizes@.contains(size) == values@.take(i as int).contains(size),
        decreases values.len() - i,
    {
        let ghost before = sizes@;
        let value: usize = values[i];
        insert_size(&mut sizes, value);
        proof {
            let earlier = values@.take(i as int);
            let later = values@.take(i as int + 1);
            assert(later =~= earlier.push(value));
            assert forall|size: usize| #[trigger] sizes@.contains(size) == later.contains(size) by {
                if earlier.contains(size) {
                    let w = earlier.index_of(size);
                    assert(later[w] == size);
                }
                if later.contains(size) && size != value {
                    let w = later.index_of(size);
                    assert(earlier[w] == size);
                }
                assert(later[i as int] == value);
                assert(before.contains(size) == earlier.contains(size));
            }
        }
        i = i + 1;
    }
    assert(values@.take(i as int) =~= values@);
    Ok(sizes)
}

/// Puts a size in its place, unless it is there.
fn insert_size(sizes: &mut Vec<usize>, value: usize)
    requires
        strictly_ascending(old(sizes)@),
    ensures
        strictly_ascending(final(sizes)@),
        forall|size: usize| #[trigger]
            final(sizes)@.contains(size) == (old(sizes)@.contains(size) || size == value),
{
    let ghost before = sizes@;
    let mut at: usize = 0;
    while at < sizes.len() && sizes[at] < value
        invariant
            sizes@ == before,
            at <= sizes@.len(),
            forall|k: int| 0 <= k < at ==> (#[trigger] sizes@[k]) < value,
        decreases sizes.len() - at,
    {
        at = at + 1;
    }
    if at < sizes.len() && sizes[at] == value {
        assert(before[at as int] == value);
        return;
    }
    sizes.insert(at, value);
    proof {
        let after = sizes@;
        assert(after =~= before.insert(at as int, value));
        assert forall|i: int, j: int| 0 <= i < j < after.len() implies (#[trigger] after[i]) < (
        #[trigger] after[j]) by {
            if j < at {
                assert(after[i] == before[i] && after[j] == before[j]);
            } else if j == at {
                assert(after[i] == before[i]);
            } else {
                assert(after[j] == before[j - 1]);
                assert(before[at as int] > value);
                if i < at {
                    assert(after[i] == before[i]);
                } else if i > at {
                    assert(after[i] == before[i - 1]);
                } else if j - 1 > at {
                    assert(before[at as int] < before[j - 1]);
                }
            }
        }
        assert forall|size: usize| #[trigger] after.contains(size) == (before.contains(size) || size
            == value) by {
            assert(after[at as int] == value);
            if before.contains(size) {
                let w = before.index_of(size);
                if w < at {
                    assert(after[w] == size);
                } else {
                    assert(after[w + 1] == size);
                }
            }
            if after.contains(size) && size != value {
                let w = after.index_of(size);
                if w < at {
                    assert(before[w] == size);
                } else {
                    assert(before[w - 1] == size);
                }
            }
        }
    }
}

/// The cells of a matrix: every output length for each prompt length in turn.
pub fn matrix_shapes(prompt_lens: &[usize], output_lens: &[usize]) -> (shapes: Vec<(usize, usize)>)
    requires
        prompt_lens@.len() * output_lens@.len() <= usize::MAX,
    ensures
        shapes@.len() == prompt_lens@.len() * output_lens@.len(),
        forall|k: int|
            0 <= k < shapes@.len() ==> #[trigger] shapes@[k] == (
                prompt_lens@[k / output_lens@.len() as int],
                output_lens@[k % output_lens@.len() as int],
            ),
{
    let ghost width = output_lens@.len() as int;
    let mut shapes: Vec<(usize, usize)> = Vec::new();
    let mut i: usize = 0;
    assert(0 * width == 0);
    while i < prompt_lens.len()
        invariant
            i <= prompt_lens.len(),
            width == output_lens@.len(),
            shapes@.len() == i * width,
            forall|k: int|
                0 <= k < shapes@.len() ==> #[trigger] shapes@[k] == (
                    prompt_lens@[k / width],
                    output_lens@[k % width],
                ),
        decreases prompt_lens.len() - i,
    {
        let mut j: usize = 0;
        assert((i + 1) * width == i * width + width) by (nonlinear_arith);
        while j < output_lens.len()
            invariant
                i < prompt_lens.len(),
                j <= output_lens.len(),
                width == output_lens@.len(),
                shapes@.len() == i * width + j,
                forall|k: int|
                    0 <= k < shapes@.len() ==> #[trigger] shapes@[k] == (
                        prompt_lens@[k / width],
                        output_lens@[k % width],
                    ),
            decreases output_lens.len() - j,
        {
            proof {
                let k = i * width + j;
                vstd::arithmetic::div_mod::lemma_fundamental_div_mod_converse(
                    k,
                    width,
                    i as int,
                    j as int,
                );
            }
            shapes.push((prompt_lens[i], output_lens[j]));
            j = j + 1;
        }
        i = i + 1;
    }
    shapes
}

/// The parallel layout a snapshot was measured under.
pub fn parallel_text(tp_size: usize, dp_size: usize, backend: &str) -> (s: String)
    ensures
        s@ == "tp"@ + decimal(tp_size as nat) + "-dp"@ + decimal(dp_size as nat) + "-"@ + backend@,
{
    let mut s = String::from_str("tp");
    push_size(&mut s, tp_size);
    s.append("-dp");
    push_size(&mut s, dp_size);
    s.append("-");
    s.append(backend);
    s
}

/// The salt of one iteration of a cold prefill. Measured iterations count up from
/// one and warm-up iterations from a hundred thousand.
pub fn cold_prefill_salt(warmup: bool, iteration: usize) -> (salt: usize)
    requires
        iteration <= usize::MAX - 100_000,
    ensures
        salt == (if warmup {
            100_000 + iteration
        } else {
            iteration + 1
        }),
{
    if warmup {
        100_000 + iteration
    } else {
        iteration + 1
    }
}

/// How a model is loaded for a benchmark.
pub struct LoadPlan {
    pub options: EngineLoadOptions,
    /// Whether the report says that decode steps were captured as graphs.
    pub cuda_graph: bool,
    /// The model is driven directly, with per-token attribution, and has no
    /// scheduler.
    pub by_attribution: bool,
    /// The batch capacity to ask for, where the model takes one.
    pub capacity: Option<usize>,
}

/// The layout asked for on the command line, which one model line honors.
#[derive(Clone, Copy, Debug, PartialEq, Eq, Structural)]
pub struct KimiLayout {
    pub parallel: ParallelConfig,
    /// The devices that the layout takes.
    pub ep_world: usize,
    pub ep_backend: EpBackend,
}

/// The devices a model line runs on: the first so many.
pub open spec fn device_count(model_type: ModelType, layout: KimiLayout) -> nat {
    match model_type {
        ModelType::DeepSeekV2Lite => 2,
        ModelType::DeepSeekV4 => 8,
        ModelType::KimiK2 => layout.ep_world as nat,
        ModelType::Qwen3 => 1,
        ModelType::Qwen35 => 1,
    }
}

/// Whether a model line can capture decode steps as graphs.
pub open spec fn captures_graphs(model_type: ModelType) -> bool {
    !(model_type is DeepSeekV2Lite || model_type is DeepSeekV4)
}

fn first_devices(count: usize) -> (ordinals: Vec<usize>)
    ensures
        ordinals@ == Seq::new(count as nat, |i: int| i as usize),
{
    let mut ordinals: Vec<usize> = Vec::new();
    let mut i: usize = 0;
    while i < count
        invariant
            i <= count,
            ordinals@ == Seq::new(i as nat, |k: int| k as usize),
        decreases count - i,
    {
        ordinals.push(i);
        i = i + 1;
        assert(ordinals@ =~= Seq::new(i as nat, |k: int| k as usize));
    }
    ordinals
}

pub fn load_plan(model_type: ModelType, cuda_graph: bool, layout: &KimiLayout, seed: u64) -> (r:
    LoadPlan)
    ensures
        r.options.enable_cuda_graph == (cuda_graph && captures_graphs(model_type)),
        r.options.device_ordinals@ == Seq::new(
            device_count(model_type, *layout),
            |i: int| i as usize,
        ),
        r.options.parallel_config == (if model_type is KimiK2 {
            Some(layout.parallel)
        } else {
            None
        }),
        r.options.ep_backend == (if model_type is KimiK2 {
            layout.ep_backend
        } else {
            EpBackend::Nccl
        }),
        r.options.seed == seed,
        r.cuda_graph == r.options.enable_cuda_graph,
        r.by_attribution == (model_type is DeepSeekV2Lite),
        r.capacity == (if model_type is Qwen35 {
            Some(4usize)
        } else {
            None
        }),
{
    let (devices, graphs): (usize, bool) = match model_type {
        ModelType::DeepSeekV2Lite => (2, false),
        ModelType::DeepSeekV4 => (8, false),
        ModelType::KimiK2 => (layout.ep_world, cuda_graph),
        ModelType::Qwen3 => (1, cuda_graph),
        ModelType::Qwen35 => (1, cuda_graph),
    };
    let (parallel_config, ep_backend) = match model_type {
        ModelType::KimiK2 => (Some(layout.parallel), layout.ep_backend),
        _ => (None, EpBackend::Nccl),
    };
    LoadPlan {
        options: EngineLoadOptions {
            enable_cuda_graph: graphs,
            device_ordinals: first_devices(devices),
            parallel_config,
            ep_backend,
            seed,
        },
        cuda_graph: graphs,
        by_attribution: matches!(model_type, ModelType::DeepSeekV2Lite),
        capacity: if matches!(model_type, ModelType::Qwen35) {
            Some(4)
        } else {
            None
        },
    }
}

/// A batch is taken exactly when it is not empty and, where the model is driven by
/// attribution, has no more rows than that can run at once.
pub proof fn lemma_concurrency_verdict(by_attribution: bool, concurrency: usize)
    ensures
        concurrency_error(by_attribution, concurrency) is None <==> concurrency > 0 && (
        by_attribution ==> concurrency <= 8),
        concurrency_error(by_attribution, concurrency) matches Some(error) ==> (by_attribution
            <==> error == BenchError::AttributionConcurrency { concurrency }),
        concurrency_error(by_attribution, concurrency) matches Some(error) ==> (!by_attribution
            <==> error == BenchError::Concurrency),
{
}

/// A measurement starts exactly when it has output, a batch that is taken, and iterations.
pub proof fn lemma_measurement_verdict(
    by_attribution: bool,
    prompts: usize,
    output_len: usize,
    run: RunArgs,
    r: Result<(), BenchError>,
)
    requires
        call_ensures(validate_measurement, (by_attribution, prompts, output_len, &run), r),
    ensures
        r is Ok <==> output_len > 0 && prompts > 0 && (by_attribution ==> prompts <= 8) && run.iters
            > 0,
{
}

/// No size is lost, made up or repeated, and how the sizes were given does not matter.
pub proof fn lemma_sizes_ignore_order(
    a: &[usize],
    b: &[usize],
    x: Vec<usize>,
    y: Vec<usize>,
)
    requires
        call_ensures(normalize_sizes, (a,), Ok(x)),
        call_ensures(normalize_sizes, (b,), Ok(y)),
        forall|size: usize| a@.contains(size) == b@.contains(size),
    ensures
        x@ == y@,
        forall|size: usize| x@.contains(size) == a@.contains(size),
{
    assert forall|size: usize| x@.contains(size) == y@.contains(size) by {
        assert(x@.contains(size) == a@.contains(size));
        assert(y@.contains(size) == b@.contains(size));
    }
    lemma_ascending_is_unique(x@, y@);
}

proof fn lemma_ascending_is_unique(x: Seq<usize>, y: Seq<usize>)
    requires
        strictly_ascending(x),
        strictly_ascending(y),
        forall|size: usize| x.contains(size) == y.contains(size),
    ensures
        x == y,
    decreases x.len(),
{
    if x.len() == 0 {
        if y.len() > 0 {
            assert(y.contains(y[0]));
            assert(x.contains(y[0]));
        }
        assert(x =~= y);
    } else {
        let (n, m) = (x.len() - 1, y.len() - 1);
        assert(x.contains(x[n]));
        assert(y.contains(x[n]));
        let i = y.index_of(x[n]);
        assert(y.contains(y[m]));
        assert(x.contains(y[m]));
        let j = x.index_of(y[m]);
        assert(x[n] == y[m]) by {
            if i < m {
                assert(y[i] < y[m]);
            }
            if j < n {
                assert(x[j] < x[n]);
            }
        }
        let (a, b) = (x.drop_last(), y.drop_last());
        assert forall|size: usize| a.contains(size) == b.contains(size) by {
            assert(x.contains(size) == y.contains(size));
            if a.contains(size) {
                let k = a.index_of(size);
                assert(x[k] == size && x[k] < x[n]);
                assert(x.contains(size));
                let l = y.index_of(size);
                assert(b[l] == size);
            }
            if b.contains(size) {
                let k = b.index_of(size);
                assert(y[k] == size && y[k] < y[m]);
                assert(y.contains(size));
                let l = x.index_of(size);
                assert(a[l] == size);
            }
        }
        lemma_ascending_is_unique(a, b);
        assert(x =~= a.push(x[n]));
        assert(y =~= b.push(y[m]));
    }
}

/// Every pair of a prompt length and an output length is one cell of a matrix.
pub proof fn lemma_every_cell_is_there(
    prompt_lens: &[usize],
    output_lens: &[usize],
    shapes: Vec<(usize, usize)>,
    i: int,
    j: int,
)
    requires
        call_ensures(matrix_shapes, (prompt_lens, output_lens), shapes),
        0 <= i < prompt_lens@.len(),
        0 <= j < output_lens@.len(),
    ensures
        0 <= i * output_lens@.len() + j < shapes@.len(),
        shapes@[i * output_lens@.len() + j] == (prompt_lens@[i], output_lens@[j]),
{
    let width = output_lens@.len() as int;
    let k = i * width + j;
    assert(0 <= k < prompt_lens@.len() * width) by (nonlinear_arith)
        requires
            0 <= i < prompt_lens@.len(),
            0 <= j < width,
            k == i * width + j,
    ;
    vstd::arithmetic::div_mod::lemma_fundamental_div_mod_converse(k, width, i, j);
}

/// No iteration of a cold prefill shares its salt with another: neither two that are
/// measured or two that warm up, nor one of each.
pub proof fn lemma_cold_iterations_have_their_own_salts(
    a: (bool, usize),
    b: (bool, usize),
    x: usize,
    y: usize,
)
    requires
        call_ensures(cold_prefill_salt, a, x),
        call_ensures(cold_prefill_salt, b, y),
        a != b,
        !a.0 ==> a.1 < 99_999,
        !b.0 ==> b.1 < 99_999,
    ensures
        x != y,
{
}

/// Decode steps are captured as graphs exactly where that was asked for and the model line
/// can; the devices are the first ones, each once; a layout is handed on to the one line
/// that takes it.
pub proof fn lemma_load_plan_verdict(
    model_type: ModelType,
    cuda_graph: bool,
    layout: KimiLayout,
    seed: u64,
    r: LoadPlan,
    i: int,
)
    requires
        call_ensures(load_plan, (model_type, cuda_graph, &layout, seed), r),
        0 <= i < r.options.device_ordinals@.len() <= usize::MAX,
    ensures
        r.options.enable_cuda_graph <==> cuda_graph && (model_type is KimiK2 || model_type is Qwen3
            || model_type is Qwen35),
        r.cuda_graph == r.options.enable_cuda_graph,
        r.options.device_ordinals@[i] == i,
        r.options.parallel_config is Some <==> model_type is KimiK2,
        model_type is KimiK2 ==> r.options.device_ordinals@.len() == layout.ep_world
            && r.options.parallel_config == Some(layout.parallel) && r.options.ep_backend
            == layout.ep_backend,
        model_type is Qwen3 || model_type is Qwen35 ==> r.options.device_ordinals@.len() == 1,
        r.by_attribution <==> model_type is DeepSeekV2Lite,
        r.capacity is Some <==> model_type is Qwen35,
        r.options.seed == seed,
{
}

} // verus!
