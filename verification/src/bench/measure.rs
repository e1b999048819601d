//! From timings to the numbers of a report.
use vstd::prelude::*;
use crate::arith::lemma_ceil_div_is_least;
use crate::bench::stats::{
    aggregate_tok_s, is_count_summary, is_summary, lemma_count_prefix, lemma_mean_is_of_the_total,
    opt_summarize, summarizable, summarize_counts, summarize_durations, total_count, CountStats,
    DurationStats, Rate,
};
use crate::bench::time::{sum, total_of, Duration, MAX_NANOS};
use crate::bench::timings::GenTimings;
use crate::bench::trace::{generated_token_trace, is_trace, GeneratedTokenTrace};

verus! {

pub struct RequestMetrics {
    pub ttft: DurationStats,
    pub first_decode_step: Option<DurationStats>,
    pub steady_tpot: Option<DurationStats>,
    pub e2e: DurationStats,
    pub generated_tokens: CountStats,
    pub generated_token_traces: Vec<GeneratedTokenTrace>,
    pub request_rate: Option<Rate>,
    pub decode_rate: Option<Rate>,
}

pub open spec fn ttfts_of(timings: Seq<GenTimings>) -> Seq<Duration> {
    timings.map_values(|t: GenTimings| t.ttft)
}

pub open spec fn totals_of(timings: Seq<GenTimings>) -> Seq<Duration> {
    timings.map_values(|t: GenTimings| t.total)
}

pub open spec fn decode_times_of(timings: Seq<GenTimings>) -> Seq<Duration> {
    timings.map_values(|t: GenTimings| t.decode_time_for_rate)
}

pub open spec fn emitted_of(timings: Seq<GenTimings>) -> Seq<usize> {
    timings.map_values(|t: GenTimings| t.emitted_tokens)
}

pub open spec fn decode_tokens_of(timings: Seq<GenTimings>) -> Seq<usize> {
    timings.map_values(|t: GenTimings| t.decode_tokens_for_rate)
}

/// The first decode step of each generation that has one.
pub open spec fn first_steps_of(timings: Seq<GenTimings>) -> Seq<Duration>
    decreases timings.len(),
{
    if timings.len() == 0 {
        Seq::empty()
    } else {
        let before = first_steps_of(timings.drop_last());
        let tbt = timings.last().tbt@;
        if tbt.len() == 0 {
            before
        } else {
            before.push(tbt[0])
        }
    }
}

/// The decode steps after the first.
pub open spec fn later_steps(tbt: Seq<Duration>) -> Seq<Duration> {
    if tbt.len() == 0 {
        Seq::empty()
    } else {
        tbt.skip(1)
    }
}

/// The decode steps after the first of each generation.
pub open spec fn steady_steps_of(timings: Seq<GenTimings>) -> Seq<Duration>
    decreases timings.len(),
{
    if timings.len() == 0 {
        Seq::empty()
    } else {
        steady_steps_of(timings.drop_last()) + later_steps(timings.last().tbt@)
    }
}

/// Samples that are either none or can be summarised.
pub open spec fn none_or_summarizable(samples: Seq<Duration>) -> bool {
    samples.len() > 0 ==> summarizable(samples)
}

/// Timings whose numbers can be reported.
pub open spec fn measurable(timings: Seq<GenTimings>) -> bool {
    &&& summarizable(ttfts_of(timings))
    &&& summarizable(totals_of(timings))
    &&& none_or_summarizable(first_steps_of(timings))
    &&& none_or_summarizable(steady_steps_of(timings))
    &&& total_of(decode_times_of(timings)) <= MAX_NANOS
    &&& total_count(emitted_of(timings)) <= usize::MAX
    &&& total_count(decode_tokens_of(timings)) <= usize::MAX
}

fn can_sum(samples: &[Duration]) -> (r: bool)
    ensures
        r == (total_of(samples@) <= MAX_NANOS),
{
    let mut total: u128 = 0;
    let mut i: usize = 0;
    assert(samples@.take(0) =~= Seq::<Duration>::empty());
    while i < samples.len()
        invariant
            i <= samples.len(),
            total == total_of(samples@.take(i as int)),
            total <= MAX_NANOS,
        decreases samples.len() - i,
    {
        proof {
            assert(samples@.take(i as int + 1).drop_last() =~= samples@.take(i as int));
            crate::bench::time::lemma_total_prefix(samples@, i as int + 1);
        }
        let nanos: u128 = samples[i].nanos();
        if nanos > MAX_NANOS - total {
            return false;
        }
        total = total + nanos;
        i = i + 1;
    }
    assert(samples@.take(i as int) =~= samples@);
    true
}

/// Whether samples can be summarised.
pub fn can_summarize(samples: &[Duration]) -> (r: bool)
    ensures
        r == summarizable(samples@),
{
    samples.len() > 0 && samples.len() <= 4_294_967_295 && can_sum(samples)
}

fn can_count(counts: &[usize]) -> (r: bool)
    ensures
        r == (total_count(counts@) <= usize::MAX),
{
    let mut total: usize = 0;
    let mut i: usize = 0;
    assert(counts@.take(0) =~= Seq::<usize>::empty());
    while i < counts.len()
        invariant
            i <= counts.len(),
            total == total_count(counts@.take(i as int)),
        decreases counts.len() - i,
    {
        proof {
            assert(counts@.take(i as int + 1).drop_last() =~= counts@.take(i as int));
            lemma_count_prefix(counts@, i as int + 1);
        }
        if counts[i] > usize::MAX - total {
            return false;
        }
        total = total + counts[i];
        i = i + 1;
    }
    assert(counts@.take(i as int) =~= counts@);
    true
}

/// The samples of timings, list by list.
struct Samples {
    ttfts: Vec<Duration>,
    totals: Vec<Duration>,
    decode_times: Vec<Duration>,
    first_steps: Vec<Duration>,
    steady: Vec<Duration>,
    emitted: Vec<usize>,
    decode_tokens: Vec<usize>,
}

impl Samples {
    spec fn of(self, timings: Seq<GenTimings>) -> bool {
        &&& self.ttfts@ == ttfts_of(timings)
        &&& self.totals@ == totals_of(timings)
        &&& self.decode_times@ == decode_times_of(timings)
        &&& self.first_steps@ == first_steps_of(timings)
        &&& self.steady@ == steady_steps_of(timings)
        &&& self.emitted@ == emitted_of(timings)
        &&& self.decode_tokens@ == decode_tokens_of(timings)
    }
}

fn push_later_steps(out: &mut Vec<Duration>, tbt: &Vec<Duration>)
    ensures
        final(out)@ == old(out)@ + later_steps(tbt@),
{
    let ghost before = out@;
    if tbt.len() == 0 {
        assert(before + Seq::<Duration>::empty() =~= before);
        return;
    }
    let ghost later = tbt@.skip(1);
    let mut i: usize = 1;
    assert(before + later.take(0) =~= before);
    while i < tbt.len()
        invariant
            1 <= i <= tbt.len(),
            later == tbt@.skip(1),
            out@ == before + later.take(i - 1),
        decreases tbt.len() - i,
    {
        out.push(tbt[i]);
        assert(later.take(i as int) =~= later.take(i - 1).push(tbt@[i as int]));
        i = i + 1;
    }
    assert(later.take(i - 1) =~= later);
}

fn collect_samples(timings: &[GenTimings]) -> (s: Samples)
    ensures
        s.of(timings@),
{
    let mut s = Samples {
        ttfts: Vec::new(),
        totals: Vec::new(),
        decode_times: Vec::new(),
        first_steps: Vec::new(),
        steady: Vec::new(),
        emitted: Vec::new(),
        decode_tokens: Vec::new(),
    };
    let ghost all = timings@;
    let mut i: usize = 0;
    proof {
        assert(all.take(0) =~= Seq::<GenTimings>::empty());
        assert(s.ttfts@ =~= ttfts_of(all.take(0)));
        assert(s.totals@ =~= totals_of(all.take(0)));
        assert(s.decode_times@ =~= decode_times_of(all.take(0)));
        assert(s.emitted@ =~= emitted_of(all.take(0)));
        assert(s.decode_tokens@ =~= decode_tokens_of(all.take(0)));
    }
    while i < timings.len()
        invariant
            i <= timings.len(),
            all == timings@,
            s.of(all.take(i as int)),
        decreases timings.len() - i,
    {
        let ghost done = all.take(i as int);
        let ghost next = all.take(i as int + 1);
        proof {
            assert(next.drop_last() =~= done);
            assert(next =~= done.push(all[i as int]));
        }
        let timing = &timings[i];
        s.ttfts.push(timing.ttft);
        s.totals.push(timing.total);
        s.decode_times.push(timing.decode_time_for_rate);
        if timing.tbt.len() > 0 {
            s.first_steps.push(timing.tbt[0]);
        }
        push_later_steps(&mut s.steady, &timing.tbt);
        s.emitted.push(timing.emitted_tokens);
        s.decode_tokens.push(timing.decode_tokens_for_rate);
        proof {
            assert(s.ttfts@ =~= ttfts_of(next));
            assert(s.totals@ =~= totals_of(next));
            assert(s.decode_times@ =~= decode_times_of(next));
            assert(s.emitted@ =~= emitted_of(next));
            assert(s.decode_tokens@ =~= decode_tokens_of(next));
        }
        i = i + 1;
    }
    assert(all.take(i as int) =~= all);
    s
}

/// Whether the numbers of timings can be reported.
pub fn can_measure(timings: &[GenTimings]) -> (r: bool)
    ensures
        r == measurable(timings@),
{
    let s = collect_samples(timings);
    can_summarize(s.ttfts.as_slice()) && can_summarize(s.totals.as_slice()) && (
    s.first_steps.is_empty() || can_summarize(s.first_steps.as_slice())) && (s.steady.is_empty()
        || can_summarize(s.steady.as_slice())) && can_sum(s.decode_times.as_slice()) && can_count(
        s.emitted.as_slice(),
    ) && can_count(s.decode_tokens.as_slice())
}

/// The rate of tokens over a span.
pub open spec fn rate_of(tokens: nat, nanos: nat, r: Option<Rate>) -> bool {
    match r {
        Some(rate) => tokens > 0 && nanos > 0 && rate.tokens == tokens && rate.time.spec_nanos()
            == nanos,
        None => tokens == 0 || nanos == 0,
    }
}

/// An optional summary: there is one where there are samples.
pub open spec fn is_opt_summary(stats: Option<DurationStats>, samples: Seq<Duration>) -> bool {
    match stats {
        Some(stats) => samples.len() > 0 && is_summary(stats, samples),
        None => samples.len() == 0,
    }
}

pub open spec fn are_traces(
    traces: Seq<GeneratedTokenTrace>,
    timings: Seq<GenTimings>,
) -> bool {
    &&& traces.len() == timings.len()
    &&& forall|i: int|
        0 <= i < timings.len() ==> is_trace(
            #[trigger] traces[i],
            timings[i].generated_tokens@,
        )
}

fn collect_traces(timings: &[GenTimings]) -> (traces: Vec<GeneratedTokenTrace>)
    ensures
        are_traces(traces@, timings@),
{
    let mut traces: Vec<GeneratedTokenTrace> = Vec::new();
    let mut i: usize = 0;
    while i < timings.len()
        invariant
            i <= timings.len(),
            traces@.len() == i,
            forall|k: int|
                0 <= k < i ==> is_trace(#[trigger] traces@[k], timings@[k].generated_tokens@),
        decreases timings.len() - i,
    {
        traces.push(generated_token_trace(timings[i].generated_tokens.as_slice()));
        i = i + 1;
    }
    traces
}

/// The numbers of a set of generations.
pub fn build_request_metrics(timings: &[GenTimings]) -> (r: RequestMetrics)
    requires
        measurable(timings@),
    ensures
        is_summary(r.ttft, ttfts_of(timings@)),
        is_summary(r.e2e, totals_of(timings@)),
        is_opt_summary(r.first_decode_step, first_steps_of(timings@)),
        is_opt_summary(r.steady_tpot, steady_steps_of(timings@)),
        is_count_summary(r.generated_tokens, emitted_of(timings@)),
        are_traces(r.generated_token_traces@, timings@),
        rate_of(
            total_count(emitted_of(timings@)),
            total_of(totals_of(timings@)),
            r.request_rate,
        ),
        rate_of(
            total_count(decode_tokens_of(timings@)),
            total_of(decode_times_of(timings@)),
            r.decode_rate,
        ),
{
    let s = collect_samples(timings);
    let generated_tokens = summarize_counts(s.emitted.as_slice());
    let decode_total: usize = if s.decode_tokens.is_empty() {
        0
    } else {
        summarize_counts(s.decode_tokens.as_slice()).total
    };
    RequestMetrics {
        ttft: summarize_durations(s.ttfts.as_slice()),
        first_decode_step: opt_summarize(s.first_steps.as_slice()),
        steady_tpot: opt_summarize(s.steady.as_slice()),
        e2e: summarize_durations(s.totals.as_slice()),
        generated_tokens,
        generated_token_traces: collect_traces(timings),
        request_rate: aggregate_tok_s(generated_tokens.total, sum(s.totals.as_slice())),
        decode_rate: aggregate_tok_s(decode_total, sum(s.decode_times.as_slice())),
    }
}

/// A snapshot keeps one trace: repeated prompts give the same one.
pub fn snapshot_metrics(metrics: RequestMetrics) -> (r: RequestMetrics)
    ensures
        r.ttft == metrics.ttft,
        r.first_decode_step == metrics.first_decode_step,
        r.steady_tpot == metrics.steady_tpot,
        r.e2e == metrics.e2e,
        r.generated_tokens == metrics.generated_tokens,
        r.request_rate == metrics.request_rate,
        r.decode_rate == metrics.decode_rate,
        r.generated_token_traces@ == (if metrics.generated_token_traces@.len() <= 1 {
            metrics.generated_token_traces@
        } else {
            metrics.generated_token_traces@.take(1)
        }),
{
    let mut traces = metrics.generated_token_traces;
    traces.truncate(1);
    RequestMetrics {
        ttft: metrics.ttft,
        first_decode_step: metrics.first_decode_step,
        steady_tpot: metrics.steady_tpot,
        e2e: metrics.e2e,
        generated_tokens: metrics.generated_tokens,
        generated_token_traces: traces,
        request_rate: metrics.request_rate,
        decode_rate: metrics.decode_rate,
    }
}

/// The numbers of one generation.
pub struct RequestIterationTiming {
    pub index: usize,
    pub ttft: Duration,
    pub first_decode_step: Option<Duration>,
    pub steady_tpot: Option<DurationStats>,
    pub e2e: Duration,
    pub generated_tokens: usize,
    pub generated_token_trace: GeneratedTokenTrace,
}

pub open spec fn is_iteration(r: RequestIterationTiming, timing: GenTimings, index: int) -> bool {
    &&& r.index == index
    &&& r.ttft == timing.ttft
    &&& r.first_decode_step == (if timing.tbt@.len() == 0 {
        None::<Duration>
    } else {
        Some(timing.tbt@[0])
    })
    &&& is_opt_summary(r.steady_tpot, later_steps(timing.tbt@))
    &&& r.e2e == timing.total
    &&& r.generated_tokens == timing.emitted_tokens
    &&& is_trace(r.generated_token_trace, timing.generated_tokens@)
}

/// The numbers of each generation.
pub fn build_request_iterations(timings: &[GenTimings]) -> (r: Vec<RequestIterationTiming>)
    requires
        forall|i: int|
            0 <= i < timings@.len() ==> none_or_summarizable(
                later_steps((#[trigger] timings@[i]).tbt@),
            ),
    ensures
        r@.len() == timings@.len(),
        forall|i: int|
            0 <= i < timings@.len() ==> is_iteration(#[trigger] r@[i], timings@[i], i),
{
    let mut iterations: Vec<RequestIterationTiming> = Vec::new();
    let mut i: usize = 0;
    while i < timings.len()
        invariant
            i <= timings.len(),
            iterations@.len() == i,
            forall|k: int|
                0 <= k < timings@.len() ==> none_or_summarizable(
                    later_steps((#[trigger] timings@[k]).tbt@),
                ),
            forall|k: int|
                0 <= k < i ==> is_iteration(#[trigger] iterations@[k], timings@[k], k),
        decreases timings.len() - i,
    {
        let timing = &timings[i];
        let mut steady: Vec<Duration> = Vec::new();
        push_later_steps(&mut steady, &timing.tbt);
        assert(steady@ =~= later_steps(timing.tbt@));
        assert(none_or_summarizable(later_steps(timings@[i as int].tbt@)));
        let first_decode_step = if timing.tbt.len() == 0 {
            None
        } else {
            Some(timing.tbt[0])
        };
        iterations.push(
            RequestIterationTiming {
                index: i,
                ttft: timing.ttft,
                first_decode_step,
                steady_tpot: opt_summarize(steady.as_slice()),
                e2e: timing.total,
                generated_tokens: timing.emitted_tokens,
                generated_token_trace: generated_token_trace(timing.generated_tokens.as_slice()),
            },
        );
        i = i + 1;
    }
    iterations
}

proof fn lemma_total_append(a: Seq<Duration>, b: Seq<Duration>)
    ensures
        total_of(a + b) == total_of(a) + total_of(b),
    decreases b.len(),
{
    if b.len() == 0 {
        assert(a + b =~= a);
    } else {
        assert((a + b).drop_last() =~= a + b.drop_last());
        lemma_total_append(a, b.drop_last());
    }
}

/// What can be reported of all generations can be reported of each.
pub proof fn lemma_each_iteration_is_measurable(timings: Seq<GenTimings>, i: int)
    requires
        measurable(timings),
        0 <= i < timings.len(),
    ensures
        none_or_summarizable(later_steps(timings[i].tbt@)),
{
    lemma_steady_bounds(timings, i);
}

proof fn lemma_steady_bounds(timings: Seq<GenTimings>, i: int)
    requires
        0 <= i < timings.len(),
    ensures
        later_steps(timings[i].tbt@).len() <= steady_steps_of(timings).len(),
        total_of(later_steps(timings[i].tbt@)) <= total_of(steady_steps_of(timings)),
    decreases timings.len(),
{
    let head = timings.drop_last();
    lemma_total_append(steady_steps_of(head), later_steps(timings.last().tbt@));
    if i < head.len() {
        lemma_steady_bounds(head, i);
    }
}

/// The decode step at one position, of each generation that reached it.
pub open spec fn steps_at(timings: Seq<GenTimings>, position: int) -> Seq<Duration>
    decreases timings.len(),
{
    if timings.len() == 0 {
        Seq::empty()
    } else {
        let before = steps_at(timings.drop_last(), position);
        let tbt = timings.last().tbt@;
        if position < tbt.len() {
            before.push(tbt[position])
        } else {
            before
        }
    }
}

/// The longest run of decode steps.
pub open spec fn positions_of(timings: Seq<GenTimings>) -> nat
    decreases timings.len(),
{
    if timings.len() == 0 {
        0
    } else {
        crate::arith::max_nat(positions_of(timings.drop_last()), timings.last().tbt@.len())
    }
}

proof fn lemma_steps_reached(timings: Seq<GenTimings>, position: int)
    requires
        0 <= position,
    ensures
        position < positions_of(timings) <==> steps_at(timings, position).len() > 0,
    decreases timings.len(),
{
    if timings.len() > 0 {
        lemma_steps_reached(timings.drop_last(), position);
    }
}

/// Decode steps by position.
pub fn steps_by_position(timings: &[GenTimings]) -> (r: Vec<Vec<Duration>>)
    ensures
        r@.len() == positions_of(timings@),
        forall|p: int| 0 <= p < r@.len() ==> (#[trigger] r@[p])@ == steps_at(timings@, p),
{
    let mut by_position: Vec<Vec<Duration>> = Vec::new();
    let ghost all = timings@;
    let mut t: usize = 0;
    assert(all.take(0) =~= Seq::<GenTimings>::empty());
    while t < timings.len()
        invariant
            t <= timings.len(),
            all == timings@,
            by_position@.len() == positions_of(all.take(t as int)),
            forall|p: int|
                0 <= p < by_position@.len() ==> (#[trigger] by_position@[p])@ == steps_at(
                    all.take(t as int),
                    p,
                ),
        decreases timings.len() - t,
    {
        let ghost done = all.take(t as int);
        let ghost next = all.take(t as int + 1);
        let tbt = &timings[t].tbt;
        proof {
            assert(next.drop_last() =~= done);
            assert(next.last() == all[t as int]);
        }
        let ghost width = by_position@.len();
        let mut i: usize = 0;
        while i < tbt.len()
            invariant
                t < timings.len(),
                i <= tbt@.len(),
                tbt@ == all[t as int].tbt@,
                width == positions_of(done),
                by_position@.len() == (if i > width {
                    i as nat
                } else {
                    width
                }),
                forall|p: int|
                    0 <= p < i ==> (#[trigger] by_position@[p])@ == steps_at(done, p).push(tbt@[p]),
                forall|p: int|
                    i <= p < by_position@.len() ==> (#[trigger] by_position@[p])@ == steps_at(
                        done,
                        p,
                    ),
            decreases tbt@.len() - i,
        {
            let ghost earlier = by_position@;
            if i >= by_position.len() {
                let fresh: Vec<Duration> = Vec::new();
                by_position.push(fresh);
                proof {
                    lemma_steps_reached(done, i as int);
                    assert(fresh@ =~= steps_at(done, i as int));
                }
            }
            assert(by_position@[i as int]@ == steps_at(done, i as int));
            by_position[i].push(tbt[i]);
            proof {
                assert forall|p: int| 0 <= p < i + 1 implies (#[trigger] by_position@[p])@
                    == steps_at(done, p).push(tbt@[p]) by {
                    if p < i {
                        assert(by_position@[p] == earlier[p]);
                    }
                }
            }
            i = i + 1;
        }
        proof {
            assert forall|p: int| 0 <= p < by_position@.len() implies (#[trigger] by_position@[p])@
                == steps_at(next, p) by {}
        }
        t = t + 1;
    }
    assert(all.take(t as int) =~= all);
    by_position
}

/// The decode steps of positions `from` to `to`, position by position.
pub open spec fn window_steps(timings: Seq<GenTimings>, from: int, to: int) -> Seq<Duration>
    decreases to - from,
{
    if to <= from {
        Seq::empty()
    } else {
        window_steps(timings, from, to - 1) + steps_at(timings, to - 1)
    }
}

/// One stretch of a curve.
#[derive(Clone, Copy, Debug)]
pub struct CurveWindow {
    pub ctx_start: usize,
    pub ctx_end: usize,
    pub tpot: DurationStats,
}

/// Where a window that starts at a position ends.
pub open spec fn window_end(from: int, window: int, positions: int) -> int {
    if from + window < positions {
        from + window
    } else {
        positions
    }
}

/// Every window of a curve can be summarised.
pub open spec fn windows_measurable(timings: Seq<GenTimings>, window: int) -> bool {
    forall|k: int|
        0 <= k && k * window < positions_of(timings) ==> summarizable(
            #[trigger] window_steps(
                timings,
                k * window,
                window_end(k * window, window, positions_of(timings) as int),
            ),
        )
}

pub open spec fn is_curve_window(
    r: CurveWindow,
    timings: Seq<GenTimings>,
    prompt_tokens: int,
    window: int,
    k: int,
) -> bool {
    let from = k * window;
    let to = window_end(from, window, positions_of(timings) as int);
    &&& r.ctx_start == prompt_tokens + from + 1
    &&& r.ctx_end == prompt_tokens + to
    &&& is_summary(r.tpot, window_steps(timings, from, to))
}

fn append_steps(out: &mut Vec<Duration>, steps: &Vec<Duration>)
    ensures
        final(out)@ == old(out)@ + steps@,
{
    let ghost before = out@;
    let mut i: usize = 0;
    assert(before + steps@.take(0) =~= before);
    while i < steps.len()
        invariant
            i <= steps.len(),
            out@ == before + steps@.take(i as int),
        decreases steps.len() - i,
    {
        out.push(steps[i]);
        assert(steps@.take(i as int + 1) =~= steps@.take(i as int).push(steps@[i as int]));
        i = i + 1;
    }
    assert(steps@.take(i as int) =~= steps@);
}

/// How decode steps lengthen with context: the steps of consecutive windows of
/// positions.
#[verifier::loop_isolation(false)]
pub fn curve_windows(timings: &[GenTimings], prompt_tokens: usize, window: usize) -> (r: Vec<
    CurveWindow,
>)
    requires
        window > 0,
        prompt_tokens + positions_of(timings@) <= usize::MAX,
        windows_measurable(timings@, window as int),
    ensures
        r@.len() == crate::arith::ceil_div(positions_of(timings@), window as nat),
        forall|k: int|
            0 <= k < r@.len() ==> is_curve_window(
                #[trigger] r@[k],
                timings@,
                prompt_tokens as int,
                window as int,
                k,
            ),
{
    let ghost all = timings@;
    let ghost w = window as int;
    let by_position = steps_by_position(timings);
    let positions: usize = by_position.len();
    let mut windows: Vec<CurveWindow> = Vec::new();
    let mut pos: usize = 0;
    assert(0 * w == 0);
    while pos < positions
        invariant
            pos <= positions,
            pos == positions || pos == windows@.len() * w,
            pos < positions ==> pos == windows@.len() * w,
            windows@.len() * w < positions + w,
            pos == positions ==> windows@.len() * w >= positions,
            forall|k: int|
                0 <= k < windows@.len() ==> is_curve_window(
                    #[trigger] windows@[k],
                    all,
                    prompt_tokens as int,
                    w,
                    k,
                ),
        decreases positions - pos,
    {
        let ghost k = windows@.len() as int;
        let end: usize = if window < positions - pos {
            pos + window
        } else {
            positions
        };
        let mut samples: Vec<Duration> = Vec::new();
        let mut i: usize = pos;
        assert(samples@ =~= window_steps(all, pos as int, pos as int));
        while i < end
            invariant
                pos <= i <= end,
                samples@ == window_steps(all, pos as int, i as int),
            decreases end - i,
        {
            append_steps(&mut samples, &by_position[i]);
            i = i + 1;
        }
        proof {
            assert(end == window_end(k * w, w, positions as int));
            assert(summarizable(window_steps(all, k * w, window_end(k * w, w, positions as int))));
            assert((k + 1) * w == k * w + w) by (nonlinear_arith);
        }
        windows.push(
            CurveWindow {
                ctx_start: prompt_tokens + pos + 1,
                ctx_end: prompt_tokens + end,
                tpot: summarize_durations(samples.as_slice()),
            },
        );
        pos = end;
    }
    proof {
        let n = windows@.len() as int;
        let p = positions as int;
        assert(n * w >= p);
        assert(n * w < p + w);
        assert((p + w - 1) / w == n) by (nonlinear_arith)
            requires
                w > 0,
                n * w >= p,
                n * w < p + w,
        ;
    }
    windows
}

/// The decode steps of a generation are split without loss: the first, followed by the
/// steady ones, are all of them.
pub proof fn lemma_first_and_steady_are_all(tbt: Seq<Duration>)
    ensures
        tbt.len() > 0 ==> seq![tbt[0]] + later_steps(tbt) == tbt,
        tbt.len() == 0 ==> later_steps(tbt).len() == 0,
{
    if tbt.len() > 0 {
        assert(seq![tbt[0]] + later_steps(tbt) =~= tbt);
    }
}

/// Generations that decoded at all.
pub open spec fn decoded(timings: Seq<GenTimings>) -> nat
    decreases timings.len(),
{
    if timings.len() == 0 {
        0
    } else {
        decoded(timings.drop_last()) + (if timings.last().tbt@.len() > 0 {
            1nat
        } else {
            0
        })
    }
}

/// Decode steps of all generations.
pub open spec fn all_steps(timings: Seq<GenTimings>) -> Seq<Duration>
    decreases timings.len(),
{
    if timings.len() == 0 {
        Seq::empty()
    } else {
        all_steps(timings.drop_last()) + timings.last().tbt@
    }
}

/// The steps of several generations are split without loss: one first step for each that
/// decoded, and all the others steady, so that their number is the sum of the steps less
/// one over the generations that decoded. Together they are the same samples, in number,
/// in total time and one by one.
pub proof fn lemma_steps_split_without_loss(timings: Seq<GenTimings>)
    ensures
        first_steps_of(timings).len() == decoded(timings),
        first_steps_of(timings).len() + steady_steps_of(timings).len() == all_steps(timings).len(),
        first_steps_of(timings).to_multiset().add(steady_steps_of(timings).to_multiset())
            == all_steps(timings).to_multiset(),
        total_of(first_steps_of(timings)) + total_of(steady_steps_of(timings)) == total_of(
            all_steps(timings),
        ),
    decreases timings.len(),
{
    broadcast use vstd::seq_lib::group_to_multiset_ensures;

    if timings.len() == 0 {
        assert(first_steps_of(timings).to_multiset().add(steady_steps_of(timings).to_multiset())
            =~= all_steps(timings).to_multiset());
    } else {
        let head = timings.drop_last();
        let tbt = timings.last().tbt@;
        lemma_steps_split_without_loss(head);
        lemma_total_append(all_steps(head), tbt);
        lemma_total_append(steady_steps_of(head), later_steps(tbt));
        vstd::seq_lib::lemma_multiset_commutative(all_steps(head), tbt);
        vstd::seq_lib::lemma_multiset_commutative(steady_steps_of(head), later_steps(tbt));
        if tbt.len() > 0 {
            lemma_first_and_steady_are_all(tbt);
            lemma_total_append(seq![tbt[0]], later_steps(tbt));
            assert(seq![tbt[0]].drop_last() =~= Seq::<Duration>::empty());
            reveal_with_fuel(total_of, 2);
            vstd::seq_lib::lemma_multiset_commutative(seq![tbt[0]], later_steps(tbt));
            let firsts = first_steps_of(head);
            assert(firsts.push(tbt[0]).drop_last() =~= firsts);
            assert(Seq::<Duration>::empty().push(tbt[0]) =~= seq![tbt[0]]);
            assert(first_steps_of(timings).to_multiset().add(
                steady_steps_of(timings).to_multiset(),
            ) =~= all_steps(timings).to_multiset());
        } else {
            assert(tbt =~= Seq::<Duration>::empty());
            assert(all_steps(timings) =~= all_steps(head));
            assert(steady_steps_of(timings) =~= steady_steps_of(head));
        }
    }
}

/// The steps at one position are those of the generations that reached it, each once and
/// in the order of the generations: adding a generation at the end adds its own step, and
/// none where it stopped before.
pub proof fn lemma_steps_at_count(timings: Seq<GenTimings>, position: int, i: int)
    requires
        0 <= position,
        0 <= i < timings.len(),
        position < timings[i].tbt@.len(),
    ensures
        ({
            let at = steps_at(timings.take(i), position).len() as int;
            &&& at < steps_at(timings, position).len()
            &&& steps_at(timings, position)[at] == timings[i].tbt@[position]
        }),
        steps_at(timings, position).len() <= timings.len(),
    decreases timings.len(),
{
    let head = timings.drop_last();
    lemma_steps_at_most_one_each(head, position);
    if i < head.len() {
        assert(head.take(i) =~= timings.take(i));
        lemma_steps_at_count(head, position, i);
    } else {
        assert(timings.take(i) =~= head);
    }
}

proof fn lemma_steps_at_most_one_each(timings: Seq<GenTimings>, position: int)
    ensures
        steps_at(timings, position).len() <= timings.len(),
    decreases timings.len(),
{
    if timings.len() > 0 {
        lemma_steps_at_most_one_each(timings.drop_last(), position);
    }
}

proof fn lemma_no_steps_beyond(timings: Seq<GenTimings>, position: int)
    requires
        position >= positions_of(timings),
    ensures
        steps_at(timings, position).len() == 0,
    decreases timings.len(),
{
    if timings.len() > 0 {
        lemma_no_steps_beyond(timings.drop_last(), position);
    }
}

/// The longest run bounds every generation's, and one of them reaches it.
pub proof fn lemma_positions_are_the_longest_run(timings: Seq<GenTimings>)
    ensures
        forall|i: int|
            0 <= i < timings.len() ==> (#[trigger] timings[i]).tbt@.len() <= positions_of(timings),
        timings.len() > 0 ==> exists|i: int|
            0 <= i < timings.len() && (#[trigger] timings[i]).tbt@.len() == positions_of(timings),
    decreases timings.len(),
{
    if timings.len() > 0 {
        let head = timings.drop_last();
        let n = timings.len() - 1;
        lemma_positions_are_the_longest_run(head);
        assert forall|i: int| 0 <= i < timings.len() implies (#[trigger] timings[i]).tbt@.len()
            <= positions_of(timings) by {
            if i < n {
                assert(head[i] == timings[i]);
            }
        }
        if positions_of(head) > timings[n].tbt@.len() {
            let i = choose|i: int|
                0 <= i < head.len() && (#[trigger] head[i]).tbt@.len() == positions_of(head);
            assert(timings[i] == head[i]);
        } else {
            assert(timings[n].tbt@.len() == positions_of(timings));
        }
    }
}

proof fn lemma_window_split(timings: Seq<GenTimings>, from: int, mid: int, to: int)
    requires
        from <= mid <= to,
    ensures
        window_steps(timings, from, to) == window_steps(timings, from, mid) + window_steps(
            timings,
            mid,
            to,
        ),
    decreases to - mid,
{
    if mid == to {
        assert(window_steps(timings, from, mid) + window_steps(timings, mid, to) =~= window_steps(
            timings,
            from,
            to,
        ));
    } else {
        lemma_window_split(timings, from, mid, to - 1);
        assert(window_steps(timings, from, to) =~= window_steps(timings, from, mid)
            + window_steps(timings, mid, to));
    }
}

/// The windows of a curve miss no position and share none: each starts where the one
/// before it ended, none is empty, only the last may be short, and the last ends where the
/// longest run does. Joined, their steps are those of all positions.
pub proof fn lemma_windows_cover_every_position(
    timings: Seq<GenTimings>,
    window: int,
    k: int,
)
    requires
        window > 0,
        0 <= k,
        k * window < positions_of(timings),
    ensures
        ({
            let positions = positions_of(timings) as int;
            let end = window_end(k * window, window, positions);
            &&& k * window < end <= positions
            &&& end < positions ==> end == (k + 1) * window
            &&& (k + 1) * window >= positions ==> end == positions
            &&& window_steps(timings, 0, end) == window_steps(timings, 0, k * window)
                + window_steps(timings, k * window, end)
        }),
{
    assert((k + 1) * window == k * window + window) by (nonlinear_arith);
    assert(k * window >= 0) by (nonlinear_arith)
        requires
            k >= 0,
            window > 0,
    ;
    lemma_window_split(
        timings,
        0,
        k * window,
        window_end(k * window, window, positions_of(timings) as int),
    );
}

/// The windows together hold every decode step: as many, over all positions, as the
/// generations made.
pub proof fn lemma_windows_hold_every_step(timings: Seq<GenTimings>, to: int)
    requires
        to >= positions_of(timings),
    ensures
        window_steps(timings, 0, to).len() == all_steps(timings).len(),
        total_of(window_steps(timings, 0, to)) == total_of(all_steps(timings)),
    decreases timings.len(),
{
    if timings.len() == 0 {
        lemma_empty_window(timings, to);
    } else {
        let head = timings.drop_last();
        lemma_windows_hold_every_step(head, to);
        lemma_window_of_one_more(timings, to);
        lemma_total_append(all_steps(head), timings.last().tbt@);
        assert(timings.last().tbt@.take(
            crate::arith::min_nat(to as nat, timings.last().tbt@.len()) as int,
        ) =~= timings.last().tbt@);
    }
}

proof fn lemma_empty_window(timings: Seq<GenTimings>, to: int)
    requires
        timings.len() == 0,
    ensures
        window_steps(timings, 0, to).len() == 0,
        total_of(window_steps(timings, 0, to)) == 0,
    decreases to,
{
    if to > 0 {
        lemma_empty_window(timings, to - 1);
    }
}

proof fn lemma_window_of_one_more(timings: Seq<GenTimings>, to: int)
    requires
        timings.len() > 0,
        to >= 0,
    ensures
        ({
            let tbt = timings.last().tbt@;
            let own = tbt.take(crate::arith::min_nat(to as nat, tbt.len()) as int);
            &&& window_steps(timings, 0, to).len() == window_steps(
                timings.drop_last(),
                0,
                to,
            ).len() + own.len()
            &&& total_of(window_steps(timings, 0, to)) == total_of(
                window_steps(timings.drop_last(), 0, to),
            ) + total_of(own)
        }),
    decreases to,
{
    let head = timings.drop_last();
    let tbt = timings.last().tbt@;
    let own = tbt.take(crate::arith::min_nat(to as nat, tbt.len()) as int);
    if to == 0 {
        assert(own =~= Seq::<Duration>::empty());
    } else {
        lemma_window_of_one_more(timings, to - 1);
        let earlier = tbt.take(crate::arith::min_nat((to - 1) as nat, tbt.len()) as int);
        lemma_total_append(window_steps(timings, 0, to - 1), steps_at(timings, to - 1));
        lemma_total_append(window_steps(head, 0, to - 1), steps_at(head, to - 1));
        if to - 1 < tbt.len() {
            assert(own =~= earlier.push(tbt[to - 1]));
            assert(own.drop_last() =~= earlier);
            let before = steps_at(head, to - 1);
            assert(before.push(tbt[to - 1]).drop_last() =~= before);
        } else {
            assert(own =~= earlier);
        }
    }
}

/// A rate is given exactly when there are tokens and time, and is then the tokens over the
/// time.
pub proof fn lemma_rate_verdict(tokens: nat, nanos: nat, r: Option<Rate>)
    requires
        rate_of(tokens, nanos, r),
    ensures
        r is Some <==> tokens > 0 && nanos > 0,
        r matches Some(rate) ==> rate.tokens == tokens && rate.time.spec_nanos() == nanos,
{
}

/// The numbers of a generation are its own: its times and tokens, its first decode step
/// where it has one, and a summary of all the later ones where there are any.
pub proof fn lemma_iterations_are_of_their_generations(
    timings: &[GenTimings],
    r: Vec<RequestIterationTiming>,
    i: int,
)
    requires
        call_ensures(build_request_iterations, (timings,), r),
        0 <= i < timings@.len(),
    ensures
        r@.len() == timings@.len(),
        ({
            let (iteration, timing) = (r@[i], timings@[i]);
            &&& iteration.index == i
            &&& iteration.ttft == timing.ttft
            &&& iteration.e2e == timing.total
            &&& iteration.generated_tokens == timing.emitted_tokens
            &&& iteration.generated_token_trace.len == timing.generated_tokens@.len()
            &&& iteration.first_decode_step is Some <==> timing.tbt@.len() > 0
            &&& timing.tbt@.len() > 0 ==> iteration.first_decode_step == Some(timing.tbt@[0])
            &&& iteration.steady_tpot is Some <==> timing.tbt@.len() > 1
            &&& iteration.steady_tpot matches Some(stats) ==> stats.samples + 1
                == timing.tbt@.len()
        }),
{
    let timing = timings@[i];
    assert(is_iteration(r@[i], timing, i));
    if let Some(stats) = r@[i].steady_tpot {
        if later_steps(timing.tbt@).len() > 0 {
            lemma_mean_is_of_the_total(stats, later_steps(timing.tbt@), 0);
        }
    }
}

/// The windows of a curve follow one another over the context: the first starts behind the
/// prompt, each starts behind the one before it, only the last may be short, and the last
/// ends at the longest run.
pub proof fn lemma_curve_windows_follow_one_another(
    timings: &[GenTimings],
    prompt_tokens: usize,
    window: usize,
    r: Vec<CurveWindow>,
    k: int,
)
    requires
        window > 0,
        call_ensures(curve_windows, (timings, prompt_tokens, window), r),
        0 <= k < r@.len(),
    ensures
        r@[0].ctx_start == prompt_tokens + 1,
        k + 1 < r@.len() ==> r@[k + 1].ctx_start == r@[k].ctx_end + 1,
        k + 1 < r@.len() ==> r@[k].ctx_end + 1 == r@[k].ctx_start + window,
        r@[k].ctx_start <= r@[k].ctx_end < r@[k].ctx_start + window,
        r@.last().ctx_end == prompt_tokens + positions_of(timings@),
{
    let positions = positions_of(timings@);
    let w = window as int;
    let n = r@.len() as int;
    assert(is_curve_window(r@[0], timings@, prompt_tokens as int, w, 0));
    assert(is_curve_window(r@[k], timings@, prompt_tokens as int, w, k));
    assert(is_curve_window(r@[n - 1], timings@, prompt_tokens as int, w, n - 1));
    if k + 1 < n {
        assert(is_curve_window(r@[k + 1], timings@, prompt_tokens as int, w, k + 1));
    }
    lemma_ceil_div_is_least(positions, window as nat, n as nat);
    lemma_ceil_div_is_least(positions, window as nat, (n - 1) as nat);
    assert((k + 1) * w == k * w + w) by (nonlinear_arith);
    assert((n - 1) * w + w == n * w) by (nonlinear_arith);
    assert(0 * w == 0);
    assert(k * w <= (n - 1) * w) by (nonlinear_arith)
        requires
            k <= n - 1,
            w > 0,
    ;
    if k + 1 < n {
        assert((k + 1) * w <= (n - 1) * w) by (nonlinear_arith)
            requires
                k + 1 <= n - 1,
                w > 0,
        ;
    }
}

} // verus!
