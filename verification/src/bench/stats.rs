//! Summaries of samples.
use vstd::prelude::*;
use crate::bench::time::{lemma_same_span, sum, total_of, Duration, MAX_NANOS};

verus! {

/// Samples in ascending order.
pub open spec fn ascending(samples: Seq<Duration>) -> bool {
    forall|i: int, j: int|
        0 <= i <= j < samples.len() ==> (#[trigger] samples[i]).spec_nanos() <= (
        #[trigger] samples[j]).spec_nanos()
}

/// The same samples, in ascending order.
pub open spec fn is_sorted_version(sorted: Seq<Duration>, samples: Seq<Duration>) -> bool {
    &&& ascending(sorted)
    &&& sorted.to_multiset() == samples.to_multiset()
}

/// There is only one way to order samples.
pub proof fn lemma_order_is_unique(a: Seq<Duration>, b: Seq<Duration>)
    requires
        ascending(a),
        ascending(b),
        a.to_multiset() == b.to_multiset(),
    ensures
        a == b,
    decreases a.len(),
{
    broadcast use vstd::seq_lib::group_to_multiset_ensures;

    assert(a.len() == b.len()) by {
        assert(a.to_multiset().len() == a.len());
        assert(b.to_multiset().len() == b.len());
    }
    if a.len() > 0 {
        let x = a.last();
        let y = b.last();
        assert(a.to_multiset().count(x) > 0) by {
            assert(a.contains(x));
        }
        assert(b.contains(x));
        let i = b.index_of(x);
        assert(b[i].spec_nanos() <= b[b.len() - 1].spec_nanos());
        assert(b.to_multiset().count(y) > 0) by {
            assert(b.contains(y));
        }
        assert(a.contains(y));
        let j = a.index_of(y);
        assert(a[j].spec_nanos() <= a[a.len() - 1].spec_nanos());
        lemma_same_span(x, y);
        let ha = a.drop_last();
        let hb = b.drop_last();
        assert(ha.push(x) =~= a);
        assert(hb.push(y) =~= b);
        assert(ha.to_multiset() =~= a.to_multiset().remove(x));
        assert(hb.to_multiset() =~= b.to_multiset().remove(y));
        assert forall|p: int, q: int| 0 <= p <= q < ha.len() implies (
        #[trigger] ha[p]).spec_nanos() <= (#[trigger] ha[q]).spec_nanos() by {
            assert(ha[p] == a[p] && ha[q] == a[q]);
        }
        assert forall|p: int, q: int| 0 <= p <= q < hb.len() implies (
        #[trigger] hb[p]).spec_nanos() <= (#[trigger] hb[q]).spec_nanos() by {
            assert(hb[p] == b[p] && hb[q] == b[q]);
        }
        lemma_order_is_unique(ha, hb);
    } else {
        assert(a =~= b);
    }
}

/// The samples in ascending order.
pub fn sort_durations(samples: &[Duration]) -> (sorted: Vec<Duration>)
    ensures
        is_sorted_version(sorted@, samples@),
        sorted@.len() == samples@.len(),
{
    let mut sorted: Vec<Duration> = Vec::new();
    let mut i: usize = 0;
    assert(samples@.take(0) =~= Seq::<Duration>::empty());
    while i < samples.len()
        invariant
            i <= samples.len(),
            sorted@.len() == i,
            is_sorted_version(sorted@, samples@.take(i as int)),
        decreases samples.len() - i,
    {
        let sample = samples[i];
        let mut low: usize = 0;
        let mut high: usize = sorted.len();
        while low < high
            invariant
                low <= high <= sorted@.len(),
                ascending(sorted@),
                forall|k: int|
                    0 <= k < low ==> (#[trigger] sorted@[k]).spec_nanos() <= sample.spec_nanos(),
                forall|k: int|
                    high <= k < sorted@.len() ==> (#[trigger] sorted@[k]).spec_nanos()
                        > sample.spec_nanos(),
            decreases high - low,
        {
            let middle: usize = low + (high - low) / 2;
            if sample.shorter_than(sorted[middle]) {
                high = middle;
            } else {
                low = middle + 1;
            }
        }
        let ghost before = sorted@;
        sorted.insert(low, sample);
        proof {
            broadcast use vstd::seq_lib::group_to_multiset_ensures;

            assert(samples@.take(i as int + 1) =~= samples@.take(i as int).push(sample));
            assert(sorted@ =~= before.insert(low as int, sample));
            assert(sorted@.remove(low as int) =~= before);
            assert(sorted@[low as int] == sample);
            assert(sorted@.contains(sample));
            assert(sorted@.to_multiset() =~= before.to_multiset().insert(sample));
            assert forall|p: int, q: int| 0 <= p <= q < sorted@.len() implies (
            #[trigger] sorted@[p]).spec_nanos() <= (#[trigger] sorted@[q]).spec_nanos() by {
                if q < low {
                    assert(sorted@[p] == before[p] && sorted@[q] == before[q]);
                } else if q == low {
                    if p < low {
                        assert(sorted@[p] == before[p]);
                    }
                } else {
                    assert(sorted@[q] == before[q - 1]);
                    if p < low {
                        assert(sorted@[p] == before[p]);
                    } else if p > low {
                        assert(sorted@[p] == before[p - 1]);
                    }
                }
            }
        }
        i = i + 1;
    }
    assert(samples@.take(i as int) =~= samples@);
    sorted
}

/// The place of a percentile: `pct` percent of the way to the last sample, to the
/// nearest place, the later one when halfway.
pub open spec fn percentile_place(pct: nat, n: nat) -> nat {
    ((pct * (n - 1) + 50) / 100) as nat
}

/// A percentile lies among the samples.
pub proof fn lemma_percentile_in_range(pct: nat, n: nat)
    requires
        pct <= 100,
        n > 0,
    ensures
        0 <= percentile_place(pct, n) < n,
{
    assert(pct * (n - 1) <= 100 * (n - 1)) by (nonlinear_arith)
        requires
            pct <= 100,
            n > 0,
    ;
    assert(pct * (n - 1) >= 0) by (nonlinear_arith)
        requires
            n > 0,
    ;
}

#[derive(Clone, Copy, Debug, PartialEq, Eq, Structural)]
pub struct DurationStats {
    pub avg: Duration,
    pub p50: Duration,
    pub p95: Duration,
    pub p99: Duration,
    pub max: Duration,
    pub samples: usize,
}

/// What a summary says of samples in ascending order.
pub open spec fn summarizes(stats: DurationStats, sorted: Seq<Duration>) -> bool {
    &&& stats.samples == sorted.len()
    &&& stats.avg.spec_nanos() == total_of(sorted) / sorted.len()
    &&& stats.p50 == sorted[percentile_place(50, sorted.len()) as int]
    &&& stats.p95 == sorted[percentile_place(95, sorted.len()) as int]
    &&& stats.p99 == sorted[percentile_place(99, sorted.len()) as int]
    &&& stats.max == sorted.last()
}

/// What a summary says of samples.
pub open spec fn is_summary(stats: DurationStats, samples: Seq<Duration>) -> bool {
    exists|sorted: Seq<Duration>|
        #[trigger] is_sorted_version(sorted, samples) && summarizes(stats, sorted)
}

/// Samples that can be summarised: there are some, they can be counted in the
/// divisor of a mean, and their sum is a span.
pub open spec fn summarizable(samples: Seq<Duration>) -> bool {
    &&& 0 < samples.len() <= u32::MAX
    &&& total_of(samples) <= MAX_NANOS
}

fn percentile(sorted: &Vec<Duration>, pct: usize) -> (r: Duration)
    requires
        0 < sorted@.len() <= u32::MAX,
        pct <= 100,
    ensures
        r == sorted@[percentile_place(pct as nat, sorted@.len()) as int],
{
    let n: usize = sorted.len();
    proof {
        lemma_percentile_in_range(pct as nat, n as nat);
        assert(pct * (n - 1) <= 100 * 0x1_0000_0000) by (nonlinear_arith)
            requires
                pct <= 100,
                0 < n <= 0xffff_ffff,
        ;
        assert(pct * (n - 1) >= 0) by (nonlinear_arith)
            requires
                n > 0,
        ;
    }
    let scaled: u64 = pct as u64 * (n - 1) as u64;
    let place: usize = ((scaled + 50) / 100) as usize;
    sorted[place]
}

/// The mean and the percentiles of samples in ascending order.
pub fn percentiles(sorted: &Vec<Duration>) -> (r: DurationStats)
    requires
        summarizable(sorted@),
    ensures
        summarizes(r, sorted@),
{
    let n: usize = sorted.len();
    let total = sum(sorted.as_slice());
    DurationStats {
        avg: total.split(n as u32),
        p50: percentile(sorted, 50),
        p95: percentile(sorted, 95),
        p99: percentile(sorted, 99),
        max: sorted[n - 1],
        samples: n,
    }
}

proof fn lemma_total_insert(spans: Seq<Duration>, at: int, span: Duration)
    requires
        0 <= at <= spans.len(),
    ensures
        total_of(spans.insert(at, span)) == total_of(spans) + span.spec_nanos(),
    decreases spans.len(),
{
    if at == spans.len() {
        assert(spans.insert(at, span).drop_last() =~= spans);
    } else {
        let head = spans.drop_last();
        assert(spans.insert(at, span).drop_last() =~= head.insert(at, span));
        lemma_total_insert(head, at, span);
    }
}

/// The order of samples does not change their sum.
pub proof fn lemma_total_ignores_order(a: Seq<Duration>, b: Seq<Duration>)
    requires
        a.to_multiset() == b.to_multiset(),
    ensures
        total_of(a) == total_of(b),
        a.len() == b.len(),
    decreases a.len(),
{
    broadcast use vstd::seq_lib::group_to_multiset_ensures;

    assert(a.to_multiset().len() == a.len());
    assert(b.to_multiset().len() == b.len());
    if a.len() > 0 {
        let x = a.last();
        assert(a.contains(x));
        assert(a.to_multiset().count(x) > 0);
        assert(b.to_multiset().count(x) > 0);
        assert(b.contains(x));
        let i = b.index_of(x);
        let rest = b.remove(i);
        let head = a.drop_last();
        assert(head.push(x) =~= a);
        assert(rest.insert(i, x) =~= b);
        lemma_total_insert(rest, i, x);
        assert(head.to_multiset() =~= a.to_multiset().remove(x));
        assert(rest.to_multiset() =~= b.to_multiset().remove(x));
        lemma_total_ignores_order(head, rest);
    }
}

pub fn summarize_durations(samples: &[Duration]) -> (r: DurationStats)
    requires
        summarizable(samples@),
    ensures
        is_summary(r, samples@),
{
    let sorted = sort_durations(samples);
    proof {
        lemma_total_ignores_order(sorted@, samples@);
    }
    percentiles(&sorted)
}

/// A summary of no samples is no summary.
pub fn opt_summarize(samples: &[Duration]) -> (r: Option<DurationStats>)
    requires
        samples@.len() > 0 ==> summarizable(samples@),
    ensures
        match r {
            Some(stats) => samples@.len() > 0 && is_summary(stats, samples@),
            None => samples@.len() == 0,
        },
{
    if samples.len() == 0 {
        None
    } else {
        Some(summarize_durations(samples))
    }
}

/// A summary does not depend on the order of the samples, and its percentiles
/// rise from the middle to the largest sample.
pub proof fn lemma_summary_is_of_the_samples(
    a: DurationStats,
    b: DurationStats,
    samples: Seq<Duration>,
    shuffled: Seq<Duration>,
)
    requires
        samples.len() > 0,
        samples.to_multiset() == shuffled.to_multiset(),
        is_summary(a, samples),
        is_summary(b, shuffled),
    ensures
        a == b,
        a.p50.spec_nanos() <= a.p95.spec_nanos(),
        a.p95.spec_nanos() <= a.p99.spec_nanos(),
        a.p99.spec_nanos() <= a.max.spec_nanos(),
        forall|i: int|
            0 <= i < samples.len() ==> (#[trigger] samples[i]).spec_nanos()
                <= a.max.spec_nanos(),
{
    broadcast use vstd::seq_lib::group_to_multiset_ensures;

    let x = choose|sorted: Seq<Duration>|
        #[trigger] is_sorted_version(sorted, samples) && summarizes(a, sorted);
    let y = choose|sorted: Seq<Duration>|
        #[trigger] is_sorted_version(sorted, shuffled) && summarizes(b, sorted);
    lemma_order_is_unique(x, y);
    lemma_same_span(a.avg, b.avg);
    let n = x.len();
    assert(x.to_multiset().len() == samples.to_multiset().len());
    lemma_percentile_in_range(50, n);
    lemma_percentile_in_range(95, n);
    lemma_percentile_in_range(99, n);
    assert(percentile_place(50, n) <= percentile_place(95, n));
    assert(percentile_place(95, n) <= percentile_place(99, n));
    assert forall|i: int| 0 <= i < samples.len() implies (#[trigger] samples[i]).spec_nanos()
        <= a.max.spec_nanos() by {
        assert(samples.contains(samples[i]));
        assert(samples.to_multiset().count(samples[i]) > 0);
        assert(x.contains(samples[i]));
        let k = x.index_of(samples[i]);
        assert(x[k].spec_nanos() <= x[n - 1].spec_nanos());
    }
}

/// Least, greatest and total of counts. The mean is the total by the samples.
#[derive(Clone, Copy, Debug, PartialEq, Eq, Structural)]
pub struct CountStats {
    pub min: usize,
    pub max: usize,
    pub total: usize,
    pub samples: usize,
}

pub open spec fn total_count(counts: Seq<usize>) -> nat
    decreases counts.len(),
{
    if counts.len() == 0 {
        0
    } else {
        total_count(counts.drop_last()) + counts.last() as nat
    }
}

pub(crate) proof fn lemma_count_prefix(counts: Seq<usize>, n: int)
    requires
        0 <= n <= counts.len(),
    ensures
        total_count(counts.take(n)) <= total_count(counts),
    decreases counts.len() - n,
{
    if n == counts.len() {
        assert(counts.take(n) =~= counts);
    } else {
        assert(counts.take(n + 1).drop_last() =~= counts.take(n));
        lemma_count_prefix(counts, n + 1);
    }
}

pub open spec fn is_count_summary(stats: CountStats, counts: Seq<usize>) -> bool {
    &&& counts.contains(stats.min)
    &&& counts.contains(stats.max)
    &&& forall|i: int|
        0 <= i < counts.len() ==> stats.min <= (#[trigger] counts[i]) <= stats.max
    &&& stats.total == total_count(counts)
    &&& stats.samples == counts.len()
}

pub fn summarize_counts(counts: &[usize]) -> (r: CountStats)
    requires
        counts@.len() > 0,
        total_count(counts@) <= usize::MAX,
    ensures
        is_count_summary(r, counts@),
{
    let mut min: usize = counts[0];
    let mut max: usize = counts[0];
    let mut total: usize = 0;
    let mut i: usize = 0;
    assert(counts@.take(0) =~= Seq::<usize>::empty());
    assert(counts@.contains(counts@[0]));
    while i < counts.len()
        invariant
            i <= counts.len(),
            counts@.len() > 0,
            total_count(counts@) <= usize::MAX,
            counts@.contains(min),
            counts@.contains(max),
            min <= max,
            forall|k: int| 0 <= k < i ==> min <= (#[trigger] counts@[k]) <= max,
            total == total_count(counts@.take(i as int)),
        decreases counts.len() - i,
    {
        proof {
            assert(counts@.take(i as int + 1).drop_last() =~= counts@.take(i as int));
            lemma_count_prefix(counts@, i as int + 1);
            assert(counts@.contains(counts@[i as int]));
        }
        if counts[i] < min {
            min = counts[i];
        }
        if counts[i] > max {
            max = counts[i];
        }
        total = total + counts[i];
        i = i + 1;
    }
    assert(counts@.take(i as int) =~= counts@);
    CountStats { min, max, total, samples: counts.len() }
}

/// Tokens over a span: a rate, unless one of the two is nothing.
#[derive(Clone, Copy, Debug, PartialEq, Eq, Structural)]
pub struct Rate {
    pub tokens: usize,
    pub time: Duration,
}

pub fn aggregate_tok_s(tokens: usize, total: Duration) -> (r: Option<Rate>)
    ensures
        r == (if tokens == 0 || total.spec_nanos() == 0 {
            None::<Rate>
        } else {
            Some(Rate { tokens, time: total })
        }),
{
    if tokens == 0 || total.is_zero() {
        None
    } else {
        Some(Rate { tokens, time: total })
    }
}

/// A percentile's place is the one nearest to that share of the way from the first sample
/// to the last: none is closer, and of two as close it is the later.
pub proof fn lemma_percentile_is_nearest(pct: nat, n: nat, place: int)
    requires
        n > 0,
    ensures
        ({
            let exact = pct * (n - 1);
            let off = if 100 * percentile_place(pct, n) >= exact {
                100 * percentile_place(pct, n) - exact
            } else {
                exact - 100 * percentile_place(pct, n)
            };
            let other = if 100 * place >= exact {
                100 * place - exact
            } else {
                exact - 100 * place
            };
            &&& off <= other
            &&& off == other ==> place <= percentile_place(pct, n)
        }),
{
    assert(pct * (n - 1) >= 0) by (nonlinear_arith)
        requires
            n > 0,
    ;
}

/// A mean is the largest span that, taken once for each sample, is no longer than all of
/// them together.
pub proof fn lemma_mean_is_of_the_total(
    stats: DurationStats,
    samples: Seq<Duration>,
    span: nat,
)
    requires
        samples.len() > 0,
        is_summary(stats, samples),
    ensures
        span <= stats.avg.spec_nanos() <==> span * samples.len() <= total_of(samples),
        stats.samples == samples.len(),
{
    let sorted = choose|sorted: Seq<Duration>|
        #[trigger] is_sorted_version(sorted, samples) && summarizes(stats, sorted);
    lemma_total_ignores_order(sorted, samples);
    let (total, n) = (total_of(samples), samples.len());
    let avg = stats.avg.spec_nanos();
    assert(avg == total / n);
    vstd::arithmetic::div_mod::lemma_fundamental_div_mod(total as int, n as int);
    vstd::arithmetic::div_mod::lemma_mod_bound(total as int, n as int);
    assert(avg * n <= total < avg * n + n) by (nonlinear_arith)
        requires
            total == n * avg + total % n,
            0 <= total % n < n,
    ;
    assert(span <= avg <==> span * n <= total) by (nonlinear_arith)
        requires
            avg * n <= total < avg * n + n,
            n > 0,
    ;
}

/// Every figure of a summary but the mean is one of the samples.
pub proof fn lemma_percentiles_are_samples(stats: DurationStats, samples: Seq<Duration>)
    requires
        samples.len() > 0,
        is_summary(stats, samples),
    ensures
        samples.contains(stats.p50),
        samples.contains(stats.p95),
        samples.contains(stats.p99),
        samples.contains(stats.max),
{
    broadcast use vstd::seq_lib::group_to_multiset_ensures;

    let sorted = choose|sorted: Seq<Duration>|
        #[trigger] is_sorted_version(sorted, samples) && summarizes(stats, sorted);
    let n = sorted.len();
    assert(sorted.to_multiset().len() == samples.to_multiset().len());
    lemma_percentile_in_range(50, n);
    lemma_percentile_in_range(95, n);
    lemma_percentile_in_range(99, n);
    assert forall|i: int| 0 <= i < n implies samples.contains(#[trigger] sorted[i]) by {
        assert(sorted.contains(sorted[i]));
        assert(sorted.to_multiset().count(sorted[i]) > 0);
    }
    assert(stats.max == sorted[n - 1]);
}

/// The total of counts takes each of them once, and lies between as many of the least and
/// as many of the greatest.
pub proof fn lemma_total_count_adds_up(a: Seq<usize>, b: Seq<usize>, count: usize)
    ensures
        total_count(a + b) == total_count(a) + total_count(b),
        total_count(seq![count]) == count,
        total_count(Seq::<usize>::empty()) == 0,
    decreases b.len(),
{
    reveal_with_fuel(total_count, 2);
    assert(seq![count].drop_last() =~= Seq::<usize>::empty());
    if b.len() == 0 {
        assert(a + b =~= a);
    } else {
        lemma_total_count_adds_up(a, b.drop_last(), count);
        assert((a + b).drop_last() =~= a + b.drop_last());
    }
}

/// There is a rate exactly where there are tokens and they took time, and it is of those
/// tokens over that time.
pub proof fn lemma_aggregate_rate_verdict(tokens: usize, total: Duration, r: Option<Rate>)
    requires
        call_ensures(aggregate_tok_s, (tokens, total), r),
    ensures
        r is Some <==> tokens > 0 && total.spec_nanos() > 0,
        r matches Some(rate) ==> rate.tokens == tokens && rate.time == total,
{
}

/// A summary of counts tells how many there are; its least and greatest bound each of
/// them, and are among them.
pub proof fn lemma_count_summary_bounds(counts: &[usize], stats: CountStats, i: int)
    requires
        counts@.len() > 0,
        call_ensures(summarize_counts, (counts,), stats),
        0 <= i < counts@.len(),
    ensures
        stats.samples == counts@.len(),
        stats.min <= counts@[i] <= stats.max,
        exists|k: int| 0 <= k < counts@.len() && (#[trigger] counts@[k]) == stats.min,
        exists|k: int| 0 <= k < counts@.len() && (#[trigger] counts@[k]) == stats.max,
        stats.min * stats.samples <= stats.total <= stats.max * stats.samples,
{
    assert(is_count_summary(stats, counts@));
    lemma_total_between(counts@, stats.min as nat, stats.max as nat);
    let k = counts@.index_of(stats.min);
    assert(counts@[k] == stats.min);
    let k = counts@.index_of(stats.max);
    assert(counts@[k] == stats.max);
}

proof fn lemma_total_between(counts: Seq<usize>, min: nat, max: nat)
    requires
        forall|i: int| 0 <= i < counts.len() ==> min <= (#[trigger] counts[i]) <= max,
    ensures
        min * counts.len() <= total_count(counts) <= max * counts.len(),
    decreases counts.len(),
{
    if counts.len() > 0 {
        let head = counts.drop_last();
        let n = head.len();
        assert forall|i: int| 0 <= i < head.len() implies min <= (#[trigger] head[i]) <= max by {
            assert(counts[i] == head[i]);
        }
        lemma_total_between(head, min, max);
        assert(counts[n as int] == counts.last());
        assert(min * (n + 1) == min * n + min) by (nonlinear_arith);
        assert(max * (n + 1) == max * n + max) by (nonlinear_arith);
    } else {
        assert(min * 0 == 0 && max * 0 == 0);
    }
}

} // verus!
