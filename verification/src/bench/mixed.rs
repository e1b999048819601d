//! Decode latency while long prompts arrive: background streams, injected prompts
//! and the gaps they cause.
use vstd::prelude::*;
use vstd::string::*;
use crate::bench::measure::is_opt_summary;
use crate::bench::stats::{is_summary, opt_summarize, summarizable, DurationStats};
use crate::bench::time::{elapsed, Duration};
use crate::bench::workload::{BenchError, RunArgs};
use crate::float_bits::{wide_in_unit, wide_in_unit_bits, wide_positive, wide_positive_bits};
use crate::text::{decimal, push_size};

verus! {

/// What a mixed-load run was asked for. The rate and the fraction are the bit
/// patterns of doubles.
#[derive(Clone, Copy, Debug, PartialEq, Eq, Structural)]
pub struct MixedArgs {
    pub bg_prompt_len: usize,
    pub bg_concurrency: usize,
    pub bg_output_len: usize,
    pub inj_prompt_len: usize,
    pub inj_output_len: usize,
    pub qps: u64,
    pub num_injections: usize,
    pub skip_baseline: bool,
    pub inj_warm_frac: u64,
    pub head_start_tokens: usize,
    pub run: RunArgs,
}

/// The first thing wrong with a mixed-load run.
pub open spec fn mixed_error(args: MixedArgs) -> Option<BenchError> {
    if args.bg_concurrency == 0 {
        Some(BenchError::BgConcurrency)
    } else if args.bg_prompt_len == 0 {
        Some(BenchError::BgPromptLen)
    } else if args.bg_output_len == 0 {
        Some(BenchError::BgOutputLen)
    } else if args.inj_prompt_len == 0 {
        Some(BenchError::InjPromptLen)
    } else if args.inj_output_len == 0 {
        Some(BenchError::InjOutputLen)
    } else if args.num_injections == 0 {
        Some(BenchError::NumInjections)
    } else if !wide_positive(args.qps) {
        Some(BenchError::Qps)
    } else if !wide_in_unit(args.inj_warm_frac) {
        Some(BenchError::WarmFrac)
    } else {
        None
    }
}

pub fn validate_mixed(args: &MixedArgs) -> (r: Result<(), BenchError>)
    ensures
        match mixed_error(*args) {
            Some(error) => r == Err::<(), BenchError>(error),
            None => r is Ok,
        },
{
    if args.bg_concurrency == 0 {
        return Err(BenchError::BgConcurrency);
    }
    if args.bg_prompt_len == 0 {
        return Err(BenchError::BgPromptLen);
    }
    if args.bg_output_len == 0 {
        return Err(BenchError::BgOutputLen);
    }
    if args.inj_prompt_len == 0 {
        return Err(BenchError::InjPromptLen);
    }
    if args.inj_output_len == 0 {
        return Err(BenchError::InjOutputLen);
    }
    if args.num_injections == 0 {
        return Err(BenchError::NumInjections);
    }
    if !wide_positive_bits(args.qps) {
        return Err(BenchError::Qps);
    }
    if !wide_in_unit_bits(args.inj_warm_frac) {
        return Err(BenchError::WarmFrac);
    }
    Ok(())
}

/// One background decode stream. Moments count from a common start.
pub struct BgStream {
    pub token_times: Vec<Duration>,
    /// The stream ran out of tokens before it was stopped.
    pub finished_early: bool,
}

impl BgStream {
    pub fn new() -> (r: Self)
        ensures
            r.token_times@.len() == 0,
            !r.finished_early,
    {
        BgStream { token_times: Vec::new(), finished_early: false }
    }

    pub fn on_token(&mut self, now: Duration)
        ensures
            final(self).token_times@ == old(self).token_times@.push(now),
            final(self).finished_early == old(self).finished_early,
    {
        self.token_times.push(now);
    }

    pub fn on_finished(&mut self)
        ensures
            final(self).token_times@ == old(self).token_times@,
            final(self).finished_early,
    {
        self.finished_early = true;
    }
}

/// What a run that waits for its background does next.
#[derive(Clone, Copy, Debug, PartialEq, Eq, Structural)]
pub enum HeadStart {
    Reached,
    TimedOut,
    Wait,
}

pub open spec fn all_reached(counters: Seq<usize>, target: usize) -> bool {
    forall|i: int| 0 <= i < counters.len() ==> (#[trigger] counters[i]) >= target
}

/// Whether every background stream is far enough for the injections to start.
pub fn head_start(
    counters: &[usize],
    target: usize,
    now: Duration,
    deadline: Duration,
) -> (r: HeadStart)
    ensures
        r == (if all_reached(counters@, target) {
            HeadStart::Reached
        } else if now.spec_nanos() >= deadline.spec_nanos() {
            HeadStart::TimedOut
        } else {
            HeadStart::Wait
        }),
{
    let mut i: usize = 0;
    let mut reached: bool = true;
    while i < counters.len()
        invariant
            i <= counters.len(),
            reached == (forall|k: int| 0 <= k < i ==> (#[trigger] counters@[k]) >= target),
        decreases counters.len() - i,
    {
        if counters[i] < target {
            reached = false;
        }
        i = i + 1;
    }
    if reached {
        HeadStart::Reached
    } else if now.shorter_than(deadline) {
        HeadStart::Wait
    } else {
        HeadStart::TimedOut
    }
}

/// A prompt to inject.
#[derive(Clone, Copy, Debug, PartialEq, Eq, Structural)]
pub struct Injection {
    pub index: usize,
    pub warm: bool,
    pub salt: usize,
}

/// What an injected prompt measured.
#[derive(Clone, Copy, Debug, PartialEq, Eq, Structural)]
pub struct InjectionRecord {
    pub index: usize,
    pub warm: bool,
    /// From submission to the last token.
    pub prefill: Duration,
    /// From the first submission to this one.
    pub arrival_offset: Duration,
}

/// Injects prompts one after the other. Warm ones share a prompt, cold ones each
/// have their own.
pub struct Injector {
    num_injections: usize,
    start: Duration,
    windows: Vec<(Duration, Duration)>,
    records: Vec<InjectionRecord>,
    overruns: usize,
}

/// The salt of an injection.
pub open spec fn injection_salt(num_injections: nat, index: nat, warm: bool) -> nat {
    if warm {
        num_injections + 100
    } else {
        index + 1
    }
}

impl Injector {
    pub closed spec fn goal(self) -> nat {
        self.num_injections as nat
    }

    pub closed spec fn start_spec(self) -> Duration {
        self.start
    }

    pub closed spec fn windows_spec(self) -> Seq<(Duration, Duration)> {
        self.windows@
    }

    pub closed spec fn records_spec(self) -> Seq<InjectionRecord> {
        self.records@
    }

    pub closed spec fn overruns_spec(self) -> nat {
        self.overruns as nat
    }

    pub open spec fn well_formed(self) -> bool {
        &&& self.goal() + 100 <= usize::MAX
        &&& self.windows_spec().len() == self.records_spec().len()
        &&& self.records_spec().len() <= self.goal()
        &&& self.overruns_spec() <= self.records_spec().len()
    }

    pub fn new(num_injections: usize, start: Duration) -> (r: Self)
        requires
            num_injections + 100 <= usize::MAX,
        ensures
            r.well_formed(),
            r.goal() == num_injections,
            r.start_spec() == start,
            r.records_spec().len() == 0,
            r.overruns_spec() == 0,
    {
        Injector {
            num_injections,
            start,
            windows: Vec::new(),
            records: Vec::new(),
            overruns: 0,
        }
    }

    /// The next prompt to inject, given whether it is to be a warm one.
    pub fn next_injection(&self, warm: bool) -> (r: Option<Injection>)
        requires
            self.well_formed(),
        ensures
            r == (if self.records_spec().len() < self.goal() {
                Some(
                    Injection {
                        index: self.records_spec().len() as usize,
                        warm,
                        salt: injection_salt(
                            self.goal(),
                            self.records_spec().len(),
                            warm,
                        ) as usize,
                    },
                )
            } else {
                None::<Injection>
            }),
    {
        let index: usize = self.records.len();
        if index < self.num_injections {
            let salt: usize = if warm {
                self.num_injections + 100
            } else {
                index + 1
            };
            Some(Injection { index, warm, salt })
        } else {
            None
        }
    }

    /// Records an injection that ran from `slot_start` to `last`. Returns how long
    /// to wait for the next slot; an injection that outlasts its slot is counted,
    /// unless it is the last.
    pub fn injected(
        &mut self,
        warm: bool,
        slot_start: Duration,
        last: Duration,
        now: Duration,
        period: Duration,
    ) -> (wait: Option<Duration>)
        requires
            old(self).well_formed(),
            old(self).records_spec().len() < old(self).goal(),
        ensures
            final(self).well_formed(),
            final(self).goal() == old(self).goal(),
            final(self).start_spec() == old(self).start_spec(),
            final(self).windows_spec() == old(self).windows_spec().push((slot_start, last)),
            final(self).records_spec().len() == old(self).records_spec().len() + 1,
            final(self).records_spec().drop_last() == old(self).records_spec(),
            ({
                let record = final(self).records_spec().last();
                &&& record.index == old(self).records_spec().len()
                &&& record.warm == warm
                &&& record.prefill.spec_nanos() == elapsed(last, slot_start)
                &&& record.arrival_offset.spec_nanos() == elapsed(
                    slot_start,
                    old(self).start_spec(),
                )
            }),
            ({
                let spent = elapsed(now, slot_start);
                if spent < period.spec_nanos() {
                    &&& wait matches Some(rest)
                    &&& rest.spec_nanos() == period.spec_nanos() - spent
                    &&& final(self).overruns_spec() == old(self).overruns_spec()
                } else {
                    &&& wait is None
                    &&& final(self).overruns_spec() == old(self).overruns_spec() + (if final(self).records_spec().len() < old(self).goal() {
                        1nat
                    } else {
                        0nat
                    })
                }
            }),
    {
        let index: usize = self.records.len();
        let ghost before = self.records@;
        self.windows.push((slot_start, last));
        self.records.push(
            InjectionRecord {
                index,
                warm,
                prefill: last.since(slot_start),
                arrival_offset: slot_start.since(self.start),
            },
        );
        assert(self.records@.drop_last() =~= before);
        let spent = now.since(slot_start);
        if spent.shorter_than(period) {
            Some(period.since(spent))
        } else {
            if index + 1 < self.num_injections {
                self.overruns = self.overruns + 1;
            }
            None
        }
    }

    pub fn start_moment(&self) -> (r: Duration)
        ensures
            r == self.start_spec(),
    {
        self.start
    }

    pub fn windows(&self) -> (r: &Vec<(Duration, Duration)>)
        ensures
            r@ == self.windows_spec(),
    {
        &self.windows
    }

    pub fn overruns(&self) -> (r: usize)
        ensures
            r == self.overruns_spec(),
    {
        self.overruns
    }

    pub fn into_records(self) -> (r: Vec<InjectionRecord>)
        ensures
            r@ == self.records_spec(),
    {
        self.records
    }
}

/// No two cold prompts share a salt, and none shares it with a warm one; all warm
/// prompts share theirs.
pub proof fn lemma_cold_salts_are_their_own(num_injections: nat, a: nat, b: nat)
    requires
        a < num_injections,
        b < num_injections,
        a != b,
    ensures
        injection_salt(num_injections, a, false) != injection_salt(num_injections, b, false),
        injection_salt(num_injections, a, false) != injection_salt(num_injections, b, true),
        injection_salt(num_injections, a, true) == injection_salt(num_injections, b, true),
{
}

/// A gap overlaps a prefill that was in flight.
pub open spec fn overlaps_any(
    a: Duration,
    b: Duration,
    windows: Seq<(Duration, Duration)>,
) -> bool {
    exists|i: int|
        0 <= i < windows.len() && a.spec_nanos() < (#[trigger] windows[i]).1.spec_nanos()
            && windows[i].0.spec_nanos() < b.spec_nanos()
}

pub fn gap_overlaps_any(a: Duration, b: Duration, windows: &Vec<(Duration, Duration)>) -> (r: bool)
    ensures
        r == overlaps_any(a, b, windows@),
{
    let mut i: usize = 0;
    while i < windows.len()
        invariant
            i <= windows.len(),
            forall|k: int|
                0 <= k < i ==> !(a.spec_nanos() < (#[trigger] windows@[k]).1.spec_nanos()
                    && windows@[k].0.spec_nanos() < b.spec_nanos()),
        decreases windows.len() - i,
    {
        if a.shorter_than(windows[i].1) && windows[i].0.shorter_than(b) {
            assert(overlaps_any(a, b, windows@));
            return true;
        }
        i = i + 1;
    }
    false
}

/// A gap `[a, b)` and windows `[s, e)` overlap where they have a moment in common, and,
/// where all of them take some time, nowhere else. A gap that takes no time overlaps the
/// windows that it lies strictly inside of.
pub proof fn lemma_overlap_is_a_common_moment(
    a: Duration,
    b: Duration,
    windows: Seq<(Duration, Duration)>,
)
    ensures
        (exists|i: int, moment: nat|
            0 <= i < windows.len() && a.spec_nanos() <= moment < b.spec_nanos() && #[trigger]
            within(windows[i], moment)) ==> overlaps_any(a, b, windows),
        a.spec_nanos() < b.spec_nanos() && (forall|i: int|
            0 <= i < windows.len() ==> (#[trigger] windows[i]).0.spec_nanos()
                < windows[i].1.spec_nanos()) && overlaps_any(a, b, windows) ==> exists|
            i: int,
            moment: nat,
        |
            0 <= i < windows.len() && a.spec_nanos() <= moment < b.spec_nanos() && #[trigger]
            within(windows[i], moment),
        a.spec_nanos() == b.spec_nanos() ==> (overlaps_any(a, b, windows) <==> exists|i: int|
            0 <= i < windows.len() && (#[trigger] windows[i]).0.spec_nanos() < a.spec_nanos()
                < windows[i].1.spec_nanos()),
{
    if overlaps_any(a, b, windows) {
        let i = choose|i: int|
            0 <= i < windows.len() && a.spec_nanos() < (#[trigger] windows[i]).1.spec_nanos()
                && windows[i].0.spec_nanos() < b.spec_nanos();
        let moment = if a.spec_nanos() < windows[i].0.spec_nanos() {
            windows[i].0.spec_nanos()
        } else {
            a.spec_nanos()
        };
        assert(windows[i].0.spec_nanos() < windows[i].1.spec_nanos() ==> within(
            windows[i],
            moment,
        ));
    }
}

/// A window covers a moment.
pub open spec fn within(window: (Duration, Duration), moment: nat) -> bool {
    window.0.spec_nanos() <= moment < window.1.spec_nanos()
}

/// The neighbouring moments of a stream.
pub open spec fn pairs_in(moments: Seq<Duration>) -> Seq<(Duration, Duration)> {
    if moments.len() == 0 {
        Seq::empty()
    } else {
        Seq::new((moments.len() - 1) as nat, |i: int| (moments[i], moments[i + 1]))
    }
}

/// The neighbouring moments of all streams.
pub open spec fn pairs_of(streams: Seq<BgStream>) -> Seq<(Duration, Duration)>
    decreases streams.len(),
{
    if streams.len() == 0 {
        Seq::empty()
    } else {
        pairs_of(streams.drop_last()) + pairs_in(streams.last().token_times@)
    }
}

/// The gaps among pairs that were hit by a prefill, or those that were not.
pub open spec fn hit_gaps(
    pairs: Seq<(Duration, Duration)>,
    windows: Seq<(Duration, Duration)>,
    hit: bool,
) -> Seq<nat>
    decreases pairs.len(),
{
    if pairs.len() == 0 {
        Seq::empty()
    } else {
        let before = hit_gaps(pairs.drop_last(), windows, hit);
        let (a, b) = pairs.last();
        if overlaps_any(a, b, windows) == hit {
            before.push(elapsed(b, a))
        } else {
            before
        }
    }
}

pub open spec fn gap_lengths(pairs: Seq<(Duration, Duration)>) -> Seq<nat> {
    pairs.map_values(|p: (Duration, Duration)| elapsed(p.1, p.0))
}

pub open spec fn lengths(spans: Seq<Duration>) -> Seq<nat> {
    spans.map_values(|d: Duration| d.spec_nanos())
}

/// Every gap of a run is either hit by a prefill or not.
pub proof fn lemma_gaps_split(
    pairs: Seq<(Duration, Duration)>,
    windows: Seq<(Duration, Duration)>,
)
    ensures
        hit_gaps(pairs, windows, true).len() + hit_gaps(pairs, windows, false).len()
            == pairs.len(),
        hit_gaps(pairs, windows, true).to_multiset().add(
            hit_gaps(pairs, windows, false).to_multiset(),
        ) == gap_lengths(pairs).to_multiset(),
    decreases pairs.len(),
{
    broadcast use vstd::seq_lib::group_to_multiset_ensures;

    if pairs.len() == 0 {
        assert(gap_lengths(pairs) =~= Seq::<nat>::empty());
        assert(hit_gaps(pairs, windows, true).to_multiset().add(
            hit_gaps(pairs, windows, false).to_multiset(),
        ) =~= gap_lengths(pairs).to_multiset());
    } else {
        let head = pairs.drop_last();
        let (a, b) = pairs.last();
        lemma_gaps_split(head, windows);
        assert(gap_lengths(pairs) =~= gap_lengths(head).push(elapsed(b, a)));
        assert(hit_gaps(pairs, windows, true).to_multiset().add(
            hit_gaps(pairs, windows, false).to_multiset(),
        ) =~= gap_lengths(pairs).to_multiset());
    }
}

/// The gaps of background streams, sorted by whether a prefill hit them.
pub struct Gaps {
    pub all: Vec<Duration>,
    pub steady: Vec<Duration>,
    pub stall: Vec<Duration>,
}

impl Gaps {
    pub open spec fn of(
        self,
        pairs: Seq<(Duration, Duration)>,
        windows: Seq<(Duration, Duration)>,
    ) -> bool {
        &&& lengths(self.all@) == gap_lengths(pairs)
        &&& lengths(self.stall@) == hit_gaps(pairs, windows, true)
        &&& lengths(self.steady@) == hit_gaps(pairs, windows, false)
    }
}

/// Collects the gaps of background streams.
pub fn collect_gaps(streams: &[BgStream], windows: &Vec<(Duration, Duration)>) -> (g: Gaps)
    ensures
        g.of(pairs_of(streams@), windows@),
{
    let mut g = Gaps { all: Vec::new(), steady: Vec::new(), stall: Vec::new() };
    let ghost all = streams@;
    let mut s: usize = 0;
    proof {
        assert(all.take(0) =~= Seq::<BgStream>::empty());
        assert(lengths(g.all@) =~= gap_lengths(Seq::empty()));
        assert(lengths(g.stall@) =~= Seq::<nat>::empty());
        assert(lengths(g.steady@) =~= Seq::<nat>::empty());
    }
    while s < streams.len()
        invariant
            s <= streams.len(),
            all == streams@,
            g.of(pairs_of(all.take(s as int)), windows@),
        decreases streams.len() - s,
    {
        let ghost done = pairs_of(all.take(s as int));
        let times = &streams[s].token_times;
        let ghost here = pairs_in(times@);
        proof {
            assert(all.take(s as int + 1).drop_last() =~= all.take(s as int));
            assert(all.take(s as int + 1).last() == all[s as int]);
            assert(done + here.take(0) =~= done);
        }
        let mut i: usize = 1;
        while i < times.len()
            invariant
                s < streams.len(),
                times@ == all[s as int].token_times@,
                here == pairs_in(times@),
                1 <= i,
                times@.len() > 0 ==> i <= times@.len(),
                g.of(
                    done + here.take(
                        if times@.len() == 0 {
                            0
                        } else {
                            i - 1
                        },
                    ),
                    windows@,
                ),
            decreases times@.len() - i,
        {
            let a = times[i - 1];
            let b = times[i];
            let ghost pairs = done + here.take(i - 1);
            let ghost more = done + here.take(i as int);
            let ghost before = (g.all@, g.stall@, g.steady@);
            proof {
                assert(here[i - 1] == (a, b));
                assert(more =~= pairs.push((a, b)));
                assert(more.drop_last() =~= pairs);
                assert(gap_lengths(more) =~= gap_lengths(pairs).push(elapsed(b, a)));
            }
            let gap = b.since(a);
            g.all.push(gap);
            assert(lengths(g.all@) =~= lengths(before.0).push(gap.spec_nanos()));
            if gap_overlaps_any(a, b, windows) {
                g.stall.push(gap);
                assert(lengths(g.stall@) =~= lengths(before.1).push(gap.spec_nanos()));
            } else {
                g.steady.push(gap);
                assert(lengths(g.steady@) =~= lengths(before.2).push(gap.spec_nanos()));
            }
            i = i + 1;
        }
        proof {
            if times@.len() > 0 {
                assert(here.take(here.len() as int) =~= here);
            } else {
                assert(here.take(0) =~= here);
            }
        }
        s = s + 1;
    }
    assert(all.take(s as int) =~= all);
    g
}

/// Latency between the tokens of background streams.
#[derive(Clone, Copy, Debug)]
pub struct MixedLoadItl {
    pub all: DurationStats,
    /// Gaps that no prefill hit.
    pub steady: Option<DurationStats>,
    /// Gaps that a prefill hit.
    pub stall: Option<DurationStats>,
    pub stall_gap_count: usize,
    pub total_gap_count: usize,
}

/// Gaps that can be summarised, list by list.
pub open spec fn gaps_measurable(g: Gaps) -> bool {
    &&& g.all@.len() > 0 ==> summarizable(g.all@)
    &&& g.steady@.len() > 0 ==> summarizable(g.steady@)
    &&& g.stall@.len() > 0 ==> summarizable(g.stall@)
}

/// Summarises gaps; no gaps, no summary.
pub fn build_mixed_itl(g: &Gaps) -> (r: Option<MixedLoadItl>)
    requires
        gaps_measurable(*g),
    ensures
        match r {
            Some(itl) => {
                &&& g.all@.len() > 0
                &&& is_summary(itl.all, g.all@)
                &&& is_opt_summary(itl.steady, g.steady@)
                &&& is_opt_summary(itl.stall, g.stall@)
                &&& itl.stall_gap_count == g.stall@.len()
                &&& itl.total_gap_count == g.all@.len()
            },
            None => g.all@.len() == 0,
        },
{
    match opt_summarize(g.all.as_slice()) {
        Some(all) => Some(
            MixedLoadItl {
                all,
                steady: opt_summarize(g.steady.as_slice()),
                stall: opt_summarize(g.stall.as_slice()),
                stall_gap_count: g.stall.len(),
                total_gap_count: g.all.len(),
            },
        ),
        None => None,
    }
}

/// What a reader decides from: the middle and the tail, with and without load.
#[derive(Clone, Copy, Debug, PartialEq, Eq, Structural)]
pub struct MixedDecisionInputs {
    pub baseline_p50: Option<Duration>,
    pub baseline_p99: Option<Duration>,
    pub mixed_p50: Duration,
    pub mixed_p99: Duration,
}

pub fn decision_inputs(mixed: &DurationStats, baseline: &Option<DurationStats>) -> (r:
    MixedDecisionInputs)
    ensures
        r.mixed_p50 == mixed.p50,
        r.mixed_p99 == mixed.p99,
        match baseline {
            Some(stats) => r.baseline_p50 == Some(stats.p50) && r.baseline_p99 == Some(stats.p99),
            None => r.baseline_p50 is None && r.baseline_p99 is None,
        },
{
    let (baseline_p50, baseline_p99) = match baseline {
        Some(stats) => (Some(stats.p50), Some(stats.p99)),
        None => (None, None),
    };
    MixedDecisionInputs {
        baseline_p50,
        baseline_p99,
        mixed_p50: mixed.p50,
        mixed_p99: mixed.p99,
    }
}

/// Streams that ran out before they were stopped.
pub open spec fn early_count(streams: Seq<BgStream>) -> nat
    decreases streams.len(),
{
    if streams.len() == 0 {
        0
    } else {
        early_count(streams.drop_last()) + (if streams.last().finished_early {
            1nat
        } else {
            0nat
        })
    }
}

pub fn count_early(streams: &[BgStream]) -> (n: usize)
    ensures
        n == early_count(streams@),
        n <= streams@.len(),
{
    let mut n: usize = 0;
    let mut i: usize = 0;
    assert(streams@.take(0) =~= Seq::<BgStream>::empty());
    while i < streams.len()
        invariant
            i <= streams.len(),
            n <= i,
            n == early_count(streams@.take(i as int)),
        decreases streams.len() - i,
    {
        assert(streams@.take(i as int + 1).drop_last() =~= streams@.take(i as int));
        if streams[i].finished_early {
            n = n + 1;
        }
        i = i + 1;
    }
    assert(streams@.take(i as int) =~= streams@);
    n
}

pub open spec fn head_start_text(tokens: nat) -> Seq<char> {
    "head-start of "@ + decimal(tokens)
        + " tokens not reached within 120s; injection started anyway"@
}

pub open spec fn overrun_text(overruns: nat, slot_ms: Seq<char>) -> Seq<char> {
    decimal(overruns) + " injection(s) overran the "@ + slot_ms
        + "ms QPS slot (prefill longer than 1/qps); arrivals were not evenly paced"@
}

pub open spec fn early_text(early: nat) -> Seq<char> {
    decimal(early)
        + " background stream(s) hit --bg-output-len before the run ended; raise --bg-output-len to keep steady-state concurrency constant"@
}

pub open spec fn warning_texts(warnings: Seq<String>) -> Seq<Seq<char>> {
    warnings.map_values(|w: String| w@)
}

pub open spec fn one_if(condition: bool, text: Seq<char>) -> Seq<Seq<char>> {
    if condition {
        seq![text]
    } else {
        Seq::empty()
    }
}

/// What has to be said of how the injections went.
pub fn mixed_warnings(
    head_start_reached: bool,
    head_start_tokens: usize,
    overruns: usize,
    slot_ms: &str,
    early: usize,
) -> (warnings: Vec<String>)
    ensures
        warning_texts(warnings@) == one_if(
            !head_start_reached,
            head_start_text(head_start_tokens as nat),
        ) + one_if(overruns > 0, overrun_text(overruns as nat, slot_ms@)) + one_if(
            early > 0,
            early_text(early as nat),
        ),
{
    let mut warnings: Vec<String> = Vec::new();
    if !head_start_reached {
        let mut s = String::from_str("head-start of ");
        push_size(&mut s, head_start_tokens);
        s.append(" tokens not reached within 120s; injection started anyway");
        warnings.push(s);
    }
    assert(warning_texts(warnings@) =~= one_if(
        !head_start_reached,
        head_start_text(head_start_tokens as nat),
    ));
    let ghost first = warnings@;
    if overruns > 0 {
        let mut s = String::new();
        push_size(&mut s, overruns);
        assert(s@ =~= decimal(overruns as nat));
        s.append(" injection(s) overran the ");
        s.append(slot_ms);
        s.append("ms QPS slot (prefill longer than 1/qps); arrivals were not evenly paced");
        warnings.push(s);
    }
    assert(warning_texts(warnings@) =~= warning_texts(first) + one_if(
        overruns > 0,
        overrun_text(overruns as nat, slot_ms@),
    ));
    let ghost second = warnings@;
    if early > 0 {
        let mut s = String::new();
        push_size(&mut s, early);
        assert(s@ =~= decimal(early as nat));
        s.append(
            " background stream(s) hit --bg-output-len before the run ended; raise --bg-output-len to keep steady-state concurrency constant",
        );
        warnings.push(s);
    }
    assert(warning_texts(warnings@) =~= warning_texts(second) + one_if(
        early > 0,
        early_text(early as nat),
    ));
    warnings
}

/// Adds what has to be said of how the control run went.
pub fn baseline_warnings(warnings: &mut Vec<String>, head_start_reached: bool, early: usize)
    ensures
        warning_texts(final(warnings)@) == warning_texts(old(warnings)@) + one_if(
            !head_start_reached,
            "baseline: head-start not reached within 120s"@,
        ) + one_if(
            early > 0,
            "baseline: a background stream hit --bg-output-len before the window closed"@,
        ),
{
    let ghost before = warnings@;
    if !head_start_reached {
        warnings.push(String::from_str("baseline: head-start not reached within 120s"));
    }
    assert(warning_texts(warnings@) =~= warning_texts(before) + one_if(
        !head_start_reached,
        "baseline: head-start not reached within 120s"@,
    ));
    let ghost middle = warnings@;
    if early > 0 {
        warnings.push(
            String::from_str(
                "baseline: a background stream hit --bg-output-len before the window closed",
            ),
        );
    }
    assert(warning_texts(warnings@) =~= warning_texts(middle) + one_if(
        early > 0,
        "baseline: a background stream hit --bg-output-len before the window closed"@,
    ));
}

/// The prefills of warm injections, or of cold ones.
pub open spec fn prefills_of(records: Seq<InjectionRecord>, warm: bool) -> Seq<Duration>
    decreases records.len(),
{
    if records.len() == 0 {
        Seq::empty()
    } else {
        let before = prefills_of(records.drop_last(), warm);
        if records.last().warm == warm {
            before.push(records.last().prefill)
        } else {
            before
        }
    }
}

pub fn collect_prefills(records: &[InjectionRecord], warm: bool) -> (r: Vec<Duration>)
    ensures
        r@ == prefills_of(records@, warm),
{
    let mut prefills: Vec<Duration> = Vec::new();
    let mut i: usize = 0;
    assert(records@.take(0) =~= Seq::<InjectionRecord>::empty());
    while i < records.len()
        invariant
            i <= records.len(),
            prefills@ == prefills_of(records@.take(i as int), warm),
        decreases records.len() - i,
    {
        assert(records@.take(i as int + 1).drop_last() =~= records@.take(i as int));
        if records[i].warm == warm {
            prefills.push(records[i].prefill);
        }
        i = i + 1;
    }
    assert(records@.take(i as int) =~= records@);
    prefills
}

/// A mixed-load run is in order exactly when it has streams, prompts, outputs and
/// injections, a rate above zero and a share from zero to one. The error names something
/// that is wrong.
pub proof fn lemma_mixed_args_verdict(args: MixedArgs)
    ensures
        mixed_error(args) is None <==> {
            &&& args.bg_concurrency > 0
            &&& args.bg_prompt_len > 0
            &&& args.bg_output_len > 0
            &&& args.inj_prompt_len > 0
            &&& args.inj_output_len > 0
            &&& args.num_injections > 0
            &&& wide_positive(args.qps)
            &&& wide_in_unit(args.inj_warm_frac)
        },
        mixed_error(args) == Some(BenchError::BgConcurrency) ==> args.bg_concurrency == 0,
        mixed_error(args) == Some(BenchError::BgPromptLen) ==> args.bg_prompt_len == 0,
        mixed_error(args) == Some(BenchError::BgOutputLen) ==> args.bg_output_len == 0,
        mixed_error(args) == Some(BenchError::InjPromptLen) ==> args.inj_prompt_len == 0,
        mixed_error(args) == Some(BenchError::InjOutputLen) ==> args.inj_output_len == 0,
        mixed_error(args) == Some(BenchError::NumInjections) ==> args.num_injections == 0,
        mixed_error(args) == Some(BenchError::Qps) ==> !wide_positive(args.qps),
        mixed_error(args) == Some(BenchError::WarmFrac) ==> !wide_in_unit(args.inj_warm_frac),
        mixed_error(args) matches Some(error) ==> {
            ||| error is BgConcurrency
            ||| error is BgPromptLen
            ||| error is BgOutputLen
            ||| error is InjPromptLen
            ||| error is InjOutputLen
            ||| error is NumInjections
            ||| error is Qps
            ||| error is WarmFrac
        },
{
}

/// No gap of any stream is lost: the gap between two neighbouring tokens of a stream
/// stands behind those of the streams before it, in order, and no gap spans two streams.
pub proof fn lemma_every_gap_is_collected(streams: Seq<BgStream>, s: int, k: int)
    requires
        0 <= s < streams.len(),
        0 <= k,
        k + 1 < streams[s].token_times@.len(),
    ensures
        ({
            let before = pairs_of(streams.take(s)).len();
            let times = streams[s].token_times@;
            &&& before + times.len() - 1 == pairs_of(streams.take(s + 1)).len()
            &&& before + times.len() - 1 <= pairs_of(streams).len()
            &&& pairs_of(streams)[before + k] == (times[k], times[k + 1])
        }),
    decreases streams.len(),
{
    let head = streams.drop_last();
    assert(streams.take(s + 1).drop_last() =~= streams.take(s));
    if s < head.len() {
        lemma_every_gap_is_collected(head, s, k);
        assert(head.take(s) =~= streams.take(s));
        assert(head.take(s + 1) =~= streams.take(s + 1));
    } else {
        assert(streams.take(s) =~= head);
        assert(streams.take(s + 1) =~= streams);
    }
}

/// Gaps are sorted one by one, in order. A gap that overlaps a prefill counts as hit and
/// no other does, with its own length.
pub proof fn lemma_only_overlapping_gaps_stall(
    a: Seq<(Duration, Duration)>,
    b: Seq<(Duration, Duration)>,
    windows: Seq<(Duration, Duration)>,
    gap: (Duration, Duration),
    hit: bool,
)
    ensures
        hit_gaps(a + b, windows, hit) == hit_gaps(a, windows, hit) + hit_gaps(b, windows, hit),
        overlaps_any(gap.0, gap.1, windows) ==> hit_gaps(seq![gap], windows, true) == seq![
            elapsed(gap.1, gap.0),
        ],
        overlaps_any(gap.0, gap.1, windows) ==> hit_gaps(seq![gap], windows, false).len() == 0,
        !overlaps_any(gap.0, gap.1, windows) ==> hit_gaps(seq![gap], windows, false) == seq![
            elapsed(gap.1, gap.0),
        ],
        !overlaps_any(gap.0, gap.1, windows) ==> hit_gaps(seq![gap], windows, true).len() == 0,
        windows.len() == 0 ==> hit_gaps(a, windows, true).len() == 0,
    decreases a.len() + b.len(),
{
    reveal_with_fuel(hit_gaps, 2);
    assert(seq![gap].drop_last() =~= Seq::<(Duration, Duration)>::empty());
    if a.len() > 0 {
        lemma_only_overlapping_gaps_stall(a.drop_last(), Seq::empty(), windows, gap, hit);
        let (x, y) = a.last();
        assert(windows.len() == 0 ==> !overlaps_any(x, y, windows));
    }
    if b.len() == 0 {
        assert(a + b =~= a);
        assert(hit_gaps(a, windows, hit) + hit_gaps(b, windows, hit) =~= hit_gaps(
            a,
            windows,
            hit,
        ));
    } else {
        lemma_only_overlapping_gaps_stall(a, b.drop_last(), windows, gap, hit);
        assert((a + b).drop_last() =~= a + b.drop_last());
        assert(hit_gaps(a + b, windows, hit) =~= hit_gaps(a, windows, hit) + hit_gaps(
            b,
            windows,
            hit,
        ));
    }
}

/// The early streams are counted one by one: a stream counts exactly when it ran out.
pub proof fn lemma_early_streams_are_counted(a: Seq<BgStream>, b: Seq<BgStream>, stream: BgStream)
    ensures
        early_count(a + b) == early_count(a) + early_count(b),
        early_count(seq![stream]) == (if stream.finished_early {
            1int
        } else {
            0int
        }),
        early_count(a) == 0 <==> forall|i: int|
            0 <= i < a.len() ==> !(#[trigger] a[i]).finished_early,
    decreases a.len() + b.len(),
{
    reveal_with_fuel(early_count, 2);
    assert(seq![stream].drop_last() =~= Seq::<BgStream>::empty());
    if a.len() > 0 {
        let head = a.drop_last();
        let n = a.len() - 1;
        lemma_early_streams_are_counted(head, Seq::empty(), stream);
        assert forall|i: int| 0 <= i < n implies head[i] == #[trigger] a[i] by {}
        assert(a[n] == a.last());
        if early_count(head) != 0 {
            let i = choose|i: int| 0 <= i < head.len() && (#[trigger] head[i]).finished_early;
            assert(a[i].finished_early);
        }
    }
    if b.len() == 0 {
        assert(a + b =~= a);
    } else {
        lemma_early_streams_are_counted(a, b.drop_last(), stream);
        assert((a + b).drop_last() =~= a + b.drop_last());
    }
}

/// Prefills are parted by whether they were warm, in order: each belongs to its own kind
/// and to no other, so that the two kinds together are all of them.
pub proof fn lemma_prefills_are_parted(
    a: Seq<InjectionRecord>,
    b: Seq<InjectionRecord>,
    record: InjectionRecord,
    warm: bool,
)
    ensures
        prefills_of(a + b, warm) == prefills_of(a, warm) + prefills_of(b, warm),
        prefills_of(seq![record], record.warm) == seq![record.prefill],
        prefills_of(seq![record], !record.warm).len() == 0,
        prefills_of(a, true).len() + prefills_of(a, false).len() == a.len(),
    decreases a.len() + b.len(),
{
    reveal_with_fuel(prefills_of, 2);
    assert(seq![record].drop_last() =~= Seq::<InjectionRecord>::empty());
    assert(prefills_of(seq![record], record.warm) =~= seq![record.prefill]);
    if a.len() > 0 {
        lemma_prefills_are_parted(a.drop_last(), Seq::empty(), record, warm);
    }
    if b.len() == 0 {
        assert(a + b =~= a);
        assert(prefills_of(a, warm) + prefills_of(b, warm) =~= prefills_of(a, warm));
    } else {
        lemma_prefills_are_parted(a, b.drop_last(), record, warm);
        assert((a + b).drop_last() =~= a + b.drop_last());
        assert(prefills_of(a + b, warm) =~= prefills_of(a, warm) + prefills_of(b, warm));
    }
}

/// The background is far enough exactly when no stream is behind; a run that is not waits
/// until its deadline and no longer.
pub proof fn lemma_head_start_verdict(
    counters: &[usize],
    target: usize,
    now: Duration,
    deadline: Duration,
    r: HeadStart,
)
    requires
        call_ensures(head_start, (counters, target, now, deadline), r),
    ensures
        r is Reached <==> forall|i: int|
            0 <= i < counters@.len() ==> (#[trigger] counters@[i]) >= target,
        r is TimedOut ==> now.spec_nanos() >= deadline.spec_nanos(),
        r is Wait ==> now.spec_nanos() < deadline.spec_nanos(),
{
}

/// The salts of cold prompts count up from one; warm prompts have one far behind them all.
pub proof fn lemma_salts_count_up(num_injections: nat, index: nat)
    ensures
        injection_salt(num_injections, 0, false) == 1,
        injection_salt(num_injections, index + 1, false) == injection_salt(
            num_injections,
            index,
            false,
        ) + 1,
        index < num_injections ==> injection_salt(num_injections, index, true) >= injection_salt(
            num_injections,
            index,
            false,
        ) + 100,
{
}

/// Every gap that is collected was hit by a prefill or was not, and is counted with its own
/// kind and among all, as often as it came.
pub proof fn lemma_collected_gaps_are_parted(
    streams: &[BgStream],
    windows: Vec<(Duration, Duration)>,
    g: Gaps,
)
    requires
        call_ensures(collect_gaps, (streams, &windows), g),
    ensures
        g.all@.len() == pairs_of(streams@).len(),
        g.stall@.len() + g.steady@.len() == g.all@.len(),
        lengths(g.stall@).to_multiset().add(lengths(g.steady@).to_multiset()) == lengths(
            g.all@,
        ).to_multiset(),
        windows@.len() == 0 ==> g.stall@.len() == 0,
{
    let pairs = pairs_of(streams@);
    assert(g.of(pairs, windows@));
    lemma_gaps_split(pairs, windows@);
    lemma_only_overlapping_gaps_stall(pairs, Seq::empty(), windows@, pairs[0], true);
    assert(lengths(g.all@).len() == g.all@.len());
    assert(lengths(g.stall@).len() == g.stall@.len());
    assert(lengths(g.steady@).len() == g.steady@.len());
    assert(gap_lengths(pairs).len() == pairs.len());
}

} // verus!
