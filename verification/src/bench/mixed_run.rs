//! A mixed-load run, step by step: warm up, bring the background up, inject, stop,
//! and run the control without injections.
use vstd::prelude::*;
use vstd::string::*;
use crate::bench::measure::{can_summarize, is_opt_summary};
use crate::bench::mixed::{
    baseline_warnings, build_mixed_itl, collect_gaps, count_early, decision_inputs, early_count, early_text,
    gap_lengths, gaps_measurable, head_start_text, injection_salt, lengths, mixed_error, mixed_warnings, one_if,
    overrun_text, pairs_of, validate_mixed, warning_texts, BgStream, Gaps, Injection,
    InjectionRecord, Injector, MixedArgs, MixedDecisionInputs, MixedLoadItl,
};
use crate::bench::stats::{is_summary, opt_summarize, summarizable, DurationStats};
use crate::bench::time::{elapsed, Duration};
use crate::bench::timings::{StreamRole, StreamStep};
use crate::bench::workload::BenchError;
use crate::text::{decimal, lemma_decimal_tells_numbers_apart, push_size};

verus! {

/// Tokens that a warm-up stream decodes.
pub const WARMUP_TOKENS: usize = 16;

pub open spec fn stream_tag(role: StreamRole) -> Seq<char> {
    match role {
        StreamRole::Scheduler => "bench-serving-"@,
        StreamRole::Background => "mixed-bg-"@,
        StreamRole::Injection => "mixed-inj-"@,
        StreamRole::Warmup => "mixed-warmup-"@,
    }
}

/// The identifier of a benchmark's request.
pub fn stream_request_id(role: StreamRole, index: usize) -> (id: String)
    ensures
        id@ == stream_tag(role) + decimal(index as nat),
{
    let mut id = match role {
        StreamRole::Scheduler => String::from_str("bench-serving-"),
        StreamRole::Background => String::from_str("mixed-bg-"),
        StreamRole::Injection => String::from_str("mixed-inj-"),
        StreamRole::Warmup => String::from_str("mixed-warmup-"),
    };
    push_size(&mut id, index);
    id
}

/// What a background stream does after an event.
pub enum BgNext {
    Continue,
    Stop,
    Failed(String),
}

/// Takes one event of a background stream. A stream that was told to stop still
/// records the token that it stops on; one that ends by itself ended early.
pub fn background_step(stream: &mut BgStream, step: StreamStep, now: Duration, stop: bool) -> (r:
    BgNext)
    ensures
        match step {
            StreamStep::Token(_) => {
                &&& final(stream).token_times@ == old(stream).token_times@.push(now)
                &&& final(stream).finished_early == old(stream).finished_early
                &&& r == (if stop {
                    BgNext::Stop
                } else {
                    BgNext::Continue
                })
            },
            StreamStep::Skip => *final(stream) == *old(stream) && r == BgNext::Continue,
            StreamStep::Done => {
                &&& final(stream).token_times@ == old(stream).token_times@
                &&& final(stream).finished_early
                &&& r == BgNext::Stop
            },
            StreamStep::Failed(text) => *final(stream) == *old(stream) && r == BgNext::Failed(text),
        },
{
    match step {
        StreamStep::Token(_) => {
            stream.on_token(now);
            if stop {
                BgNext::Stop
            } else {
                BgNext::Continue
            }
        },
        StreamStep::Skip => BgNext::Continue,
        StreamStep::Done => {
            stream.on_finished();
            BgNext::Stop
        },
        StreamStep::Failed(text) => BgNext::Failed(text),
    }
}

/// What a mixed-load run needs done next.
#[derive(Clone, Copy, Debug, PartialEq, Eq, Structural)]
pub enum MixedStep {
    /// Decode this many rounds without measuring.
    Warmup(usize),
    /// Start the background streams.
    Background,
    /// Wait until each stream has decoded this many tokens.
    AwaitHeadStart(usize),
    /// Inject prompts until there are none left.
    Inject,
    /// Stop the background streams and collect them.
    StopBackground,
    /// Run the background alone for this long.
    Baseline(Duration),
    Report,
}

/// What a mixed-load run measured.
pub struct MixedOutcome {
    pub itl: MixedLoadItl,
    pub baseline: Option<DurationStats>,
    pub injections: Vec<InjectionRecord>,
    pub decision: MixedDecisionInputs,
    pub warnings: Vec<String>,
}

pub struct MixedRun {
    args: MixedArgs,
    step: MixedStep,
    injector: Injector,
    head_start_reached: bool,
    itl: Option<MixedLoadItl>,
    baseline: Option<DurationStats>,
    warnings: Vec<String>,
}

/// Gaps can be summarised.
pub fn can_measure_gaps(g: &Gaps) -> (r: bool)
    ensures
        r == gaps_measurable(*g),
{
    (g.all.len() == 0 || can_summarize(g.all.as_slice())) && (g.steady.len() == 0 || can_summarize(
        g.steady.as_slice(),
    )) && (g.stall.len() == 0 || can_summarize(g.stall.as_slice()))
}

impl MixedRun {
    pub closed spec fn args_spec(self) -> MixedArgs {
        self.args
    }

    pub closed spec fn step_spec(self) -> MixedStep {
        self.step
    }

    pub closed spec fn injector_spec(self) -> Injector {
        self.injector
    }

    pub closed spec fn head_start_spec(self) -> bool {
        self.head_start_reached
    }

    pub closed spec fn itl_spec(self) -> Option<MixedLoadItl> {
        self.itl
    }

    pub closed spec fn baseline_spec(self) -> Option<DurationStats> {
        self.baseline
    }

    pub closed spec fn warnings_spec(self) -> Seq<Seq<char>> {
        warning_texts(self.warnings@)
    }

    /// Every prompt was injected before the background stops; there is a summary
    /// from then on.
    pub open spec fn well_formed(self) -> bool {
        &&& mixed_error(self.args_spec()) is None
        &&& self.injector_spec().well_formed()
        &&& self.injector_spec().goal() == self.args_spec().num_injections
        &&& self.step_spec() is StopBackground ==> self.injector_spec().records_spec().len()
            == self.args_spec().num_injections
        &&& self.step_spec() is Baseline || self.step_spec() is Report ==> {
            &&& self.itl_spec() is Some
            &&& self.injector_spec().records_spec().len() == self.args_spec().num_injections
        }
    }

    /// Nothing but the step changed.
    pub open spec fn same_but_step(self, other: MixedRun) -> bool {
        &&& self.args_spec() == other.args_spec()
        &&& self.injector_spec() == other.injector_spec()
        &&& self.head_start_spec() == other.head_start_spec()
        &&& self.itl_spec() == other.itl_spec()
        &&& self.baseline_spec() == other.baseline_spec()
        &&& self.warnings_spec() == other.warnings_spec()
    }

    /// Starts a run: its arguments must be in order, and the model must have a
    /// scheduler.
    pub fn new(args: MixedArgs, has_scheduler: bool) -> (r: Result<MixedRun, BenchError>)
        requires
            mixed_error(args) is None && has_scheduler ==> args.num_injections + 100 <= usize::MAX,
        ensures
            match mixed_error(args) {
                Some(error) => r == Err::<MixedRun, BenchError>(error),
                None => if !has_scheduler {
                    r == Err::<MixedRun, BenchError>(BenchError::NoScheduler)
                } else {
                    &&& r matches Ok(run)
                    &&& run.well_formed()
                    &&& run.args_spec() == args
                    &&& run.step_spec() == MixedStep::Warmup(args.run.warmup)
                    &&& run.itl_spec() is None
                    &&& run.baseline_spec() is None
                    &&& run.warnings_spec().len() == 0
                },
            },
    {
        match validate_mixed(&args) {
            Ok(()) => {},
            Err(error) => {
                return Err(error);
            },
        }
        if !has_scheduler {
            return Err(BenchError::NoScheduler);
        }
        Ok(
            MixedRun {
                args,
                step: MixedStep::Warmup(args.run.warmup),
                injector: Injector::new(args.num_injections, Duration::zero()),
                head_start_reached: false,
                itl: None,
                baseline: None,
                warnings: Vec::new(),
            },
        )
    }

    pub fn step(&self) -> (r: MixedStep)
        ensures
            r == self.step_spec(),
    {
        self.step
    }

    /// The warm-up is over.
    pub fn warmed(&mut self)
        requires
            old(self).well_formed(),
            old(self).step_spec() is Warmup,
        ensures
            final(self).well_formed(),
            final(self).same_but_step(*old(self)),
            final(self).step_spec() == MixedStep::Background,
    {
        self.step = MixedStep::Background;
    }

    /// The background streams run.
    pub fn background_started(&mut self)
        requires
            old(self).well_formed(),
            old(self).step_spec() is Background,
        ensures
            final(self).well_formed(),
            final(self).same_but_step(*old(self)),
            final(self).step_spec() == MixedStep::AwaitHeadStart(
                old(self).args_spec().head_start_tokens,
            ),
    {
        self.step = MixedStep::AwaitHeadStart(self.args.head_start_tokens);
    }

    /// The wait is over, whether or not the background got far enough. The window
    /// of the injections opens.
    pub fn head_start_over(&mut self, reached: bool, now: Duration)
        requires
            old(self).well_formed(),
            old(self).step_spec() is AwaitHeadStart,
        ensures
            final(self).well_formed(),
            final(self).args_spec() == old(self).args_spec(),
            final(self).step_spec() == MixedStep::Inject,
            final(self).head_start_spec() == reached,
            final(self).injector_spec().start_spec() == now,
            final(self).injector_spec().records_spec().len() == 0,
            final(self).injector_spec().overruns_spec() == 0,
            final(self).itl_spec() == old(self).itl_spec(),
            final(self).baseline_spec() == old(self).baseline_spec(),
            final(self).warnings_spec() == old(self).warnings_spec(),
    {
        self.head_start_reached = reached;
        self.injector = Injector::new(self.args.num_injections, now);
        self.step = MixedStep::Inject;
    }

    /// The next prompt to inject, given whether it is to be a warm one. After the
    /// last, the background is to stop.
    pub fn next_injection(&mut self, warm: bool) -> (r: Option<Injection>)
        requires
            old(self).well_formed(),
            old(self).step_spec() is Inject,
        ensures
            final(self).well_formed(),
            final(self).same_but_step(*old(self)),
            ({
                let done = old(self).injector_spec().records_spec().len();
                let goal = old(self).args_spec().num_injections;
                if done < goal {
                    &&& r matches Some(injection)
                    &&& injection.index == done
                    &&& injection.warm == warm
                    &&& injection.salt == injection_salt(
                        goal as nat,
                        done,
                        warm,
                    )
                    &&& final(self).step_spec() is Inject
                } else {
                    &&& r is None
                    &&& final(self).step_spec() is StopBackground
                }
            }),
    {
        let next = self.injector.next_injection(warm);
        if next.is_none() {
            self.step = MixedStep::StopBackground;
        }
        next
    }

    /// A prompt was injected at `slot_start` and had its last token at `last`.
    /// Returns how long to wait before the next.
    pub fn injected(
        &mut self,
        warm: bool,
        slot_start: Duration,
        last: Duration,
        now: Duration,
        period: Duration,
    ) -> (wait: Option<Duration>)
        requires
            old(self).well_formed(),
            old(self).step_spec() is Inject,
            old(self).injector_spec().records_spec().len() < old(self).args_spec().num_injections,
        ensures
            final(self).well_formed(),
            final(self).args_spec() == old(self).args_spec(),
            final(self).step_spec() is Inject,
            final(self).head_start_spec() == old(self).head_start_spec(),
            final(self).itl_spec() == old(self).itl_spec(),
            final(self).baseline_spec() == old(self).baseline_spec(),
            final(self).warnings_spec() == old(self).warnings_spec(),
            final(self).injector_spec().start_spec() == old(self).injector_spec().start_spec(),
            final(self).injector_spec().windows_spec() == old(self).injector_spec().windows_spec().push((slot_start, last)),
            final(self).injector_spec().records_spec().drop_last() == old(self).injector_spec().records_spec(),
            final(self).injector_spec().records_spec().len() == old(self).injector_spec().records_spec().len() + 1,
            ({
                let record = final(self).injector_spec().records_spec().last();
                &&& record.index == old(self).injector_spec().records_spec().len()
                &&& record.warm == warm
                &&& record.prefill.spec_nanos() == elapsed(last, slot_start)
                &&& record.arrival_offset.spec_nanos() == elapsed(
                    slot_start,
                    old(self).injector_spec().start_spec(),
                )
            }),
            ({
                let spent = elapsed(now, slot_start);
                if spent < period.spec_nanos() {
                    &&& wait matches Some(rest)
                    &&& rest.spec_nanos() == period.spec_nanos() - spent
                    &&& final(self).injector_spec().overruns_spec() == old(self).injector_spec().overruns_spec()
                } else {
                    &&& wait is None
                    &&& final(self).injector_spec().overruns_spec() == old(self).injector_spec().overruns_spec() + (if final(self).injector_spec().records_spec().len() < old(self).args_spec().num_injections {
                        1nat
                    } else {
                        0nat
                    })
                }
            }),
    {
        self.injector.injected(warm, slot_start, last, now, period)
    }

    /// The gaps of the collected background streams, sorted by whether an injection
    /// hit them.
    pub fn gaps(&self, streams: &[BgStream]) -> (g: Gaps)
        ensures
            g.of(pairs_of(streams@), self.injector_spec().windows_spec()),
    {
        collect_gaps(streams, self.injector.windows())
    }

    /// The background stopped at `now`; these are its streams and their gaps.
    /// Without gaps there is nothing to report. The control runs for as long as the
    /// injections did.
    pub fn background_stopped(
        &mut self,
        now: Duration,
        streams: &[BgStream],
        g: &Gaps,
        slot_ms: &str,
    ) -> (r: Result<(), BenchError>)
        requires
            old(self).well_formed(),
            old(self).step_spec() is StopBackground,
            g.of(pairs_of(streams@), old(self).injector_spec().windows_spec()),
            gaps_measurable(*g),
        ensures
            final(self).args_spec() == old(self).args_spec(),
            final(self).injector_spec() == old(self).injector_spec(),
            final(self).warnings_spec() == one_if(
                !old(self).head_start_spec(),
                head_start_text(old(self).args_spec().head_start_tokens as nat),
            ) + one_if(
                old(self).injector_spec().overruns_spec() > 0,
                overrun_text(old(self).injector_spec().overruns_spec(), slot_ms@),
            ) + one_if(early_count(streams@) > 0, early_text(early_count(streams@))),
            final(self).baseline_spec() == old(self).baseline_spec(),
            if g.all@.len() == 0 {
                r == Err::<(), BenchError>(BenchError::NoGaps)
            } else {
                &&& r is Ok
                &&& final(self).well_formed()
                &&& final(self).itl_spec() matches Some(itl)
                &&& is_summary(itl.all, g.all@)
                &&& is_opt_summary(itl.steady, g.steady@)
                &&& is_opt_summary(itl.stall, g.stall@)
                &&& itl.stall_gap_count == g.stall@.len()
                &&& itl.total_gap_count == g.all@.len()
                &&& if old(self).args_spec().skip_baseline {
                    final(self).step_spec() is Report
                } else {
                    &&& final(self).step_spec() matches MixedStep::Baseline(window)
                    &&& window.spec_nanos() == elapsed(
                        now,
                        old(self).injector_spec().start_spec(),
                    )
                }
            },
    {
        let early: usize = count_early(streams);
        self.warnings =
        mixed_warnings(
            self.head_start_reached,
            self.args.head_start_tokens,
            self.injector.overruns(),
            slot_ms,
            early,
        );
        match build_mixed_itl(g) {
            Some(itl) => {
                self.itl = Some(itl);
            },
            None => {
                return Err(BenchError::NoGaps);
            },
        }
        self.step =
        if self.args.skip_baseline {
            MixedStep::Report
        } else {
            MixedStep::Baseline(now.since(self.injector.start_moment()))
        };
        Ok(())
    }

    /// The control ran; these are the gaps of its streams.
    pub fn baseline_ran(&mut self, reached: bool, streams: &[BgStream], g: &Gaps)
        requires
            old(self).well_formed(),
            old(self).step_spec() is Baseline,
            lengths(g.all@) == gap_lengths(pairs_of(streams@)),
            g.all@.len() > 0 ==> summarizable(g.all@),
        ensures
            final(self).well_formed(),
            final(self).args_spec() == old(self).args_spec(),
            final(self).injector_spec() == old(self).injector_spec(),
            final(self).itl_spec() == old(self).itl_spec(),
            final(self).step_spec() is Report,
            is_opt_summary(final(self).baseline_spec(), g.all@),
            final(self).warnings_spec() == old(self).warnings_spec() + one_if(
                !reached,
                "baseline: head-start not reached within 120s"@,
            ) + one_if(
                early_count(streams@) > 0,
                "baseline: a background stream hit --bg-output-len before the window closed"@,
            ),
    {
        let early: usize = count_early(streams);
        baseline_warnings(&mut self.warnings, reached, early);
        self.baseline = opt_summarize(g.all.as_slice());
        self.step = MixedStep::Report;
    }

    /// What the run measured.
    pub fn finish(self) -> (r: MixedOutcome)
        requires
            self.well_formed(),
            self.step_spec() is Report,
        ensures
            self.itl_spec() == Some(r.itl),
            r.baseline == self.baseline_spec(),
            r.injections@ == self.injector_spec().records_spec(),
            r.injections@.len() == self.args_spec().num_injections,
            warning_texts(r.warnings@) == self.warnings_spec(),
            r.decision.mixed_p50 == r.itl.all.p50,
            r.decision.mixed_p99 == r.itl.all.p99,
            match r.baseline {
                Some(stats) => r.decision.baseline_p50 == Some(stats.p50)
                    && r.decision.baseline_p99 == Some(stats.p99),
                None => r.decision.baseline_p50 is None && r.decision.baseline_p99 is None,
            },
    {
        let itl = self.itl.unwrap();
        let decision = decision_inputs(&itl.all, &self.baseline);
        MixedOutcome {
            itl,
            baseline: self.baseline,
            injections: self.injector.into_records(),
            decision,
            warnings: self.warnings,
        }
    }
}

/// No two requests of a benchmark have one identifier.
pub proof fn lemma_request_ids_are_their_own(
    a: (StreamRole, usize),
    b: (StreamRole, usize),
)
    requires
        stream_tag(a.0) + decimal(a.1 as nat) == stream_tag(b.0) + decimal(b.1 as nat),
    ensures
        a == b,
{
    reveal_strlit("bench-serving-");
    reveal_strlit("mixed-bg-");
    reveal_strlit("mixed-inj-");
    reveal_strlit("mixed-warmup-");
    let (x, y) = (decimal(a.1 as nat), decimal(b.1 as nat));
    let (left, right) = (stream_tag(a.0) + x, stream_tag(b.0) + y);
    assert(left[0] == stream_tag(a.0)[0]);
    assert(right[0] == stream_tag(b.0)[0]);
    assert(left[6] == stream_tag(a.0)[6]);
    assert(right[6] == stream_tag(b.0)[6]);
    assert(a.0 == b.0);
    let tag = stream_tag(a.0);
    assert(left.skip(tag.len() as int) =~= x);
    assert(right.skip(tag.len() as int) =~= y);
    lemma_decimal_tells_numbers_apart(a.1 as nat, b.1 as nat);
}

/// A run that only goes on to its next step keeps its arguments, its injections and all it
/// has measured and noted.
pub proof fn lemma_next_step_keeps_what_was_measured(run: MixedRun, next: MixedRun)
    requires
        next.same_but_step(run),
    ensures
        next.args_spec() == run.args_spec(),
        next.injector_spec() == run.injector_spec(),
        next.head_start_spec() == run.head_start_spec(),
        next.itl_spec() == run.itl_spec(),
        next.baseline_spec() == run.baseline_spec(),
        next.warnings_spec() == run.warnings_spec(),
{
}

} // verus!
