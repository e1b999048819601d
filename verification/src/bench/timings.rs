//! What one generation measured.
use vstd::prelude::*;
use vstd::string::*;
use crate::bench::time::{elapsed, sum, total_of, Duration, MAX_NANOS};
use crate::engine::{SamplingParams, TokenEvent};
use crate::float_bits::{at_least, at_least_bits, ONE_BITS, ZERO_BITS};
use crate::text::{decimal, push_size};

verus! {

/// The timings of one generation.
pub struct GenTimings {
    pub ttft: Duration,
    pub tbt: Vec<Duration>,
    pub total: Duration,
    pub emitted_tokens: usize,
    pub generated_tokens: Vec<u32>,
    pub decode_tokens_for_rate: usize,
    pub decode_time_for_rate: Duration,
}

/// Records the moments at which tokens arrive, counted from the start.
pub struct TimingRecorder {
    first_at: Option<Duration>,
    prev_at: Option<Duration>,
    tbt: Vec<Duration>,
    generated_tokens: Vec<u32>,
}

/// The gaps between moments.
pub open spec fn gaps_of(moments: Seq<Duration>) -> Seq<nat> {
    if moments.len() == 0 {
        Seq::empty()
    } else {
        Seq::new((moments.len() - 1) as nat, |i: int| elapsed(moments[i + 1], moments[i]))
    }
}

/// The lengths of spans.
pub open spec fn lengths_of(spans: Seq<Duration>) -> Seq<nat> {
    spans.map_values(|d: Duration| d.spec_nanos())
}

impl TimingRecorder {
    /// The recorder has seen these tokens at these moments.
    pub closed spec fn saw(self, tokens: Seq<u32>, moments: Seq<Duration>) -> bool {
        &&& tokens.len() == moments.len()
        &&& self.generated_tokens@ == tokens
        &&& lengths_of(self.tbt@) == gaps_of(moments)
        &&& self.first_at == (if moments.len() == 0 {
            None::<Duration>
        } else {
            Some(moments.first())
        })
        &&& self.prev_at == (if moments.len() == 0 {
            None::<Duration>
        } else {
            Some(moments.last())
        })
    }

    /// Time between the tokens so far.
    pub closed spec fn decode_nanos(self) -> nat {
        total_of(self.tbt@)
    }

    pub fn new() -> (r: Self)
        ensures
            r.saw(Seq::empty(), Seq::empty()),
            r.decode_nanos() == 0,
    {
        let r = TimingRecorder {
            first_at: None,
            prev_at: None,
            tbt: Vec::new(),
            generated_tokens: Vec::new(),
        };
        assert(lengths_of(r.tbt@) =~= gaps_of(Seq::empty()));
        r
    }

    /// A token arrived.
    pub fn on_token(&mut self, token: u32, now: Duration)
        ensures
            forall|tokens: Seq<u32>, moments: Seq<Duration>| #[trigger]
                old(self).saw(tokens, moments) ==> final(self).saw(
                    tokens.push(token),
                    moments.push(now),
                ),
    {
        let ghost before = *self;
        self.generated_tokens.push(token);
        match (self.first_at, self.prev_at) {
            (None, _) => {
                self.first_at = Some(now);
            },
            (Some(_), Some(prev)) => {
                self.tbt.push(now.since(prev));
            },
            (Some(_), None) => {},
        }
        self.prev_at = Some(now);
        proof {
            assert forall|tokens: Seq<u32>, moments: Seq<Duration>| #[trigger]
                before.saw(tokens, moments) implies self.saw(
                tokens.push(token),
                moments.push(now),
            ) by {
                let more = moments.push(now);
                assert(lengths_of(self.tbt@) =~= gaps_of(more)) by {
                    if moments.len() > 0 {
                        assert(gaps_of(more) =~= gaps_of(moments).push(
                            elapsed(now, moments.last()),
                        ));
                        assert(self.tbt@ =~= before.tbt@.push(self.tbt@.last()));
                        assert(lengths_of(self.tbt@) =~= lengths_of(before.tbt@).push(
                            self.tbt@.last().spec_nanos(),
                        ));
                    }
                }
                if moments.len() > 0 {
                    assert(more.first() == moments.first());
                }
            }
        }
    }

    /// The timings once the generation is over.
    pub fn finish(self, total: Duration) -> (r: GenTimings)
        requires
            self.decode_nanos() <= MAX_NANOS,
        ensures
            r.total == total,
            r.decode_time_for_rate.spec_nanos() == self.decode_nanos(),
            forall|tokens: Seq<u32>, moments: Seq<Duration>| #[trigger]
                self.saw(tokens, moments) ==> {
                    &&& r.ttft == (if moments.len() == 0 {
                        total
                    } else {
                        moments.first()
                    })
                    &&& lengths_of(r.tbt@) == gaps_of(moments)
                    &&& r.emitted_tokens == tokens.len()
                    &&& r.generated_tokens@ == tokens
                    &&& r.decode_tokens_for_rate == (if tokens.len() == 0 {
                        0
                    } else {
                        tokens.len() - 1
                    })
                },
    {
        let ttft = match self.first_at {
            Some(first) => first,
            None => total,
        };
        let emitted_tokens: usize = self.generated_tokens.len();
        let decode_time_for_rate = sum(self.tbt.as_slice());
        GenTimings {
            ttft,
            tbt: self.tbt,
            total,
            emitted_tokens,
            generated_tokens: self.generated_tokens,
            decode_tokens_for_rate: emitted_tokens.saturating_sub(1),
            decode_time_for_rate,
        }
    }
}

/// Where moments only move forward, the time between tokens adds up to the time
/// from the first to the last.
pub proof fn lemma_gaps_telescope(spans: Seq<Duration>, moments: Seq<Duration>)
    requires
        moments.len() > 0,
        lengths_of(spans) == gaps_of(moments),
        forall|i: int, j: int|
            0 <= i <= j < moments.len() ==> (#[trigger] moments[i]).spec_nanos() <= (
            #[trigger] moments[j]).spec_nanos(),
    ensures
        total_of(spans) == moments.last().spec_nanos() - moments.first().spec_nanos(),
    decreases moments.len(),
{
    assert(spans.len() == lengths_of(spans).len());
    assert(gaps_of(moments).len() == moments.len() - 1);
    if moments.len() > 1 {
        let head = moments.drop_last();
        let rest = spans.drop_last();
        assert(lengths_of(rest) =~= gaps_of(head)) by {
            assert forall|i: int| 0 <= i < rest.len() implies lengths_of(rest)[i]
                == gaps_of(head)[i] by {
                assert(lengths_of(spans)[i] == gaps_of(moments)[i]);
                assert(rest[i] == spans[i]);
                assert(lengths_of(spans)[i] == spans[i].spec_nanos());
                assert(lengths_of(rest)[i] == rest[i].spec_nanos());
                assert(gaps_of(moments)[i] == elapsed(moments[i + 1], moments[i]));
                assert(gaps_of(head)[i] == elapsed(head[i + 1], head[i]));
                assert(head[i + 1] == moments[i + 1] && head[i] == moments[i]);
            }
        }
        assert forall|i: int, j: int| 0 <= i <= j < head.len() implies (
        #[trigger] head[i]).spec_nanos() <= (#[trigger] head[j]).spec_nanos() by {
            assert(head[i] == moments[i] && head[j] == moments[j]);
        }
        lemma_gaps_telescope(rest, head);
        let n = moments.len();
        assert(spans.last() == spans[n - 2]);
        assert(lengths_of(spans)[n - 2] == gaps_of(moments)[n - 2]);
        assert(lengths_of(spans)[n - 2] == spans[n - 2].spec_nanos());
        assert(gaps_of(moments)[n - 2] == elapsed(moments[n - 2 + 1], moments[n - 2]));
        assert(moments[n - 2].spec_nanos() <= moments[n - 1].spec_nanos());
    } else {
        assert(spans.len() == 0);
    }
}

/// What a benchmark does with an event of a stream.
pub enum StreamStep {
    /// A token to record.
    Token(u32),
    Skip,
    Done,
    /// The stream failed; why.
    Failed(String),
}

/// What the failing streams are called in messages.
#[derive(Clone, Copy, Debug, PartialEq, Eq, Structural)]
pub enum StreamRole {
    Scheduler,
    Background,
    Injection,
    Warmup,
}

pub open spec fn role_text(role: StreamRole) -> Seq<char> {
    match role {
        StreamRole::Scheduler => "scheduler"@,
        StreamRole::Background => "background"@,
        StreamRole::Injection => "injection"@,
        StreamRole::Warmup => "warmup"@,
    }
}

pub fn role_name(role: StreamRole) -> (r: &'static str)
    ensures
        r@ == role_text(role),
{
    match role {
        StreamRole::Scheduler => "scheduler",
        StreamRole::Background => "background",
        StreamRole::Injection => "injection",
        StreamRole::Warmup => "warmup",
    }
}

/// What to do with the next event of a stream, or with its end.
pub fn stream_step(role: StreamRole, event: &Option<TokenEvent>) -> (r: StreamStep)
    ensures
        match event {
            Some(TokenEvent::Token { id, .. }) => r == StreamStep::Token(*id),
            Some(TokenEvent::Finished { .. }) => r is Done,
            Some(TokenEvent::Error { message, .. }) => r matches StreamStep::Failed(text)
                && text@ == role_text(role) + " request failed: "@ + message@,
            Some(TokenEvent::Rejected { message, .. }) => r matches StreamStep::Failed(text)
                && text@ == role_text(role) + " request rejected: "@ + message@,
            None => r matches StreamStep::Failed(text) && text@ == role_text(role)
                + " channel closed"@,
            _ => r is Skip,
        },
{
    match event {
        Some(TokenEvent::Token { id, .. }) => StreamStep::Token(*id),
        Some(TokenEvent::Finished { .. }) => StreamStep::Done,
        Some(TokenEvent::Error { message, .. }) => {
            let mut text = String::from_str(role_name(role));
            text.append(" request failed: ");
            text.append(message.as_str());
            StreamStep::Failed(text)
        },
        Some(TokenEvent::Rejected { message, .. }) => {
            let mut text = String::from_str(role_name(role));
            text.append(" request rejected: ");
            text.append(message.as_str());
            StreamStep::Failed(text)
        },
        None => {
            let mut text = String::from_str(role_name(role));
            text.append(" channel closed");
            StreamStep::Failed(text)
        },
        _ => StreamStep::Skip,
    }
}

/// Why an attribution cannot be turned into timings.
#[derive(Clone, Copy, Debug, PartialEq, Eq, Structural)]
pub enum AttributionError {
    IgnoreEosRequired,
    GreedyOnly,
    TokenCount { got: usize, expected: usize },
    TimingCount { got: usize, tokens: usize },
    ZeroTotal,
    MissingTtft,
    ZeroDecode,
    EmptyBatch,
    BatchTtftCount,
    BatchZeroTotal,
    BatchZeroTtft,
    BatchTimingCount { got: usize, tokens: usize },
    BatchZeroDecode,
    BatchTokenCount { row: usize, got: usize, expected: usize },
}

impl AttributionError {
    pub open spec fn text(self) -> Seq<char> {
        match self {
            AttributionError::IgnoreEosRequired =>
            "DeepSeek-V2-Lite direct attribution benchmark requires ignore_eos=true so output_len maps to an exact generated-token count"@,
            AttributionError::GreedyOnly =>
            "DeepSeek-V2-Lite direct attribution benchmark supports greedy decoding only"@,
            AttributionError::TokenCount { got, expected } =>
            "DeepSeek-V2-Lite generated token count mismatch: got "@ + decimal(got as nat)
                + " tokens for requested output_len="@ + decimal(expected as nat),
            AttributionError::TimingCount { got, tokens } =>
            "DeepSeek-V2-Lite timing count mismatch: got "@ + decimal(got as nat)
                + " decode samples for "@ + decimal(tokens as nat) + " generated tokens"@,
            AttributionError::ZeroTotal =>
            "DeepSeek-V2-Lite total generation timing is zero; refusing to report TPOT"@,
            AttributionError::MissingTtft =>
            "DeepSeek-V2-Lite TTFT timing is missing or zero; refusing to report TPOT"@,
            AttributionError::ZeroDecode =>
            "DeepSeek-V2-Lite decode timing contains a zero-duration sample; refusing to report TPOT"@,
            AttributionError::EmptyBatch =>
            "DeepSeek-V2-Lite batch result must contain at least one row"@,
            AttributionError::BatchTtftCount =>
            "DeepSeek-V2-Lite batch result TTFT count mismatch"@,
            AttributionError::BatchZeroTotal =>
            "DeepSeek-V2-Lite batch total generation timing is zero; refusing to report TPOT"@,
            AttributionError::BatchZeroTtft =>
            "DeepSeek-V2-Lite batch TTFT timing contains a zero-duration sample; refusing to report TPOT"@,
            AttributionError::BatchTimingCount { got, tokens } =>
            "DeepSeek-V2-Lite batch timing count mismatch: got "@ + decimal(got as nat)
                + " decode samples for "@ + decimal(tokens as nat) + " generated tokens"@,
            AttributionError::BatchZeroDecode =>
            "DeepSeek-V2-Lite batch decode timing contains a zero-duration sample; refusing to report TPOT"@,
            AttributionError::BatchTokenCount { row, got, expected } =>
            "DeepSeek-V2-Lite batch row "@ + decimal(row as nat)
                + " generated token count mismatch: got "@ + decimal(got as nat)
                + " tokens for requested output_len="@ + decimal(expected as nat),
        }
    }

    pub fn message(&self) -> (s: String)
        ensures
            s@ == self.text(),
    {
        match self {
            AttributionError::IgnoreEosRequired => String::from_str(
                "DeepSeek-V2-Lite direct attribution benchmark requires ignore_eos=true so output_len maps to an exact generated-token count",
            ),
            AttributionError::GreedyOnly => String::from_str(
                "DeepSeek-V2-Lite direct attribution benchmark supports greedy decoding only",
            ),
            AttributionError::TokenCount { got, expected } => {
                let mut s = String::from_str(
                    "DeepSeek-V2-Lite generated token count mismatch: got ",
                );
                push_size(&mut s, *got);
                s.append(" tokens for requested output_len=");
                push_size(&mut s, *expected);
                s
            },
            AttributionError::TimingCount { got, tokens } => {
                let mut s = String::from_str("DeepSeek-V2-Lite timing count mismatch: got ");
                push_size(&mut s, *got);
                s.append(" decode samples for ");
                push_size(&mut s, *tokens);
                s.append(" generated tokens");
                s
            },
            AttributionError::ZeroTotal => String::from_str(
                "DeepSeek-V2-Lite total generation timing is zero; refusing to report TPOT",
            ),
            AttributionError::MissingTtft => String::from_str(
                "DeepSeek-V2-Lite TTFT timing is missing or zero; refusing to report TPOT",
            ),
            AttributionError::ZeroDecode => String::from_str(
                "DeepSeek-V2-Lite decode timing contains a zero-duration sample; refusing to report TPOT",
            ),
            AttributionError::EmptyBatch => String::from_str(
                "DeepSeek-V2-Lite batch result must contain at least one row",
            ),
            AttributionError::BatchTtftCount => String::from_str(
                "DeepSeek-V2-Lite batch result TTFT count mismatch",
            ),
            AttributionError::BatchZeroTotal => String::from_str(
                "DeepSeek-V2-Lite batch total generation timing is zero; refusing to report TPOT",
            ),
            AttributionError::BatchZeroTtft => String::from_str(
                "DeepSeek-V2-Lite batch TTFT timing contains a zero-duration sample; refusing to report TPOT",
            ),
            AttributionError::BatchTimingCount { got, tokens } => {
                let mut s = String::from_str("DeepSeek-V2-Lite batch timing count mismatch: got ");
                push_size(&mut s, *got);
                s.append(" decode samples for ");
                push_size(&mut s, *tokens);
                s.append(" generated tokens");
                s
            },
            AttributionError::BatchZeroDecode => String::from_str(
                "DeepSeek-V2-Lite batch decode timing contains a zero-duration sample; refusing to report TPOT",
            ),
            AttributionError::BatchTokenCount { row, got, expected } => {
                let mut s = String::from_str("DeepSeek-V2-Lite batch row ");
                push_size(&mut s, *row);
                s.append(" generated token count mismatch: got ");
                push_size(&mut s, *got);
                s.append(" tokens for requested output_len=");
                push_size(&mut s, *expected);
                s
            },
        }
    }
}

/// Greedy sampling: no temperature or a single candidate, and no cut by mass.
pub open spec fn greedy_sampling(sampling: SamplingParams) -> bool {
    &&& (at_least(ZERO_BITS, sampling.temperature) || sampling.top_k == 1)
    &&& at_least(sampling.top_p, ONE_BITS)
}

/// Checks that a benchmark by attribution samples greedily and runs to the end.
pub fn check_sampling_contract(sampling: &SamplingParams) -> (r: Result<(), AttributionError>)
    ensures
        r == (if !sampling.ignore_eos {
            Err::<(), AttributionError>(AttributionError::IgnoreEosRequired)
        } else if !greedy_sampling(*sampling) {
            Err(AttributionError::GreedyOnly)
        } else {
            Ok(())
        }),
{
    if !sampling.ignore_eos {
        return Err(AttributionError::IgnoreEosRequired);
    }
    if (at_least_bits(ZERO_BITS, sampling.temperature) || sampling.top_k == 1) && at_least_bits(
        sampling.top_p,
        ONE_BITS,
    ) {
        Ok(())
    } else {
        Err(AttributionError::GreedyOnly)
    }
}

pub open spec fn steps_of(tokens: nat) -> nat {
    if tokens == 0 {
        0
    } else {
        (tokens - 1) as nat
    }
}

pub open spec fn all_positive(samples: Seq<u64>) -> bool {
    forall|i: int| 0 <= i < samples.len() ==> (#[trigger] samples[i]) > 0
}

/// What is wrong with an attribution.
pub open spec fn attribution_error(
    tokens: nat,
    expected: nat,
    total_us: u64,
    prefill_us: Option<u64>,
    decode_us: Seq<u64>,
) -> Option<AttributionError> {
    if tokens != expected {
        Some(AttributionError::TokenCount { got: tokens as usize, expected: expected as usize })
    } else if decode_us.len() != steps_of(expected) {
        Some(
            AttributionError::TimingCount {
                got: decode_us.len() as usize,
                tokens: tokens as usize,
            },
        )
    } else if total_us == 0 {
        Some(AttributionError::ZeroTotal)
    } else if tokens > 0 && !(prefill_us matches Some(us) && us > 0) {
        Some(AttributionError::MissingTtft)
    } else if !all_positive(decode_us) {
        Some(AttributionError::ZeroDecode)
    } else {
        None
    }
}

fn all_above_zero(samples: &[u64]) -> (r: bool)
    ensures
        r == all_positive(samples@),
{
    let mut i: usize = 0;
    while i < samples.len()
        invariant
            i <= samples.len(),
            forall|k: int| 0 <= k < i ==> (#[trigger] samples@[k]) > 0,
        decreases samples.len() - i,
    {
        if samples[i] == 0 {
            assert(!all_positive(samples@));
            return false;
        }
        i = i + 1;
    }
    true
}

/// Checks an attribution before it is turned into timings: bogus timings are
/// worse than none.
pub fn check_attribution(
    tokens: usize,
    expected: usize,
    total_us: u64,
    prefill_us: Option<u64>,
    decode_us: &[u64],
) -> (r: Result<(), AttributionError>)
    ensures
        match attribution_error(tokens as nat, expected as nat, total_us, prefill_us, decode_us@) {
            Some(error) => r == Err::<(), AttributionError>(error),
            None => r is Ok,
        },
{
    if tokens != expected {
        return Err(AttributionError::TokenCount { got: tokens, expected });
    }
    if decode_us.len() != expected.saturating_sub(1) {
        return Err(AttributionError::TimingCount { got: decode_us.len(), tokens });
    }
    if total_us == 0 {
        return Err(AttributionError::ZeroTotal);
    }
    if tokens > 0 {
        let present: bool = match prefill_us {
            Some(us) => us > 0,
            None => false,
        };
        if !present {
            return Err(AttributionError::MissingTtft);
        }
    }
    if !all_above_zero(decode_us) {
        return Err(AttributionError::ZeroDecode);
    }
    Ok(())
}

/// Spans of a list of microseconds.
pub open spec fn micros_total(samples: Seq<u64>) -> nat
    decreases samples.len(),
{
    if samples.len() == 0 {
        0
    } else {
        micros_total(samples.drop_last()) + 1000 * samples.last() as nat
    }
}

pub open spec fn are_micros(spans: Seq<Duration>, samples: Seq<u64>) -> bool {
    &&& spans.len() == samples.len()
    &&& forall|i: int|
        0 <= i < samples.len() ==> (#[trigger] spans[i]).spec_nanos() == 1000 * samples[i]
}

fn micro_spans(samples: &[u64]) -> (spans: Vec<Duration>)
    ensures
        are_micros(spans@, samples@),
        total_of(spans@) == micros_total(samples@),
{
    let mut spans: Vec<Duration> = Vec::new();
    let mut i: usize = 0;
    assert(samples@.take(0) =~= Seq::<u64>::empty());
    while i < samples.len()
        invariant
            i <= samples.len(),
            are_micros(spans@, samples@.take(i as int)),
            total_of(spans@) == micros_total(samples@.take(i as int)),
        decreases samples.len() - i,
    {
        let ghost before = spans@;
        assert(samples@.take(i as int + 1).drop_last() =~= samples@.take(i as int));
        spans.push(Duration::from_micros(samples[i]));
        assert(spans@.drop_last() =~= before);
        i = i + 1;
    }
    assert(samples@.take(i as int) =~= samples@);
    spans
}

/// The timings of a generation from its attribution.
pub fn timings_from_dsv2_lite_attribution(
    generated_token_ids: Vec<u32>,
    expected_generated_tokens: usize,
    total_generation_us: u64,
    prefill_next_token_us: Option<u64>,
    per_token_decode_us: &[u64],
) -> (r: GenTimings)
    requires
        attribution_error(
            generated_token_ids@.len(),
            expected_generated_tokens as nat,
            total_generation_us,
            prefill_next_token_us,
            per_token_decode_us@,
        ) is None,
        micros_total(per_token_decode_us@) <= MAX_NANOS,
    ensures
        r.ttft.spec_nanos() == 1000 * (match prefill_next_token_us {
            Some(us) => us,
            None => total_generation_us,
        }),
        are_micros(r.tbt@, per_token_decode_us@),
        r.total.spec_nanos() == 1000 * total_generation_us,
        r.emitted_tokens == generated_token_ids@.len(),
        r.generated_tokens == generated_token_ids,
        r.decode_tokens_for_rate == steps_of(generated_token_ids@.len()),
        r.decode_time_for_rate.spec_nanos() == micros_total(per_token_decode_us@),
{
    let emitted_tokens: usize = generated_token_ids.len();
    let tbt = micro_spans(per_token_decode_us);
    let decode_time_for_rate = sum(tbt.as_slice());
    let ttft = match prefill_next_token_us {
        Some(us) => Duration::from_micros(us),
        None => Duration::from_micros(total_generation_us),
    };
    GenTimings {
        ttft,
        tbt,
        total: Duration::from_micros(total_generation_us),
        emitted_tokens,
        generated_tokens: generated_token_ids,
        decode_tokens_for_rate: emitted_tokens.saturating_sub(1),
        decode_time_for_rate,
    }
}

/// The result of generating several rows at once.
pub struct BatchedGenerationResult {
    pub tokens: Vec<Vec<u32>>,
    pub prefill_next_token_us: Vec<u64>,
    pub per_token_decode_us: Vec<u64>,
    pub total_generation_us: u64,
}

/// The first row whose length is not the expected one.
pub open spec fn row_error(rows: Seq<Vec<u32>>, expected: usize) -> Option<AttributionError>
    decreases rows.len(),
{
    if rows.len() == 0 {
        None
    } else {
        match row_error(rows.drop_last(), expected) {
            Some(error) => Some(error),
            None => if rows.last()@.len() != expected {
                Some(
                    AttributionError::BatchTokenCount {
                        row: (rows.len() - 1) as usize,
                        got: rows.last()@.len() as usize,
                        expected,
                    },
                )
            } else {
                None
            },
        }
    }
}

proof fn lemma_row_error_prefix(rows: Seq<Vec<u32>>, expected: usize, n: int)
    requires
        0 <= n <= rows.len(),
        row_error(rows.take(n), expected) is Some,
    ensures
        row_error(rows, expected) == row_error(rows.take(n), expected),
    decreases rows.len() - n,
{
    if n == rows.len() {
        assert(rows.take(n) =~= rows);
    } else {
        assert(rows.take(n + 1).drop_last() =~= rows.take(n));
        lemma_row_error_prefix(rows, expected, n + 1);
    }
}

/// What is wrong with a batched result.
pub open spec fn batch_error(
    result: BatchedGenerationResult,
    expected: usize,
) -> Option<AttributionError> {
    if result.tokens@.len() == 0 {
        Some(AttributionError::EmptyBatch)
    } else if result.prefill_next_token_us@.len() != result.tokens@.len() {
        Some(AttributionError::BatchTtftCount)
    } else if result.total_generation_us == 0 {
        Some(AttributionError::BatchZeroTotal)
    } else if !all_positive(result.prefill_next_token_us@) {
        Some(AttributionError::BatchZeroTtft)
    } else if result.per_token_decode_us@.len() != steps_of(expected as nat) {
        Some(
            AttributionError::BatchTimingCount {
                got: result.per_token_decode_us@.len() as usize,
                tokens: expected,
            },
        )
    } else if !all_positive(result.per_token_decode_us@) {
        Some(AttributionError::BatchZeroDecode)
    } else {
        row_error(result.tokens@, expected)
    }
}

/// Checks a batched result before it is turned into timings.
#[verifier::loop_isolation(false)]
pub fn check_batched_generation(result: &BatchedGenerationResult, expected: usize) -> (r: Result<
    (),
    AttributionError,
>)
    ensures
        match batch_error(*result, expected) {
            Some(error) => r == Err::<(), AttributionError>(error),
            None => r is Ok,
        },
{
    if result.tokens.is_empty() {
        return Err(AttributionError::EmptyBatch);
    }
    if result.prefill_next_token_us.len() != result.tokens.len() {
        return Err(AttributionError::BatchTtftCount);
    }
    if result.total_generation_us == 0 {
        return Err(AttributionError::BatchZeroTotal);
    }
    if !all_above_zero(result.prefill_next_token_us.as_slice()) {
        return Err(AttributionError::BatchZeroTtft);
    }
    if result.per_token_decode_us.len() != expected.saturating_sub(1) {
        return Err(
            AttributionError::BatchTimingCount {
                got: result.per_token_decode_us.len(),
                tokens: expected,
            },
        );
    }
    if !all_above_zero(result.per_token_decode_us.as_slice()) {
        return Err(AttributionError::BatchZeroDecode);
    }
    let ghost rows = result.tokens@;
    let mut row: usize = 0;
    assert(rows.take(0) =~= Seq::<Vec<u32>>::empty());
    while row < result.tokens.len()
        invariant
            row <= rows.len(),
            row_error(rows.take(row as int), expected) is None,
        decreases rows.len() - row,
    {
        proof {
            assert(rows.take(row as int + 1).drop_last() =~= rows.take(row as int));
            if row_error(rows.take(row as int + 1), expected) is Some {
                lemma_row_error_prefix(rows, expected, row as int + 1);
            }
        }
        if result.tokens[row].len() != expected {
            return Err(
                AttributionError::BatchTokenCount { row, got: result.tokens[row].len(), expected },
            );
        }
        row = row + 1;
    }
    assert(rows.take(row as int) =~= rows);
    Ok(())
}

/// The timings of a row: the decode steps are shared by all rows, so their time
/// counts once, with the first row.
pub open spec fn is_row_timing(
    timing: GenTimings,
    tokens: Seq<u32>,
    prefill_us: u64,
    decode_us: Seq<u64>,
    total_us: u64,
    rows: nat,
    row: int,
) -> bool {
    &&& timing.ttft.spec_nanos() == 1000 * prefill_us
    &&& are_micros(timing.tbt@, decode_us)
    &&& timing.total.spec_nanos() == 1000 * total_us
    &&& timing.emitted_tokens == tokens.len()
    &&& timing.generated_tokens@ == tokens
    &&& timing.decode_tokens_for_rate == (if row == 0 {
        rows * decode_us.len()
    } else {
        0
    })
    &&& timing.decode_time_for_rate.spec_nanos() == (if row == 0 {
        micros_total(decode_us)
    } else {
        0
    })
}

/// The timings of a batched result, row by row.
#[verifier::loop_isolation(false)]
pub fn timings_from_dsv2_lite_batched_generation(
    result: BatchedGenerationResult,
    expected_generated_tokens: usize,
) -> (r: Vec<GenTimings>)
    requires
        batch_error(result, expected_generated_tokens) is None,
        micros_total(result.per_token_decode_us@) <= MAX_NANOS,
        result.tokens@.len() * steps_of(expected_generated_tokens as nat) <= usize::MAX,
    ensures
        r@.len() == result.tokens@.len(),
        forall|i: int|
            0 <= i < r@.len() ==> is_row_timing(
                #[trigger] r@[i],
                result.tokens@[i]@,
                result.prefill_next_token_us@[i],
                result.per_token_decode_us@,
                result.total_generation_us,
                result.tokens@.len(),
                i,
            ),
{
    let ghost decode = result.per_token_decode_us@;
    let ghost all = result.tokens@;
    let ghost prefills = result.prefill_next_token_us@;
    let batch_size: usize = result.tokens.len();
    let steps: usize = expected_generated_tokens.saturating_sub(1);
    let total_us: u64 = result.total_generation_us;
    let shared_tokens: usize = batch_size * steps;
    let spans = micro_spans(result.per_token_decode_us.as_slice());
    let shared_time = sum(spans.as_slice());
    let decode_us = result.per_token_decode_us;
    let prefill_us = result.prefill_next_token_us;
    let mut timings: Vec<GenTimings> = Vec::new();
    for tokens in it: result.tokens
        invariant
            it.seq() == all,
            timings@.len() == it.index(),
            forall|i: int|
                0 <= i < it.index() ==> is_row_timing(
                    #[trigger] timings@[i],
                    all[i]@,
                    prefills[i],
                    decode,
                    total_us,
                    all.len(),
                    i,
                ),
    {
        let row: usize = timings.len();
        let emitted_tokens: usize = tokens.len();
        let first: bool = row == 0;
        let tbt = micro_spans(decode_us.as_slice());
        timings.push(
            GenTimings {
                ttft: Duration::from_micros(prefill_us[row]),
                tbt,
                total: Duration::from_micros(total_us),
                emitted_tokens,
                generated_tokens: tokens,
                decode_tokens_for_rate: if first {
                    shared_tokens
                } else {
                    0
                },
                decode_time_for_rate: if first {
                    shared_time
                } else {
                    Duration::zero()
                },
            },
        );
    }
    timings
}

/// An attribution can be turned into timings exactly when it has the tokens that were
/// asked for, a time above zero for each step after the first token, one for the first
/// token, and one for the whole.
pub proof fn lemma_attribution_verdict(
    tokens: nat,
    expected: nat,
    total_us: u64,
    prefill_us: Option<u64>,
    decode_us: Seq<u64>,
)
    ensures
        attribution_error(tokens, expected, total_us, prefill_us, decode_us) is None <==> {
            &&& tokens == expected
            &&& tokens > 0 ==> decode_us.len() + 1 == tokens
            &&& tokens == 0 ==> decode_us.len() == 0
            &&& total_us > 0
            &&& tokens > 0 ==> prefill_us is Some && prefill_us->0 > 0
            &&& forall|i: int| 0 <= i < decode_us.len() ==> (#[trigger] decode_us[i]) > 0
        },
        attribution_error(tokens, expected, total_us, prefill_us, decode_us) is Some
            && tokens <= usize::MAX && expected <= usize::MAX ==> match attribution_error(
            tokens,
            expected,
            total_us,
            prefill_us,
            decode_us,
        )->0 {
            AttributionError::TokenCount { got, expected: e } => tokens != expected && got
                == tokens && e == expected,
            AttributionError::TimingCount { tokens: t, .. } => decode_us.len() != steps_of(expected)
                && t == tokens,
            AttributionError::ZeroTotal => total_us == 0,
            AttributionError::MissingTtft => prefill_us is None || prefill_us->0 == 0,
            AttributionError::ZeroDecode => exists|i: int|
                0 <= i < decode_us.len() && (#[trigger] decode_us[i]) == 0,
            _ => false,
        },
{
}

/// Every row of a batch has the expected length, or the first that has not is named with
/// its length.
pub proof fn lemma_row_verdict(rows: Seq<Vec<u32>>, expected: usize, i: int)
    requires
        rows.len() <= usize::MAX,
    ensures
        row_error(rows, expected) is None <==> forall|k: int|
            0 <= k < rows.len() ==> (#[trigger] rows[k])@.len() == expected,
        0 <= i < rows.len() && rows[i]@.len() != expected && (forall|k: int|
            0 <= k < i ==> (#[trigger] rows[k])@.len() == expected) ==> row_error(rows, expected)
            == Some(
            AttributionError::BatchTokenCount {
                row: i as usize,
                got: rows[i]@.len() as usize,
                expected,
            },
        ),
    decreases rows.len(),
{
    if rows.len() > 0 {
        let head = rows.drop_last();
        let n = rows.len() - 1;
        lemma_row_verdict(head, expected, i);
        assert forall|k: int| 0 <= k < n implies head[k] == #[trigger] rows[k] by {}
        assert(rows[n] == rows.last());
        if row_error(head, expected) is Some {
            let k = choose|k: int|
                0 <= k < head.len() && (#[trigger] head[k])@.len() != expected;
            assert(rows[k]@.len() != expected);
        }
    }
}

/// A batched result can be turned into timings exactly when it has rows of the expected
/// length, a time above zero for the first token of each and for each shared step, and one
/// for the whole.
pub proof fn lemma_batch_verdict(result: BatchedGenerationResult, expected: usize)
    requires
        result.tokens@.len() <= usize::MAX,
    ensures
        batch_error(result, expected) is None <==> {
            &&& result.tokens@.len() > 0
            &&& result.prefill_next_token_us@.len() == result.tokens@.len()
            &&& result.total_generation_us > 0
            &&& forall|i: int|
                0 <= i < result.prefill_next_token_us@.len() ==> (
                #[trigger] result.prefill_next_token_us@[i]) > 0
            &&& expected > 0 ==> result.per_token_decode_us@.len() + 1 == expected
            &&& expected == 0 ==> result.per_token_decode_us@.len() == 0
            &&& forall|i: int|
                0 <= i < result.per_token_decode_us@.len() ==> (
                #[trigger] result.per_token_decode_us@[i]) > 0
            &&& forall|k: int|
                0 <= k < result.tokens@.len() ==> (#[trigger] result.tokens@[k])@.len() == expected
        },
{
    lemma_row_verdict(result.tokens@, expected, -1);
}

/// The microseconds of samples add up, a thousand nanoseconds each.
pub proof fn lemma_micros_add_up(a: Seq<u64>, b: Seq<u64>, sample: u64)
    ensures
        micros_total(a + b) == micros_total(a) + micros_total(b),
        micros_total(seq![sample]) == 1000 * sample,
        micros_total(Seq::<u64>::empty()) == 0,
    decreases b.len(),
{
    reveal_with_fuel(micros_total, 2);
    assert(seq![sample].drop_last() =~= Seq::<u64>::empty());
    if b.len() == 0 {
        assert(a + b =~= a);
    } else {
        lemma_micros_add_up(a, b.drop_last(), sample);
        assert((a + b).drop_last() =~= a + b.drop_last());
    }
}

/// Decode tokens that timings count toward the rate.
pub open spec fn rate_tokens(timings: Seq<GenTimings>) -> nat
    decreases timings.len(),
{
    if timings.len() == 0 {
        0
    } else {
        rate_tokens(timings.drop_last()) + timings.last().decode_tokens_for_rate as nat
    }
}

/// Decode time that timings count toward the rate.
pub open spec fn rate_nanos(timings: Seq<GenTimings>) -> nat
    decreases timings.len(),
{
    if timings.len() == 0 {
        0
    } else {
        rate_nanos(timings.drop_last()) + timings.last().decode_time_for_rate.spec_nanos()
    }
}

proof fn lemma_rate_of_rows(
    timings: Seq<GenTimings>,
    tokens: Seq<Vec<u32>>,
    prefill_us: Seq<u64>,
    decode_us: Seq<u64>,
    total_us: u64,
    rows: nat,
)
    requires
        timings.len() > 0,
        forall|i: int|
            0 <= i < timings.len() ==> is_row_timing(
                #[trigger] timings[i],
                tokens[i]@,
                prefill_us[i],
                decode_us,
                total_us,
                rows,
                i,
            ),
    ensures
        rate_tokens(timings) == rows * decode_us.len(),
        rate_nanos(timings) == micros_total(decode_us),
    decreases timings.len(),
{
    reveal_with_fuel(rate_tokens, 2);
    reveal_with_fuel(rate_nanos, 2);
    let head = timings.drop_last();
    assert(timings.last() == timings[timings.len() - 1]);
    if head.len() > 0 {
        assert forall|i: int| 0 <= i < head.len() implies is_row_timing(
            #[trigger] head[i],
            tokens[i]@,
            prefill_us[i],
            decode_us,
            total_us,
            rows,
            i,
        ) by {
            assert(head[i] == timings[i]);
        }
        lemma_rate_of_rows(head, tokens, prefill_us, decode_us, total_us, rows);
    }
}

/// Over all rows of a batch, the rate counts one token for each row and step, and the time
/// of the shared steps once. Every row shows its own tokens and first-token time.
pub proof fn lemma_shared_steps_count_once(
    result: BatchedGenerationResult,
    expected: usize,
    timings: Vec<GenTimings>,
    i: int,
)
    requires
        batch_error(result, expected) is None,
        call_ensures(timings_from_dsv2_lite_batched_generation, (result, expected), timings),
        0 <= i < timings@.len(),
    ensures
        timings@.len() == result.tokens@.len(),
        rate_tokens(timings@) == result.tokens@.len() * result.per_token_decode_us@.len(),
        rate_nanos(timings@) == micros_total(result.per_token_decode_us@),
        timings@[i].generated_tokens@ == result.tokens@[i]@,
        timings@[i].emitted_tokens == result.tokens@[i]@.len(),
        timings@[i].ttft.spec_nanos() == 1000 * result.prefill_next_token_us@[i],
{
    lemma_rate_of_rows(
        timings@,
        result.tokens@,
        result.prefill_next_token_us@,
        result.per_token_decode_us@,
        result.total_generation_us,
        result.tokens@.len(),
    );
}

/// Sampling is greedy exactly when the temperature is a number without or below zero, or
/// there is a single candidate, and the mass kept is at least all of it. In bit patterns: a
/// temperature with a sign, or zero; a mass from the pattern of one to that of infinity.
pub proof fn lemma_greedy_verdict(sampling: SamplingParams)
    ensures
        greedy_sampling(sampling) <==> {
            &&& sampling.top_k == 1 || sampling.temperature == 0 || 0x8000_0000
                <= sampling.temperature <= 0xff80_0000
            &&& 0x3f80_0000 <= sampling.top_p <= 0x7f80_0000
        },
{
}

/// Streams of different roles are called differently.
pub proof fn lemma_roles_are_told_apart(a: StreamRole, b: StreamRole)
    requires
        role_text(a) == role_text(b),
    ensures
        a == b,
{
    reveal_strlit("scheduler");
    reveal_strlit("background");
    reveal_strlit("injection");
    reveal_strlit("warmup");
    assert("scheduler"@[0] == 's');
    assert("background"@[0] == 'b');
    assert("injection"@[0] == 'i');
    assert("warmup"@[0] == 'w');
}

/// The gaps between moments are one fewer than the moments, and each reaches from its
/// moment to the next.
pub proof fn lemma_gaps_reach_the_next_moment(moments: Seq<Duration>, i: int)
    ensures
        moments.len() > 0 ==> gaps_of(moments).len() + 1 == moments.len(),
        moments.len() == 0 ==> gaps_of(moments).len() == 0,
        0 <= i && i + 1 < moments.len() && moments[i].spec_nanos() <= moments[i + 1].spec_nanos()
            ==> moments[i].spec_nanos() + gaps_of(moments)[i] == moments[i + 1].spec_nanos(),
{
}

/// Spans of microseconds are as many as the samples, and each is a thousand nanoseconds
/// for every microsecond of its sample.
pub proof fn lemma_spans_are_of_their_samples(
    spans: Seq<Duration>,
    samples: Seq<u64>,
    i: int,
)
    requires
        are_micros(spans, samples),
    ensures
        spans.len() == samples.len(),
        0 <= i < samples.len() ==> spans[i].spec_nanos() == 1000 * samples[i],
        total_of(spans) == micros_total(samples),
    decreases samples.len(),
{
    if samples.len() > 0 {
        let (s, m) = (spans.drop_last(), samples.drop_last());
        assert forall|k: int| 0 <= k < m.len() implies (#[trigger] s[k]).spec_nanos() == 1000
            * m[k] by {
            assert(spans[k].spec_nanos() == 1000 * samples[k]);
        }
        lemma_spans_are_of_their_samples(s, m, i);
        assert(spans[spans.len() - 1].spec_nanos() == 1000 * samples[samples.len() - 1]);
    }
}

} // verus!
