//! The scheduler's own view of a request.
use vstd::prelude::*;
use crate::arith::monus;
use crate::engine::{GenerateRequest, SamplingParams, TokenSink};
use crate::scheduler::phase_trace::{queued, PhaseTracker};

verus! {

#[derive(Clone, Copy, Debug, PartialEq, Eq, Structural)]
pub struct RequestId(pub u64);

impl RequestId {
    pub fn new(id: u64) -> (r: Self)
        ensures
            r == RequestId(id),
    {
        RequestId(id)
    }

    pub fn get(self) -> (id: u64)
        ensures
            id == self.0,
    {
        self.0
    }
}

/// An in-flight request being decoded.
pub struct ActiveRequestState {
    pub request_id: RequestId,
    pub lora_adapter: Option<String>,
    pub token_tx: TokenSink,
    pub last_token: u32,
    pub generated_count: usize,
    pub max_tokens: usize,
    pub prompt_len: usize,
    pub params: SamplingParams,
    /// Number of top logprobs to return (0 = disabled).
    pub logprobs: usize,
}

/// A request whose prompt is not fully prefilled yet.
pub struct PendingRequest {
    pub request_id: RequestId,
    pub lora_adapter: Option<String>,
    pub prompt_tokens: Vec<u32>,
    pub params: SamplingParams,
    pub max_tokens: usize,
    pub token_tx: TokenSink,
    pub logprobs: usize,
    pub echo: bool,
    /// Seconds since the Unix epoch, as a double-precision bit pattern.
    pub queued_at_unix_s: Option<u64>,
    /// Whether this request has already been offered to async KV prefetch.
    /// Offered at most once; a no-hit offer leaves the request in the normal
    /// admission flow with this set so it isn't re-probed every tick.
    pub prefetch_offered: bool,
    /// Prompt tokens whose KV is already computed (prefix-cache hits plus
    /// chunks applied in earlier steps).
    pub prefill_pos: usize,
    /// Prompt tokens to forward in the upcoming step.
    pub step_chunk: usize,
    /// Prefix-cache hits reported by the first chunk, carried across later
    /// chunks so the final result still reports them truthfully.
    pub cached_tokens: usize,
}

impl PendingRequest {
    /// The computed prefix lies within the prompt.
    pub open spec fn well_formed(self) -> bool {
        self.prefill_pos <= self.prompt_tokens@.len()
    }

    pub open spec fn prompt_len(self) -> nat {
        self.prompt_tokens@.len()
    }

    pub open spec fn remaining(self) -> nat {
        monus(self.prompt_tokens@.len(), self.prefill_pos as nat)
    }

    /// The same request with `chunk` tokens scheduled for the upcoming step.
    pub open spec fn with_chunk(self, chunk: nat) -> PendingRequest {
        PendingRequest { step_chunk: chunk as usize, ..self }
    }

    /// The backlog entry of a fresh request.
    pub open spec fn fresh(request_id: RequestId, req: GenerateRequest) -> PendingRequest {
        PendingRequest {
            request_id,
            lora_adapter: req.lora_adapter,
            prompt_tokens: req.prompt_tokens,
            params: req.params,
            max_tokens: req.max_tokens,
            token_tx: req.token_tx,
            logprobs: req.logprobs,
            echo: req.echo,
            queued_at_unix_s: req.queued_at_unix_s,
            prefetch_offered: false,
            prefill_pos: 0,
            step_chunk: 0,
            cached_tokens: 0,
        }
    }

    pub fn from_scheduler_request(request_id: RequestId, req: GenerateRequest) -> (r: Self)
        ensures
            r == PendingRequest::fresh(request_id, req),
            r.well_formed(),
    {
        PendingRequest {
            request_id,
            lora_adapter: req.lora_adapter,
            prompt_tokens: req.prompt_tokens,
            params: req.params,
            max_tokens: req.max_tokens,
            token_tx: req.token_tx,
            logprobs: req.logprobs,
            echo: req.echo,
            queued_at_unix_s: req.queued_at_unix_s,
            prefetch_offered: false,
            prefill_pos: 0,
            step_chunk: 0,
            cached_tokens: 0,
        }
    }

    pub fn remaining_prompt_tokens(&self) -> (r: usize)
        requires
            self.well_formed(),
        ensures
            r == self.remaining(),
    {
        self.prompt_tokens.len() - self.prefill_pos
    }
}

/// Assign a fresh id to an incoming request, open its queue span, and push it onto
/// `deferred`: the span opens exactly when the request enters the backlog.
pub fn admit_new_request(
    deferred: &mut Vec<PendingRequest>,
    tracker: &mut PhaseTracker,
    next_request_id: &mut u64,
    req: GenerateRequest,
)
    requires
        old(tracker).well_formed(),
        *old(next_request_id) < u64::MAX,
    ensures
        final(tracker).well_formed(),
        queued(
            old(tracker)@,
            RequestId(*old(next_request_id)),
            req.trace_parent,
            final(tracker)@,
        ),
        *final(next_request_id) == *old(next_request_id) + 1,
        final(deferred)@ == old(deferred)@.push(
            PendingRequest::fresh(RequestId(*old(next_request_id)), req),
        ),
{
    let id = RequestId(*next_request_id);
    *next_request_id = *next_request_id + 1;
    tracker.enter_queue(id, req.trace_parent);
    deferred.push(PendingRequest::from_scheduler_request(id, req));
}

/// A fresh request asks for what the caller asked for, under the id it was given, and has
/// nothing computed, scheduled, cached or offered yet.
pub proof fn lemma_fresh_request_is_the_callers(request_id: RequestId, req: GenerateRequest)
    ensures
        ({
            let fresh = PendingRequest::fresh(request_id, req);
            &&& fresh.request_id == request_id
            &&& fresh.prompt_tokens == req.prompt_tokens
            &&& fresh.params == req.params
            &&& fresh.max_tokens == req.max_tokens
            &&& fresh.lora_adapter == req.lora_adapter
            &&& fresh.token_tx == req.token_tx
            &&& fresh.logprobs == req.logprobs
            &&& fresh.echo == req.echo
            &&& fresh.queued_at_unix_s == req.queued_at_unix_s
            &&& fresh.remaining() == req.prompt_tokens@.len()
            &&& fresh.step_chunk == 0 && fresh.cached_tokens == 0 && !fresh.prefetch_offered
        }),
{
}

/// What is computed of a prompt and what remains of it are all of it; a chunk that is
/// scheduled changes neither, nor what was asked for.
pub proof fn lemma_prompt_is_computed_or_remains(req: PendingRequest, chunk: usize)
    requires
        req.well_formed(),
    ensures
        req.prefill_pos + req.remaining() == req.prompt_len(),
        req.with_chunk(chunk as nat).step_chunk == chunk,
        req.with_chunk(chunk as nat).remaining() == req.remaining(),
        req.with_chunk(chunk as nat).with_chunk(req.step_chunk as nat) == req,
{
}

} // verus!
