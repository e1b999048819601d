//! What the frontend is sent.
use vstd::prelude::*;
use crate::bridge::stats::SchedulerStats;
use crate::engine::{FinishReason, TokenLogprob};

verus! {

#[derive(Clone, Copy, Debug, PartialEq, Eq, Structural)]
pub enum EngineCoreFinishReason {
    Stop,
    Length,
    Error,
}

pub open spec fn wire_finish(reason: FinishReason) -> EngineCoreFinishReason {
    match reason {
        FinishReason::Length => EngineCoreFinishReason::Length,
        FinishReason::Stop => EngineCoreFinishReason::Stop,
        FinishReason::Error => EngineCoreFinishReason::Error,
    }
}

pub fn convert_finish_reason(reason: FinishReason) -> (r: EngineCoreFinishReason)
    ensures
        r == wire_finish(reason),
{
    match reason {
        FinishReason::Length => EngineCoreFinishReason::Length,
        FinishReason::Stop => EngineCoreFinishReason::Stop,
        FinishReason::Error => EngineCoreFinishReason::Error,
    }
}

#[derive(Debug, PartialEq, Eq)]
pub enum StopReason {
    Text(String),
}

#[derive(Clone, Copy, Debug, PartialEq, Eq, Structural)]
pub enum EngineCoreEventType {
    Queued,
    Scheduled,
}

/// A lifecycle event; the timestamp is a double-precision bit pattern.
#[derive(Clone, Copy, Debug, PartialEq, Eq, Structural)]
pub struct EngineCoreEvent {
    pub event_type: EngineCoreEventType,
    pub timestamp: u64,
}

#[derive(Clone, Copy, Debug, PartialEq, Eq, Structural)]
pub struct PrefillStats {
    pub num_prompt_tokens: u32,
    pub num_computed_tokens: u32,
    pub num_cached_tokens: u32,
    pub num_local_cached_tokens: u32,
    pub num_external_cached_tokens: u32,
}

/// The log-probabilities of one emitted position; `None` where none were asked for.
#[derive(Debug, PartialEq, Eq)]
pub struct PositionLogprobs {
    pub token_id: u32,
    pub logprob: Option<TokenLogprob>,
}

/// One request's share of an output message.
#[derive(Debug)]
pub struct EngineCoreOutput {
    pub request_id: String,
    pub new_token_ids: Vec<u32>,
    pub new_logprobs: Option<Vec<PositionLogprobs>>,
    pub finish_reason: Option<EngineCoreFinishReason>,
    pub stop_reason: Option<StopReason>,
    pub events: Option<Vec<EngineCoreEvent>>,
    pub kv_transfer_params: Option<serde_json::Value>,
    pub prefill_stats: Option<PrefillStats>,
}

/// An output, by value.
pub struct OutputView {
    pub request_id: Seq<char>,
    pub new_token_ids: Seq<u32>,
    pub new_logprobs: Option<Seq<PositionLogprobs>>,
    pub finish_reason: Option<EngineCoreFinishReason>,
    pub stop_reason: Option<Seq<char>>,
    pub events: Option<Seq<EngineCoreEvent>>,
    pub kv_transfer_params: Option<serde_json::Value>,
    pub prefill_stats: Option<PrefillStats>,
}

pub open spec fn vec_option<T>(o: Option<Vec<T>>) -> Option<Seq<T>> {
    match o {
        Some(v) => Some(v@),
        None => None,
    }
}

pub open spec fn stop_text(o: Option<StopReason>) -> Option<Seq<char>> {
    match o {
        Some(StopReason::Text(s)) => Some(s@),
        None => None,
    }
}

impl View for EngineCoreOutput {
    type V = OutputView;

    open spec fn view(&self) -> OutputView {
        OutputView {
            request_id: self.request_id@,
            new_token_ids: self.new_token_ids@,
            new_logprobs: vec_option(self.new_logprobs),
            finish_reason: self.finish_reason,
            stop_reason: stop_text(self.stop_reason),
            events: vec_option(self.events),
            kv_transfer_params: self.kv_transfer_params,
            prefill_stats: self.prefill_stats,
        }
    }
}

/// The outputs of one burst and the requests that ended with it, or the scheduler's
/// statistics.
#[derive(Debug)]
pub struct RequestBatchOutputs {
    pub engine_index: u32,
    pub outputs: Vec<EngineCoreOutput>,
    /// The requests that ended, each once; the wire carries them as a set.
    pub finished_requests: Option<Vec<String>>,
    pub scheduler_stats: Option<SchedulerStats>,
}

pub open spec fn output_views(outputs: Seq<EngineCoreOutput>) -> Seq<OutputView> {
    outputs.map_values(|o: EngineCoreOutput| o@)
}

pub open spec fn text_views(texts: Seq<String>) -> Seq<Seq<char>> {
    texts.map_values(|s: String| s@)
}

/// The single output of a request that never reached the scheduler.
pub open spec fn refused(request_id: Seq<char>, stop: Option<Seq<char>>) -> OutputView {
    OutputView {
        request_id,
        new_token_ids: Seq::empty(),
        new_logprobs: None,
        finish_reason: Some(EngineCoreFinishReason::Error),
        stop_reason: stop,
        events: None,
        kv_transfer_params: None,
        prefill_stats: None,
    }
}

/// A message that ends one request with an error.
pub fn terminal_error(
    engine_index: u32,
    request_id: &String,
    stop_reason: Option<StopReason>,
) -> (r: RequestBatchOutputs)
    ensures
        r.engine_index == engine_index,
        output_views(r.outputs@) == seq![refused(request_id@, stop_text(stop_reason))],
        r.finished_requests matches Some(finished) && text_views(finished@) == seq![request_id@],
        r.scheduler_stats is None,
{
    let output = EngineCoreOutput {
        request_id: request_id.clone(),
        new_token_ids: Vec::new(),
        new_logprobs: None,
        finish_reason: Some(EngineCoreFinishReason::Error),
        stop_reason,
        events: None,
        kv_transfer_params: None,
        prefill_stats: None,
    };
    let mut outputs: Vec<EngineCoreOutput> = Vec::new();
    assert(output@.new_token_ids =~= Seq::<u32>::empty());
    outputs.push(output);
    let mut finished: Vec<String> = Vec::new();
    finished.push(request_id.clone());
    assert(output_views(outputs@) =~= seq![refused(request_id@, stop_text(stop_reason))]);
    assert(text_views(finished@) =~= seq![request_id@]);
    RequestBatchOutputs {
        engine_index,
        outputs,
        finished_requests: Some(finished),
        scheduler_stats: None,
    }
}

/// The wire keeps apart how requests end, and names each way as the scheduler does.
pub proof fn lemma_finish_reasons_stay_apart(a: FinishReason, b: FinishReason)
    ensures
        wire_finish(a) == wire_finish(b) ==> a == b,
        wire_finish(a) == EngineCoreFinishReason::Stop <==> a == FinishReason::Stop,
        wire_finish(a) == EngineCoreFinishReason::Length <==> a == FinishReason::Length,
        wire_finish(a) == EngineCoreFinishReason::Error <==> a == FinishReason::Error,
{
}

/// A refused request is answered once, with an error and no token.
pub proof fn lemma_refusal_is_an_error(request_id: Seq<char>, stop: Option<Seq<char>>)
    ensures
        ({
            let output = refused(request_id, stop);
            &&& output.request_id == request_id
            &&& output.finish_reason == Some(EngineCoreFinishReason::Error)
            &&& output.stop_reason == stop
            &&& output.new_token_ids.len() == 0
            &&& output.new_logprobs is None
            &&& output.kv_transfer_params is None
        }),
{
}

} // verus!
