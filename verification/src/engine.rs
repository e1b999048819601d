//! The contract between a model scheduler and the frontends that drive it.
use std::sync::atomic::AtomicU8;
use std::sync::atomic::Ordering;
use std::sync::Arc;
use fastrace::collector::SpanContext;
use tokio::sync::mpsc::UnboundedReceiver;
use tokio::sync::mpsc::UnboundedSender;
use vstd::prelude::*;
use vstd::rwlock::{RwLock, RwLockPredicate, WriteHandle};
use vstd::string::*;

pub use crate::metrics::LoadSnapshot;
pub use crate::metrics::MAX_SPEC_TOKENS;
pub use crate::metrics::SpecDecodeCounters;
pub use crate::metrics::SpecWidthUnsupported;
use crate::arith::{
    ceil_div, div_ceil, lemma_ceil_div_bounds, lemma_ceil_div_is_least, saturated, saturating_mul,
};

verus! {

/// `serde_json::Value`, carried through unread.
#[verifier::external_type_specification]
#[verifier::external_body]
pub struct ExJsonValue(serde_json::Value);

/// `tokio::sync::mpsc::UnboundedSender`, the sending half of an unbounded channel.
#[verifier::external_type_specification]
#[verifier::external_body]
#[verifier::reject_recursive_types(T)]
pub struct ExUnboundedSender<T>(tokio::sync::mpsc::UnboundedSender<T>);

/// How expert-parallel ranks exchange activations.
#[derive(Clone, Copy, Debug, PartialEq, Eq, Structural)]
pub enum EpBackend {
    Nccl,
    DeepEp,
}

impl Default for EpBackend {
    fn default() -> (r: Self)
        ensures
            r == EpBackend::Nccl,
    {
        EpBackend::Nccl
    }
}

/// Tensor- and data-parallel world sizes.
#[derive(Clone, Copy, Debug, PartialEq, Eq, Structural)]
pub struct ParallelConfig {
    pub tp_size: usize,
    pub dp_size: usize,
}

/// How to load an engine.
#[derive(Clone, Debug)]
pub struct EngineLoadOptions {
    pub enable_cuda_graph: bool,
    pub device_ordinals: Vec<usize>,
    pub parallel_config: Option<ParallelConfig>,
    pub ep_backend: EpBackend,
    pub seed: u64,
}

impl Default for EngineLoadOptions {
    fn default() -> (r: Self)
        ensures
            r.enable_cuda_graph,
            r.device_ordinals@ == seq![0usize],
            r.parallel_config is None,
            r.ep_backend == EpBackend::Nccl,
            r.seed == 42,
    {
        let options = EngineLoadOptions {
            enable_cuda_graph: true,
            device_ordinals: vec![0],
            parallel_config: None,
            ep_backend: EpBackend::Nccl,
            seed: 42,
        };
        assert(options.device_ordinals@ =~= seq![0usize]);
        options
    }
}

#[derive(Clone, Debug)]
pub struct ModelInfo {
    pub id: &'static str,
    pub display_name: String,
    pub model_path: String,
    pub max_model_len: Option<u32>,
}

/// One position's log-probabilities, as single-precision bit patterns.
#[derive(Clone, Debug, PartialEq, Eq)]
pub struct TokenLogprob {
    pub logprob: u32,
    pub top_logprobs: Vec<(u32, u32)>,
}

#[derive(Clone, Copy, Debug, PartialEq, Eq, Structural)]
pub enum FinishReason {
    Length,
    Stop,
    Error,
}

/// Sampling controls; the real-valued ones are single-precision bit patterns.
#[derive(Clone, Copy, Debug, PartialEq, Eq, Structural)]
pub struct SamplingParams {
    pub temperature: u32,
    pub top_k: i32,
    pub top_p: u32,
    pub ignore_eos: bool,
}

impl Default for SamplingParams {
    /// Greedy decoding: zero temperature, no top-k cut, the whole distribution.
    fn default() -> (r: Self)
        ensures
            r.temperature == 0,
            r.top_k == -1,
            r.top_p == 0x3f80_0000,
            !r.ignore_eos,
    {
        SamplingParams { temperature: 0, top_k: -1, top_p: 0x3f80_0000, ignore_eos: false }
    }
}

pub struct GenerateRequest {
    pub request_id: Option<String>,
    /// Seconds since the Unix epoch, as a double-precision bit pattern.
    pub queued_at_unix_s: Option<u64>,
    /// The context of the caller's request span, when tracing is on. The scheduler
    /// opens its queue, prefill and decode spans under it, so that they attach to the
    /// trace the frontend started; without one it skips span work.
    pub trace_parent: Option<SpanContext>,
    /// Logical data-parallel rank selected by the frontend. `None` leaves
    /// placement to the model scheduler.
    pub data_parallel_rank: Option<usize>,
    pub prompt_tokens: Vec<u32>,
    pub params: SamplingParams,
    pub max_tokens: usize,
    pub lora_adapter: Option<String>,
    /// Opaque router metadata, from the request's extra argument of this name.
    pub kv_transfer_params: Option<serde_json::Value>,
    /// Where the scheduler emits this request's `TokenEvent`s.
    pub token_tx: TokenSink,
    pub logprobs: usize,
    pub echo: bool,
}

#[derive(Clone, Debug, Eq, PartialEq)]
pub struct LoadLoraAdapterRequest {
    pub lora_name: String,
    pub lora_path: String,
    pub load_inplace: bool,
}

#[derive(Clone, Debug, Eq, PartialEq)]
pub struct UnloadLoraAdapterRequest {
    pub lora_name: String,
    pub lora_int_id: Option<i64>,
}

/// `tokio::sync::oneshot::Sender`, the answering half of a one-message channel.
#[verifier::external_type_specification]
#[verifier::external_body]
#[verifier::reject_recursive_types(T)]
pub struct ExOneshotSender<T>(tokio::sync::oneshot::Sender<T>);

pub enum EngineControlRequest {
    LoadLoraAdapter {
        request: LoadLoraAdapterRequest,
        response_tx: tokio::sync::oneshot::Sender<Result<(), String>>,
    },
    UnloadLoraAdapter {
        request: UnloadLoraAdapterRequest,
        response_tx: tokio::sync::oneshot::Sender<Result<(), String>>,
    },
    ListLoraAdapters { response_tx: tokio::sync::oneshot::Sender<Result<Vec<String>, String>> },
}

pub enum EngineCommand {
    Generate(Box<GenerateRequest>),
    Control(EngineControlRequest),
}

#[derive(Debug, Eq, PartialEq)]
pub enum EngineControlError {
    Unsupported(&'static str),
    ChannelClosed,
    OperationFailed(String),
}

impl EngineControlError {
    pub open spec fn text(self) -> Seq<char> {
        match self {
            EngineControlError::Unsupported(message) => message@,
            EngineControlError::ChannelClosed => "engine control channel closed"@,
            EngineControlError::OperationFailed(message) => "engine control operation failed: "@
                + message@,
        }
    }

    pub fn message(&self) -> (s: String)
        ensures
            s@ == self.text(),
    {
        match self {
            EngineControlError::Unsupported(message) => String::from_str(message),
            EngineControlError::ChannelClosed => String::from_str("engine control channel closed"),
            EngineControlError::OperationFailed(message) => {
                let mut s = String::from_str("engine control operation failed: ");
                s.append(message.as_str());
                s
            },
        }
    }
}

pub type EngineControlResult<T> = Result<T, EngineControlError>;

#[derive(Debug)]
pub enum TokenEvent {
    Scheduled {
        /// Seconds since the Unix epoch, as double-precision bit patterns.
        queued_at_unix_s: u64,
        scheduled_at_unix_s: u64,
        prompt_tokens: usize,
        /// Prompt tokens served from the prefix cache (0 when the engine has
        /// no prefix cache or the value is not known at emit time).
        cached_tokens: usize,
    },
    Token { id: u32, logprob: Option<TokenLogprob> },
    PromptTokens { ids: Vec<u32>, logprobs: Vec<Option<TokenLogprob>> },
    /// Opaque handoff metadata forwarded through the response field
    /// `kv_transfer_params`.
    KvTransfer { params: serde_json::Value },
    Finished { finish_reason: FinishReason, prompt_tokens: usize, completion_tokens: usize },
    Error { message: String, prompt_tokens: usize, completion_tokens: usize },
    Rejected { message: String, prompt_tokens: usize, completion_tokens: usize },
}

/// The tag that routes a [`TokenEvent`] back to its request on the shared
/// output channel: the external request id.
pub type RequestTag = Arc<str>;

/// The single output channel an engine dispatches all requests' token events
/// into, each tagged with its [`RequestTag`].
pub type TokenStreamSender = UnboundedSender<(RequestTag, TokenEvent)>;

/// `<Arc<T> as Clone>::clone` hands out another reference to the same value.
#[verifier::external_body]
pub(crate) fn share<T: ?Sized>(value: &Arc<T>) -> (r: Arc<T>)
    ensures
        r == *value,
{
    value.clone()
}

/// `<UnboundedSender<T> as Clone>::clone` makes another sender of the same channel:
/// a sender stands for its channel, so the two are the same.
#[verifier::external_body]
fn clone_stream(tx: &TokenStreamSender) -> (r: TokenStreamSender)
    ensures
        r == *tx,
{
    tx.clone()
}

/// `UnboundedSender::send` takes the message, or hands it back when the receiving
/// half is closed or dropped. Which of the two happens depends on the receiver.
#[verifier::external_body]
fn stream_send(tx: &TokenStreamSender, message: (RequestTag, TokenEvent)) -> (r: Result<
    (),
    (RequestTag, TokenEvent),
>)
    ensures
        r matches Err(back) ==> back == message,
{
    tx.send(message).map_err(|err| err.0)
}

/// The channel may be handed this message, and take it or refuse it. Which of the two
/// is up to whoever holds the receiver.
pub closed spec fn handed_on(
    tx: TokenStreamSender,
    message: (RequestTag, TokenEvent),
    taken: bool,
) -> bool {
    exists|sent: Result<(), (RequestTag, TokenEvent)>| #[trigger]
        call_ensures(stream_send, (&tx, message), sent) && taken == (sent is Ok)
}

/// `UnboundedSender::is_closed` reports whether the receiving half is closed or
/// dropped. Nothing is promised of the result: it depends on the receiver.
pub assume_specification<T>[ UnboundedSender::<T>::is_closed ](tx: &UnboundedSender<T>) -> bool;

/// The sender may report this of its receiving half. Which it reports is up to
/// whoever holds the receiver.
pub open spec fn reported_closed(tx: TokenStreamSender, closed: bool) -> bool {
    call_ensures(UnboundedSender::<(RequestTag, TokenEvent)>::is_closed, (&tx,), closed)
}

/// `tokio::sync::mpsc::UnboundedReceiver`, the receiving half of an unbounded channel.
#[verifier::external_type_specification]
#[verifier::external_body]
#[verifier::reject_recursive_types(T)]
pub struct ExUnboundedReceiver<T>(tokio::sync::mpsc::UnboundedReceiver<T>);

pub type TokenStreamReceiver = UnboundedReceiver<(RequestTag, TokenEvent)>;

/// `tokio::sync::mpsc::unbounded_channel` makes a fresh channel. Nothing is promised
/// of what its two halves carry: that is decided by later calls.
pub assume_specification<T>[ tokio::sync::mpsc::unbounded_channel::<T> ]() -> (
    UnboundedSender<T>,
    UnboundedReceiver<T>,
);

/// The two halves of one fresh channel.
pub open spec fn one_channel(tx: TokenStreamSender, rx: TokenStreamReceiver) -> bool {
    call_ensures(
        tokio::sync::mpsc::unbounded_channel::<(RequestTag, TokenEvent)>,
        (),
        (tx, rx),
    )
}

/// `<Arc<str> as From<&str>>::from` copies the text into a shared allocation.
#[verifier::external_body]
pub(crate) fn request_tag(text: &str) -> (tag: RequestTag)
    ensures
        (*tag)@ == text@,
{
    Arc::from(text)
}

/// Why a single request was aborted while the shared channel stays open.
#[derive(Clone, Copy, Debug, PartialEq, Eq, Structural)]
pub enum RequestAbortReason {
    NotAborted,
    Cancelled,
    Disconnected,
}

impl RequestAbortReason {
    /// The byte a reason is stored as.
    pub open spec fn raw_spec(self) -> u8 {
        match self {
            RequestAbortReason::NotAborted => 0,
            RequestAbortReason::Cancelled => 1,
            RequestAbortReason::Disconnected => 2,
        }
    }

    pub fn raw(self) -> (raw: u8)
        ensures
            raw == self.raw_spec(),
    {
        match self {
            RequestAbortReason::NotAborted => 0,
            RequestAbortReason::Cancelled => 1,
            RequestAbortReason::Disconnected => 2,
        }
    }

    /// The reason that a byte reads as.
    pub open spec fn of_raw(raw: u8) -> RequestAbortReason {
        match raw {
            1 => RequestAbortReason::Cancelled,
            2 => RequestAbortReason::Disconnected,
            _ => RequestAbortReason::NotAborted,
        }
    }

    /// Every reason survives the trip through its byte, and every other byte
    /// reads as "not aborted".
    pub fn from_raw(raw: u8) -> (r: Self)
        ensures
            r == RequestAbortReason::of_raw(raw),
            forall|reason: RequestAbortReason| #[trigger]
                reason.raw_spec() == raw ==> r == reason,
    {
        match raw {
            1 => RequestAbortReason::Cancelled,
            2 => RequestAbortReason::Disconnected,
            _ => RequestAbortReason::NotAborted,
        }
    }

    /// Publishes the reason: its byte is stored into the cell. Other threads share
    /// the cell, and what it holds afterwards is theirs to change.
    pub fn store(self, abort_reason: &AtomicU8)
        ensures
            stored_into(*abort_reason, self.raw_spec()),
    {
        let store = AtomicU8::store;
        store(abort_reason, self.raw(), Ordering::Release);
    }
}

/// A cell made with this byte in it.
pub open spec fn made_with(cell: AtomicU8, raw: u8) -> bool {
    call_ensures(AtomicU8::new, (raw,), cell)
}

/// This byte was stored into the cell, with release ordering.
pub open spec fn stored_into(cell: AtomicU8, raw: u8) -> bool {
    call_ensures(AtomicU8::store, (&cell, raw, Ordering::Release), ())
}

/// A fresh cell, of a request that is not aborted.
pub(crate) fn fresh_cell() -> (cell: Arc<AtomicU8>)
    ensures
        made_with(*cell, RequestAbortReason::NotAborted.raw_spec()),
{
    let make = AtomicU8::new;
    Arc::new(make(RequestAbortReason::NotAborted.raw()))
}

/// A load of the cell with acquire ordering may give this byte. Which it gives is up
/// to the threads that store into the cell.
pub open spec fn loaded_from(cell: AtomicU8, raw: u8) -> bool {
    call_ensures(AtomicU8::load, (&cell, Ordering::Acquire), raw)
}

/// Per-request handle the scheduler holds to emit [`TokenEvent`]s.
///
/// Each event is tagged with the request's [`RequestTag`] and pushed onto one
/// shared [`TokenStreamSender`]. The frontend aborts a single request by setting
/// its reason without closing the channel the other requests still use; `send`
/// and `is_closed` then report that request as gone, so the scheduler retires it
/// on its next emit. The reason is set with release and read with acquire
/// ordering so the abort is ordered against the frontend dropping the request's
/// stream state.
pub struct TokenSink {
    tag: RequestTag,
    tx: TokenStreamSender,
    abort_reason: Arc<AtomicU8>,
}

impl Clone for TokenSink {
    fn clone(&self) -> (r: Self)
        ensures
            r.tag_spec() == self.tag_spec(),
            r.cell_spec() == self.cell_spec(),
            r.stream_spec() == self.stream_spec(),
    {
        TokenSink {
            tag: share(&self.tag),
            tx: clone_stream(&self.tx),
            abort_reason: share(&self.abort_reason),
        }
    }
}

impl TokenSink {
    /// The request id this sink tags its events with.
    pub closed spec fn tag_spec(self) -> RequestTag {
        self.tag
    }

    /// The cell that the frontend marks when it aborts the request.
    pub closed spec fn cell_spec(self) -> Arc<AtomicU8> {
        self.abort_reason
    }

    /// The shared channel that the events go onto.
    pub closed spec fn stream_spec(self) -> TokenStreamSender {
        self.tx
    }

    /// A load of the request's cell may give a byte that reads as this reason.
    pub open spec fn may_read(self, reason: RequestAbortReason) -> bool {
        exists|raw: u8| #[trigger]
            loaded_from(*self.cell_spec(), raw) && reason == RequestAbortReason::of_raw(raw)
    }

    pub fn new(tag: RequestTag, tx: TokenStreamSender, abort_reason: Arc<AtomicU8>) -> (r: Self)
        ensures
            r.tag_spec() == tag,
            r.cell_spec() == abort_reason,
            r.stream_spec() == tx,
    {
        TokenSink { tag, tx, abort_reason }
    }

    /// Current per-request abort reason, as other threads left it: what a load of
    /// the request's own cell gives, read back as a reason.
    pub fn abort_reason(&self) -> (r: RequestAbortReason)
        ensures
            self.may_read(r),
    {
        let load = AtomicU8::load;
        let raw: u8 = load(&self.abort_reason, Ordering::Acquire);
        let reason = RequestAbortReason::from_raw(raw);
        assert(loaded_from(*self.cell_spec(), raw));
        reason
    }

    /// What goes onto the channel, or comes back at once, for each abort reason.
    pub open spec fn outgoing_spec(self, reason: RequestAbortReason, event: TokenEvent) -> Result<
        (RequestTag, TokenEvent),
        TokenEvent,
    > {
        if reason != RequestAbortReason::NotAborted {
            Err(event)
        } else {
            Ok((self.tag_spec(), event))
        }
    }

    /// What an emit comes to for each abort reason. An aborted request puts nothing on
    /// the channel and gets the event back. Any other hands the channel the event
    /// under its tag, and gets it back where the channel refuses it.
    pub open spec fn sends(
        self,
        reason: RequestAbortReason,
        event: TokenEvent,
        r: Result<(), TokenEvent>,
    ) -> bool {
        match self.outgoing_spec(reason, event) {
            Err(back) => r == Err::<(), TokenEvent>(back),
            Ok(message) => {
                &&& handed_on(self.stream_spec(), message, r is Ok)
                &&& r matches Err(back) ==> back == event
            },
        }
    }

    /// An emit of this event may come to this result.
    pub open spec fn emits(self, event: TokenEvent, r: Result<(), TokenEvent>) -> bool {
        exists|reason: RequestAbortReason| #[trigger]
            self.may_read(reason) && self.sends(reason, event, r)
    }

    /// Emit one event for this request. Hands the event back when the request
    /// was aborted or the shared receiver is gone; the scheduler reads both as
    /// "consumer dropped, retire the request".
    pub fn send(&self, event: TokenEvent) -> (r: Result<(), TokenEvent>)
        ensures
            self.emits(event, r),
    {
        let reason = self.abort_reason();
        self.send_unless_aborted(reason, event)
    }

    /// What `send` does for each abort reason: an aborted request sends nothing.
    pub fn send_unless_aborted(&self, reason: RequestAbortReason, event: TokenEvent) -> (r: Result<
        (),
        TokenEvent,
    >)
        ensures
            self.sends(reason, event, r),
    {
        let message = match self.outgoing(reason, event) {
            Ok(message) => message,
            Err(event) => {
                return Err(event);
            },
        };
        let hand_on = stream_send;
        let sent = hand_on(&self.tx, message);
        assert(call_ensures(stream_send, (&self.stream_spec(), message), sent));
        match sent {
            Ok(()) => Ok(()),
            Err((_, back)) => Err(back),
        }
    }

    /// What goes onto the channel for each abort reason: nothing of an aborted request,
    /// which gets its event back, and else the event under the request's tag.
    pub fn outgoing(&self, reason: RequestAbortReason, event: TokenEvent) -> (r: Result<
        (RequestTag, TokenEvent),
        TokenEvent,
    >)
        ensures
            r == self.outgoing_spec(reason, event),
    {
        if reason != RequestAbortReason::NotAborted {
            Err(event)
        } else {
            Ok(self.tagged(event))
        }
    }

    /// The message that carries an event of this request.
    pub fn tagged(&self, event: TokenEvent) -> (message: (RequestTag, TokenEvent))
        ensures
            message == (self.tag_spec(), event),
    {
        (share(&self.tag), event)
    }

    /// `true` once the request is aborted or the shared receiver is gone: decided
    /// from what the request's cell and the shared channel say.
    pub fn is_closed(&self) -> (closed: bool)
        ensures
            exists|reason: RequestAbortReason, gone: bool| #[trigger]
                self.may_read(reason) && #[trigger] reported_closed(self.stream_spec(), gone)
                    && closed == (reason != RequestAbortReason::NotAborted || gone),
    {
        let reason = self.abort_reason();
        let receiver_closed = UnboundedSender::<(RequestTag, TokenEvent)>::is_closed;
        let gone: bool = receiver_closed(&self.tx);
        assert(reported_closed(self.stream_spec(), gone));
        Self::closed_for(reason, gone)
    }

    /// What `is_closed` makes of the reason and of the receiver.
    pub fn closed_for(reason: RequestAbortReason, receiver_gone: bool) -> (closed: bool)
        ensures
            closed == (reason != RequestAbortReason::NotAborted || receiver_gone),
    {
        reason != RequestAbortReason::NotAborted || receiver_gone
    }

    /// `true` once the frontend explicitly cancelled this request after the
    /// stream had already started.
    pub fn is_cancelled(&self) -> (r: bool)
        ensures
            exists|reason: RequestAbortReason| #[trigger]
                self.may_read(reason) && r == (reason == RequestAbortReason::Cancelled),
    {
        self.abort_reason() == RequestAbortReason::Cancelled
    }

    /// `true` once the frontend observed a client disconnect before the first
    /// response chunk for this request reached the client.
    pub fn is_disconnected(&self) -> (r: bool)
        ensures
            exists|reason: RequestAbortReason| #[trigger]
                self.may_read(reason) && r == (reason == RequestAbortReason::Disconnected),
    {
        self.abort_reason() == RequestAbortReason::Disconnected
    }

    pub fn tag(&self) -> (tag: &RequestTag)
        ensures
            *tag == self.tag_spec(),
    {
        &self.tag
    }

    /// A sink backed by its own private channel, for direct drivers (benchmarks,
    /// integration tests, the simulator) that consume one request's events
    /// without the shared frontend demux. Its abort reason starts as "none".
    pub fn standalone() -> (r: (Self, TokenStreamReceiver))
        ensures
            (*r.0.tag_spec())@ == "local"@,
            one_channel(r.0.stream_spec(), r.1),
            made_with(*r.0.cell_spec(), RequestAbortReason::NotAborted.raw_spec()),
    {
        let make = tokio::sync::mpsc::unbounded_channel::<(RequestTag, TokenEvent)>;
        let (tx, rx) = make();
        let sink = TokenSink::new(request_tag("local"), tx, fresh_cell());
        (sink, rx)
    }
}

/// A reason survives the trip through a request's cell: once it was published, every
/// sink over the cell reads it back, as long as nobody publishes another one, and an
/// aborted request gets each event back. That loads give what was stored is up to the
/// cell.
pub proof fn lemma_stored_reason_is_read_back(sink: TokenSink, reason: RequestAbortReason)
    requires
        stored_into(*sink.cell_spec(), reason.raw_spec()),
        forall|raw: u8| #[trigger]
            stored_into(*sink.cell_spec(), raw) ==> raw == reason.raw_spec(),
        forall|raw: u8| #[trigger]
            loaded_from(*sink.cell_spec(), raw) ==> stored_into(*sink.cell_spec(), raw),
    ensures
        forall|seen: RequestAbortReason| #[trigger] sink.may_read(seen) ==> seen == reason,
        reason != RequestAbortReason::NotAborted ==> forall|
            event: TokenEvent,
            r: Result<(), TokenEvent>,
        | #[trigger]
            sink.emits(event, r) ==> r == Err::<(), TokenEvent>(event),
{
}

/// A request starts out as not aborted: until a reason is published, every sink over a
/// fresh cell reads none and hands each event on. That loads give what the cell was made
/// with is up to the cell.
pub proof fn lemma_fresh_cell_is_not_aborted(sink: TokenSink)
    requires
        made_with(*sink.cell_spec(), RequestAbortReason::NotAborted.raw_spec()),
        forall|raw: u8| #[trigger]
            made_with(*sink.cell_spec(), raw) ==> raw
                == RequestAbortReason::NotAborted.raw_spec(),
        forall|raw: u8| #[trigger]
            loaded_from(*sink.cell_spec(), raw) ==> made_with(*sink.cell_spec(), raw),
    ensures
        forall|seen: RequestAbortReason| #[trigger]
            sink.may_read(seen) ==> seen == RequestAbortReason::NotAborted,
        forall|event: TokenEvent, r: Result<(), TokenEvent>| #[trigger]
            sink.emits(event, r) ==> handed_on(
                sink.stream_spec(),
                (sink.tag_spec(), event),
                r is Ok,
            ),
{
}

/// KV pool capacity as the scheduler actually allocates it: whole blocks of
/// `block_size` tokens. A request of `L` tokens occupies `ceil(L / block_size)`
/// blocks no matter how `L` divides, so a fit check must round per request:
/// summing raw token counts under-counts and can admit a batch that the
/// scheduler then has to defer.
#[derive(Clone, Copy, Debug)]
pub struct KvCapacity {
    /// Blocks available for requests when the pool is empty.
    pub total_blocks: usize,
    /// Tokens per block.
    pub block_size: usize,
}

impl KvCapacity {
    /// Total tokens the pool can hold (`total_blocks * block_size`).
    #[must_use]
    pub fn total_tokens(self) -> (r: usize)
        ensures
            r == saturated(self.total_blocks * self.block_size),
    {
        saturating_mul(self.total_blocks, self.block_size)
    }

    /// Blocks a single request of `tokens` tokens occupies: whole-block
    /// allocation rounds up.
    #[must_use]
    pub fn blocks_for(self, tokens: usize) -> (r: usize)
        ensures
            r == ceil_div(tokens as nat, if self.block_size == 0 {
                1
            } else {
                self.block_size as nat
            }),
    {
        let size: usize = if self.block_size == 0 {
            1
        } else {
            self.block_size
        };
        div_ceil(tokens, size)
    }
}

/// A fit check must round per request: two requests never need fewer blocks than
/// one request of their combined length, and at most one block more. The blocks of a
/// request hold it, and one block fewer would not.
pub proof fn lemma_blocks_round_per_request(a: nat, b: nat, block_size: nat)
    requires
        block_size > 0,
    ensures
        ceil_div(a + b, block_size) <= ceil_div(a, block_size) + ceil_div(b, block_size),
        ceil_div(a, block_size) + ceil_div(b, block_size) <= ceil_div(a + b, block_size) + 1,
        ceil_div(a, block_size) * block_size >= a,
        (ceil_div(a, block_size) - 1) * block_size < a,
{
    lemma_ceil_div_bounds(a, block_size);
    lemma_ceil_div_bounds(b, block_size);
    lemma_ceil_div_bounds(a + b, block_size);
    let (x, y, z) = (
        ceil_div(a, block_size) as int,
        ceil_div(b, block_size) as int,
        ceil_div(a + b, block_size) as int,
    );
    assert(z <= x + y) by (nonlinear_arith)
        requires
            x * block_size >= a,
            y * block_size >= b,
            (z - 1) * block_size < a + b,
            block_size > 0,
    ;
    assert(x + y <= z + 1) by (nonlinear_arith)
        requires
            (x - 1) * block_size < a,
            (y - 1) * block_size < b,
            z * block_size >= a + b,
            block_size > 0,
    ;
}

/// One full KV block that just became reusable from this engine's prefix cache.
#[derive(Clone, Copy, Debug, PartialEq, Eq, Structural)]
pub struct KvStoredBlock {
    /// Chained, sequence-aware block id.
    pub sequence_hash: u64,
    /// Un-chained per-block token hash; the field a prefix-routing radix tree
    /// keys its children by.
    pub tokens_hash: u64,
}

/// A KV-cache block lifecycle event for an out-of-band cache-aware router.
#[derive(Clone, Debug, PartialEq, Eq)]
pub enum KvBlockEvent {
    /// A contiguous run of newly-registered blocks became cacheable. `parent_hash`
    /// is the sequence hash of the block preceding `blocks[0]` (`None` if the run
    /// starts the sequence); each later block chains off the previous one.
    Stored { parent_hash: Option<u64>, blocks: Vec<KvStoredBlock> },
    /// A previously-stored block was evicted from this engine's cache.
    Removed { sequence_hash: u64 },
}

/// What a panicking thread left behind.
#[derive(Clone, Debug, PartialEq, Eq)]
pub enum PanicPayload<'a> {
    Literal(&'a str),
    Text(String),
    Other,
}

pub fn panic_message<'a>(payload: &'a PanicPayload<'a>) -> (message: &'a str)
    ensures
        message@ == (match *payload {
            PanicPayload::Literal(text) => text@,
            PanicPayload::Text(text) => text@,
            PanicPayload::Other => "<non-string panic payload>"@,
        }),
{
    match payload {
        PanicPayload::Literal(text) => text,
        PanicPayload::Text(text) => text.as_str(),
        PanicPayload::Other => "<non-string panic payload>",
    }
}

/// Where a submitted generate request goes.
pub enum SubmitRoute<'a, S, C> {
    /// Straight onto the submit channel.
    Submit(&'a S),
    /// Wrapped into a generate command on the command channel.
    Command(&'a C),
    /// The engine has neither: the request is handed back.
    Closed,
}

/// What the lock around a feed admits: the feed, or nothing once it was taken.
pub struct OneFeed<K> {
    pub feed: K,
}

impl<K> RwLockPredicate<Option<K>> for OneFeed<K> {
    open spec fn inv(self, held: Option<K>) -> bool {
        held is None || held == Some(self.feed)
    }
}

/// A feed that one taker gets, shared by all who might be it.
pub type SharedFeed<K> = Arc<RwLock<Option<K>, OneFeed<K>>>;

/// A lock that was made with this in it.
pub open spec fn began_with<K>(shared: SharedFeed<K>, held: Option<K>) -> bool {
    call_ensures(RwLock::new, (held, Ghost(shared.pred())), *shared)
}

/// One turn at a shared feed: whoever has it takes what is there and leaves nothing.
pub open spec fn one_turn<K>(held: Option<K>, taken: Option<K>, left: Option<K>) -> bool {
    taken == held && left is None
}

/// Takes what a slot holds.
pub fn take_turn<K>(slot: &mut Option<K>) -> (taken: Option<K>)
    ensures
        one_turn(*old(slot), taken, *final(slot)),
{
    slot.take()
}

/// The lock may be acquired with this in it, and be released with that.
pub open spec fn turn_at<K>(shared: SharedFeed<K>, held: Option<K>, left: Option<K>) -> bool {
    exists|handle: WriteHandle<'_, Option<K>, OneFeed<K>>|
        #![trigger call_ensures(WriteHandle::release_write, (handle, left), ())]
        call_ensures(RwLock::acquire_write, (&*shared,), (held, handle)) && call_ensures(
            WriteHandle::release_write,
            (handle, left),
            (),
        )
}

/// The channels of an engine, shared by all clones of its handle.
struct EngineInner<S, C> {
    submit_tx: Option<S>,
    command_tx: Option<C>,
}

/// The frontend's view of an engine, over the endpoint types of its channels:
/// `S` takes generate requests, `C` takes commands, `W` watches one partition's
/// load and `K` receives KV block events.
///
/// The event feed is handed out once, so all clones of a handle share its slot and
/// agree on who took it.
pub struct EngineHandle<S, C, W, K> {
    inner: Arc<EngineInner<S, C>>,
    servable_len: Option<u32>,
    kv_capacity: Option<KvCapacity>,
    load_watches: Vec<Option<W>>,
    kv_events: Option<SharedFeed<K>>,
}

impl<S, C, W: Clone, K> Clone for EngineHandle<S, C, W, K> {
    /// Another handle of the same engine: the channels and the event feed are shared.
    fn clone(&self) -> (r: Self)
        ensures
            r.same_channels(*self),
            r.servable_spec() == self.servable_spec(),
            r.capacity_spec() == self.capacity_spec(),
            r.events_spec() == self.events_spec(),
            r.watches_spec().len() == self.watches_spec().len(),
            forall|i: int|
                0 <= i < self.watches_spec().len() ==> cloned::<Option<W>>(
                    #[trigger] self.watches_spec()[i],
                    r.watches_spec()[i],
                ),
    {
        EngineHandle {
            inner: share(&self.inner),
            servable_len: self.servable_len,
            kv_capacity: self.kv_capacity,
            load_watches: self.load_watches.clone(),
            kv_events: match &self.kv_events {
                Some(feed) => Some(share(feed)),
                None => None,
            },
        }
    }
}

impl<S, C, W, K> EngineHandle<S, C, W, K> {
    pub closed spec fn submit_spec(self) -> Option<S> {
        self.inner.submit_tx
    }

    pub closed spec fn command_spec(self) -> Option<C> {
        self.inner.command_tx
    }

    pub closed spec fn servable_spec(self) -> Option<u32> {
        self.servable_len
    }

    pub closed spec fn capacity_spec(self) -> Option<KvCapacity> {
        self.kv_capacity
    }

    pub closed spec fn watches_spec(self) -> Seq<Option<W>> {
        self.load_watches@
    }

    /// The slot that the event feed was put into, where one was wired.
    pub closed spec fn events_spec(self) -> Option<SharedFeed<K>> {
        self.kv_events
    }

    /// This feed was wired: it was put into the slot, and nothing else ever is.
    pub open spec fn feeds(self, rx: K) -> bool {
        self.events_spec() matches Some(shared) && began_with(shared, Some(rx))
            && shared.pred().feed == rx
    }

    /// A fresh handle: one partition without a load feed, nothing else reported.
    pub open spec fn bare(self) -> bool {
        &&& self.servable_spec() is None
        &&& self.capacity_spec() is None
        &&& self.watches_spec() == seq![None::<W>]
        &&& self.events_spec() is None
    }

    /// Everything but the named fields is as it was.
    pub open spec fn same_channels(self, other: Self) -> bool {
        &&& self.submit_spec() == other.submit_spec()
        &&& self.command_spec() == other.command_spec()
    }

    fn from_parts(submit_tx: Option<S>, command_tx: Option<C>) -> (r: Self)
        ensures
            r.bare(),
            r.submit_spec() == submit_tx,
            r.command_spec() == command_tx,
    {
        let mut load_watches: Vec<Option<W>> = Vec::new();
        load_watches.push(None);
        assert(load_watches@ =~= seq![None::<W>]);
        EngineHandle {
            inner: Arc::new(EngineInner { submit_tx, command_tx }),
            servable_len: None,
            kv_capacity: None,
            load_watches,
            kv_events: None,
        }
    }

    pub fn new(submit_tx: S) -> (r: Self)
        ensures
            r.bare(),
            r.submit_spec() == Some(submit_tx),
            r.command_spec() is None,
    {
        Self::from_parts(Some(submit_tx), None)
    }

    pub fn new_with_command_channel(command_tx: C) -> (r: Self)
        ensures
            r.bare(),
            r.submit_spec() is None,
            r.command_spec() == Some(command_tx),
    {
        Self::from_parts(None, Some(command_tx))
    }

    #[must_use]
    pub fn with_servable_len(self, servable_len: u32) -> (r: Self)
        ensures
            r.same_channels(self),
            r.servable_spec() == Some(servable_len),
            r.capacity_spec() == self.capacity_spec(),
            r.watches_spec() == self.watches_spec(),
            r.events_spec() == self.events_spec(),
    {
        let mut r = self;
        r.servable_len = Some(servable_len);
        r
    }

    pub fn servable_len(&self) -> (r: Option<u32>)
        ensures
            r == self.servable_spec(),
    {
        self.servable_len
    }

    #[must_use]
    pub fn with_kv_capacity(self, kv_capacity: KvCapacity) -> (r: Self)
        ensures
            r.same_channels(self),
            r.servable_spec() == self.servable_spec(),
            r.capacity_spec() == Some(kv_capacity),
            r.watches_spec() == self.watches_spec(),
            r.events_spec() == self.events_spec(),
    {
        let mut r = self;
        r.kv_capacity = Some(kv_capacity);
        r
    }

    /// KV pool capacity, if the engine reported it. A batch whose per-request
    /// block footprint exceeds [`KvCapacity::total_blocks`] cannot be resident
    /// at once.
    pub fn kv_capacity(&self) -> (r: Option<KvCapacity>)
        ensures
            r == self.capacity_spec(),
    {
        self.kv_capacity
    }

    #[must_use]
    pub fn with_load_watch(self, load_watch: W) -> (r: Self)
        ensures
            r.same_channels(self),
            r.servable_spec() == self.servable_spec(),
            r.capacity_spec() == self.capacity_spec(),
            r.watches_spec() == seq![Some(load_watch)],
            r.events_spec() == self.events_spec(),
    {
        let mut r = self;
        let mut watches: Vec<Option<W>> = Vec::new();
        watches.push(Some(load_watch));
        assert(watches@ =~= seq![Some(load_watch)]);
        r.load_watches = watches;
        r
    }

    /// Attach one load feed per logical scheduler partition.
    ///
    /// The vector is also the engine's frontend-visible DP topology, so an
    /// empty vector is an invalid engine rather than a single partition with
    /// missing metrics.
    #[must_use]
    pub fn with_load_watches(self, load_watches: Vec<W>) -> (r: Self)
        requires
            load_watches@.len() > 0,
        ensures
            r.same_channels(self),
            r.servable_spec() == self.servable_spec(),
            r.capacity_spec() == self.capacity_spec(),
            r.watches_spec() == load_watches@.map_values(|w: W| Some(w)),
            r.events_spec() == self.events_spec(),
    {
        let mut r = self;
        let mut watches: Vec<Option<W>> = Vec::new();
        let ghost all = load_watches@;
        for watch in it: load_watches
            invariant
                it.seq() == all,
                watches@ == all.take(it.index() as int).map_values(|w: W| Some(w)),
        {
            watches.push(Some(watch));
            assert(watches@ =~= all.take(it.index() as int + 1).map_values(|w: W| Some(w)));
        }
        assert(all.take(all.len() as int) =~= all);
        r.load_watches = watches;
        r
    }

    /// Number of logical scheduler partitions exposed to the frontend.
    pub fn scheduler_partition_count(&self) -> (r: usize)
        ensures
            r == self.watches_spec().len(),
    {
        self.load_watches.len()
    }

    /// One partition's live load feed, if it wired one. `None` if the partition
    /// does not report a load feed or the index is outside the engine topology.
    pub fn load_watch_for(&self, partition: usize) -> (r: Option<&W>)
        ensures
            r == (if partition < self.watches_spec().len() {
                match self.watches_spec()[partition as int] {
                    Some(w) => Some(&w),
                    None => None,
                }
            } else {
                None
            }),
    {
        if partition < self.load_watches.len() {
            self.load_watches[partition].as_ref()
        } else {
            None
        }
    }

    /// Single-partition compatibility accessor.
    pub fn load_watch(&self) -> (r: Option<&W>)
        ensures
            r == (if self.watches_spec().len() > 0 {
                match self.watches_spec()[0] {
                    Some(w) => Some(&w),
                    None => None,
                }
            } else {
                None
            }),
    {
        self.load_watch_for(0)
    }

    #[must_use]
    pub fn with_kv_events(self, rx: K) -> (r: Self)
        ensures
            r.same_channels(self),
            r.servable_spec() == self.servable_spec(),
            r.capacity_spec() == self.capacity_spec(),
            r.watches_spec() == self.watches_spec(),
            r.feeds(rx),
    {
        let mut r = self;
        let ghost pred = OneFeed { feed: rx };
        let make = RwLock::<Option<K>, OneFeed<K>>::new;
        let lock = make(Some(rx), Ghost(pred));
        r.kv_events = Some(Arc::new(lock));
        r
    }

    /// Take the engine's KV block-event receiver. Returns the receiver on the
    /// first call over this handle and its clones, and `None` thereafter (there is
    /// one stream and one consumer, the cache-aware router pump). `None` also if the
    /// engine wired no feed.
    pub fn take_kv_events(&self) -> (r: Option<K>)
        ensures
            match self.events_spec() {
                Some(shared) => {
                    &&& r matches Some(rx) ==> rx == shared.pred().feed
                    &&& exists|held: Option<K>, left: Option<K>| #[trigger]
                        turn_at(shared, held, left) && one_turn(held, r, left)
                },
                None => r is None,
            },
    {
        match &self.kv_events {
            None => None,
            Some(shared) => {
                let acquire = RwLock::<Option<K>, OneFeed<K>>::acquire_write;
                let release = WriteHandle::<Option<K>, OneFeed<K>>::release_write;
                let (mut slot, handle) = acquire(shared);
                let ghost held = slot;
                let taken = take_turn(&mut slot);
                let ghost left = slot;
                release(handle, slot);
                assert(turn_at(*shared, held, left));
                taken
            },
        }
    }

    /// The channel a generate request is submitted on: the submit channel where
    /// there is one, else the command channel.
    pub fn submit_route(&self) -> (r: SubmitRoute<'_, S, C>)
        ensures
            match r {
                SubmitRoute::Submit(tx) => self.submit_spec() == Some(*tx),
                SubmitRoute::Command(tx) => self.submit_spec() is None && self.command_spec()
                    == Some(*tx),
                SubmitRoute::Closed => self.submit_spec() is None && self.command_spec() is None,
            },
    {
        match &self.inner.submit_tx {
            Some(tx) => SubmitRoute::Submit(tx),
            None => match &self.inner.command_tx {
                Some(tx) => SubmitRoute::Command(tx),
                None => SubmitRoute::Closed,
            },
        }
    }

    pub fn supports_lora_control(&self) -> (r: bool)
        ensures
            r == (self.command_spec() is Some),
    {
        self.inner.command_tx.is_some()
    }

    /// The channel a LoRA control request goes out on, or why it cannot.
    pub fn lora_control_channel(&self) -> (r: EngineControlResult<&C>)
        ensures
            match self.command_spec() {
                Some(tx) => r == Ok::<&C, EngineControlError>(&tx),
                None => r matches Err(EngineControlError::Unsupported(message)) && message@
                    == "engine does not support dynamic LoRA adapter loading"@,
            },
    {
        match &self.inner.command_tx {
            Some(tx) => Ok(tx),
            None => Err(
                EngineControlError::Unsupported(
                    "engine does not support dynamic LoRA adapter loading",
                ),
            ),
        }
    }
}

/// A run of turns at one slot: each finds what the one before it left.
pub open spec fn run_of_turns<K>(
    shared: SharedFeed<K>,
    slots: Seq<Option<K>>,
    taken: Seq<Option<K>>,
) -> bool {
    &&& slots.len() == taken.len() + 1
    &&& forall|i: int|
        0 <= i < taken.len() ==> turn_at(shared, slots[i], slots[i + 1]) && one_turn(
            slots[i],
            #[trigger] taken[i],
            slots[i + 1],
        )
}

/// The first to take an event feed, over a handle and all its clones, gets it; every
/// later one gets nothing. All of them have their turns at the one slot that the feed
/// was put into, one after the other, and the first finds the feed there.
pub proof fn lemma_first_taker_alone_gets_the_feed<S, C, W, K>(
    wired: EngineHandle<S, C, W, K>,
    feed: K,
    slots: Seq<Option<K>>,
    taken: Seq<Option<K>>,
)
    requires
        wired.feeds(feed),
        run_of_turns(wired.events_spec()->0, slots, taken),
        slots[0] == Some(feed),
    ensures
        forall|i: int|
            0 <= i < taken.len() ==> (#[trigger] taken[i]) == (if i == 0 {
                Some(feed)
            } else {
                None
            }),
{
    assert forall|i: int| 0 <= i < taken.len() implies (#[trigger] taken[i]) == (if i == 0 {
        Some(feed)
    } else {
        None
    }) by {
        if i > 0 {
            assert(one_turn(slots[i - 1], taken[i - 1], slots[i]));
        }
    }
}

/// How the reply to a control request reached the caller.
pub enum ControlReply<T> {
    /// The command could not be sent, or the engine dropped the reply channel.
    Lost,
    Answered(Result<T, String>),
}

/// What a control request returns for each reply.
pub fn control_result<T>(reply: ControlReply<T>) -> (r: EngineControlResult<T>)
    ensures
        match reply {
            ControlReply::Lost => r == Err::<T, _>(EngineControlError::ChannelClosed),
            ControlReply::Answered(Ok(value)) => r == Ok::<_, EngineControlError>(value),
            ControlReply::Answered(Err(message)) => r == Err::<T, _>(
                EngineControlError::OperationFailed(message),
            ),
        },
{
    match reply {
        ControlReply::Lost => Err(EngineControlError::ChannelClosed),
        ControlReply::Answered(Ok(value)) => Ok(value),
        ControlReply::Answered(Err(message)) => Err(EngineControlError::OperationFailed(message)),
    }
}

/// The blocks of a request are the fewest that hold its tokens.
pub proof fn lemma_request_takes_the_fewest_blocks(
    capacity: KvCapacity,
    tokens: usize,
    r: usize,
    n: nat,
)
    requires
        capacity.block_size > 0,
        call_ensures(KvCapacity::blocks_for, (capacity, tokens), r),
    ensures
        r <= n <==> tokens <= n * capacity.block_size,
{
    lemma_ceil_div_is_least(tokens as nat, capacity.block_size as nat, n);
}

/// The tokens of a pool are those of all its blocks, as far as a size can tell.
pub proof fn lemma_pool_holds_its_blocks(capacity: KvCapacity, r: usize)
    requires
        call_ensures(KvCapacity::total_tokens, (capacity,), r),
    ensures
        r <= capacity.total_blocks * capacity.block_size,
        r < usize::MAX ==> r == capacity.total_blocks * capacity.block_size,
{
}

/// Every reason has a byte of its own, and reads back from it.
pub proof fn lemma_reasons_have_their_own_bytes(a: RequestAbortReason, b: RequestAbortReason)
    ensures
        RequestAbortReason::of_raw(a.raw_spec()) == a,
        a.raw_spec() == b.raw_spec() <==> a == b,
{
}

/// An event of an aborted request comes back, whatever the reason, and is not sent; an
/// event of any other goes out as it is, under the request's own tag.
pub proof fn lemma_only_live_requests_send(
    sink: TokenSink,
    reason: RequestAbortReason,
    event: TokenEvent,
)
    ensures
        sink.outgoing_spec(reason, event) is Ok <==> reason is NotAborted,
        sink.outgoing_spec(reason, event) matches Ok(message) ==> message.0 == sink.tag_spec()
            && message.1 == event,
        sink.outgoing_spec(reason, event) matches Err(back) ==> back == event,
{
}

} // verus!
