//! Starting requests, answering utility calls, and what ends a bridge.
use vstd::prelude::*;
use vstd::string::*;
use crate::arith::{ceil_div, lemma_ceil_div_is_least, saturated};
use crate::bridge::output::{
    output_views, refused, terminal_error, text_views, RequestBatchOutputs, StopReason,
};
use crate::bridge::streams::RequestStreamState;
use crate::engine::{
    fresh_cell, made_with, request_tag, share, GenerateRequest, KvCapacity, RequestAbortReason,
    SamplingParams, TokenSink, TokenStreamSender,
};
use crate::paths::{join_path, joined};
use crate::text::{
    decimal, lemma_decimal_tells_numbers_apart, push_decimal, push_size, same_text,
};
use crate::tracing::{
    context_of, lemma_only_traced_requests_carry_a_context, open_request, opened, parent_of,
};

verus! {

/// The token kept as the removable last token of a stop output: EOS, or else the
/// first explicit stop token.
pub fn stop_sentinel_id(eos_token_id: Option<u32>, stop_token_ids: &[u32]) -> (r: Option<u32>)
    ensures
        r == (match eos_token_id {
            Some(id) => Some(id),
            None => if stop_token_ids@.len() > 0 {
                Some(stop_token_ids@[0])
            } else {
                None
            },
        }),
{
    match eos_token_id {
        Some(id) => Some(id),
        None => {
            if stop_token_ids.len() > 0 {
                Some(stop_token_ids[0])
            } else {
                None
            }
        },
    }
}

/// The sampling part of an incoming request, as the wire layer read it.
pub struct SamplingRequest {
    /// A parameter the engine cannot honor, if one was asked for.
    pub unsupported: Option<String>,
    /// The adapter named by the request, or why its name could not be read.
    pub lora_adapter: Result<Option<String>, String>,
    pub eos_token_id: Option<u32>,
    pub stop_token_ids: Vec<u32>,
    pub max_tokens: u32,
    pub params: SamplingParams,
    pub logprobs: usize,
    /// The arguments beyond the engine's own, by name.
    pub extra_args: Option<Vec<(String, serde_json::Value)>>,
}

/// The value that a list of arguments has under a name: the first, should the name
/// occur more than once.
pub open spec fn argument(args: Seq<(String, serde_json::Value)>, name: Seq<char>) -> Option<
    serde_json::Value,
>
    decreases args.len(),
{
    if args.len() == 0 {
        None
    } else if args[0].0@ == name {
        Some(args[0].1)
    } else {
        argument(args.drop_first(), name)
    }
}

/// Takes the value under a name out of a list of arguments.
pub fn take_argument(args: Vec<(String, serde_json::Value)>, name: &str) -> (value: Option<
    serde_json::Value,
>)
    ensures
        value == argument(args@, name@),
{
    let ghost all = args@;
    let mut rest = args;
    let mut i: usize = 0;
    assert(all.skip(0) =~= all);
    while i < rest.len()
        invariant
            all == args@,
            rest@ == all,
            i <= rest.len(),
            argument(all, name@) == argument(all.skip(i as int), name@),
        decreases rest.len() - i,
    {
        assert(all.skip(i as int).drop_first() =~= all.skip(i as int + 1));
        assert(all.skip(i as int)[0] == all[i as int]);
        if same_text(rest[i].0.as_str(), name) {
            let found = rest.remove(i);
            return Some(found.1);
        }
        i = i + 1;
    }
    None
}

/// The metadata for a router that a request hands through to the scheduler.
pub open spec fn transfer_params(sampling: SamplingRequest) -> Option<serde_json::Value> {
    match sampling.extra_args {
        Some(args) => argument(args@, "kv_transfer_params"@),
        None => None,
    }
}

/// An incoming request.
pub struct EngineCoreRequest {
    pub request_id: String,
    pub prompt_token_ids: Option<Vec<u32>>,
    pub sampling_params: Option<SamplingRequest>,
    /// Seconds since the Unix epoch, as a double-precision bit pattern.
    pub arrival_time: u64,
}

/// Why a request never reaches the scheduler: the stop text of its terminal
/// output. A missing part or an unsupported parameter ends it without one.
pub open spec fn refusal(request: EngineCoreRequest) -> Option<Option<Seq<char>>> {
    match (request.prompt_token_ids, request.sampling_params) {
        (Some(_), Some(sampling)) => if sampling.unsupported is Some {
            Some(None)
        } else {
            match sampling.lora_adapter {
                Err(message) => Some(Some(message@)),
                Ok(_) => None,
            }
        },
        _ => Some(None),
    }
}

/// A request ready to be submitted, and the stream to register once it was.
pub struct PreparedRequest {
    pub request: GenerateRequest,
    pub stream: RequestStreamState,
}

/// A request, ready for the scheduler, with a fresh stream. Its sink sends on the
/// given channel, and its cell is a new one that says "not aborted". Its root span is
/// open, and its phases hang from the context of that span.
pub open spec fn prepares(
    engine_index: u32,
    request: EngineCoreRequest,
    event_tx: TokenStreamSender,
    tracing: bool,
    prepared: PreparedRequest,
) -> bool {
    &&& prepared.request.request_id == Some(request.request_id)
    &&& prepared.request.queued_at_unix_s == Some(request.arrival_time)
    &&& prepared.request.data_parallel_rank == Some(engine_index as usize)
    &&& Some(prepared.request.prompt_tokens) == request.prompt_token_ids
    &&& request.sampling_params matches Some(sampling)
    &&& prepared.request.params == sampling.params
    &&& prepared.request.max_tokens == sampling.max_tokens
    &&& Ok::<_, String>(prepared.request.lora_adapter) == sampling.lora_adapter
    &&& prepared.request.kv_transfer_params == transfer_params(sampling)
    &&& prepared.request.logprobs == sampling.logprobs
    &&& !prepared.request.echo
    &&& (*prepared.request.token_tx.tag_spec())@ == request.request_id@
    &&& prepared.request.token_tx.stream_spec() == event_tx
    &&& prepared.stream@.cell == prepared.request.token_tx.cell_spec()
    &&& made_with(*prepared.stream@.cell, RequestAbortReason::NotAborted.raw_spec())
    &&& prepared.stream@.events is None
    &&& prepared.stream@.stats is None
    &&& prepared.stream@.kv_transfer is None
    &&& !prepared.stream@.emitted
    &&& opened(tracing, request.request_id@, prepared.stream@.trace_root)
    &&& context_of(prepared.stream@.trace_root, prepared.request.trace_parent)
    &&& prepared.stream@.sentinel == (match sampling.eos_token_id {
        Some(id) => Some(id),
        None => if sampling.stop_token_ids@.len() > 0 {
            Some(sampling.stop_token_ids@[0])
        } else {
            None
        },
    })
}

/// What starting a request comes to.
pub enum StartOutcome {
    Submit(PreparedRequest),
    Refuse(RequestBatchOutputs),
}

/// Prepares a request for the scheduler, or ends it at once with an error.
/// Silently ignoring a requested parameter would change outputs without telling
/// the client, so unsupported ones are refused.
pub fn start_request(
    engine_index: u32,
    request: EngineCoreRequest,
    event_tx: TokenStreamSender,
    tracing: bool,
) -> (r: StartOutcome)
    ensures
        match r {
            StartOutcome::Refuse(message) => {
                &&& refusal(request) is Some
                &&& message.engine_index == engine_index
                &&& output_views(message.outputs@) == seq![
                    refused(request.request_id@, refusal(request)->Some_0),
                ]
                &&& message.finished_requests matches Some(finished)
                &&& text_views(finished@) == seq![request.request_id@]
                &&& message.scheduler_stats is None
            },
            StartOutcome::Submit(prepared) => {
                &&& refusal(request) is None
                &&& prepares(engine_index, request, event_tx, tracing, prepared)
                &&& prepared.request.trace_parent is Some <==> tracing
            },
        },
{
    let prompt_tokens = match request.prompt_token_ids {
        Some(tokens) => tokens,
        None => {
            return StartOutcome::Refuse(terminal_error(engine_index, &request.request_id, None));
        },
    };
    let sampling = match request.sampling_params {
        Some(sampling) => sampling,
        None => {
            return StartOutcome::Refuse(terminal_error(engine_index, &request.request_id, None));
        },
    };
    if sampling.unsupported.is_some() {
        return StartOutcome::Refuse(terminal_error(engine_index, &request.request_id, None));
    }
    let lora_adapter = match sampling.lora_adapter {
        Ok(adapter) => adapter,
        Err(message) => {
            return StartOutcome::Refuse(
                terminal_error(
                    engine_index,
                    &request.request_id,
                    Some(StopReason::Text(message)),
                ),
            );
        },
    };
    let sentinel = stop_sentinel_id(sampling.eos_token_id, sampling.stop_token_ids.as_slice());
    let kv_transfer_params = match sampling.extra_args {
        Some(args) => take_argument(args, "kv_transfer_params"),
        None => None,
    };
    let tag = request_tag(request.request_id.as_str());
    let cell = fresh_cell();
    let token_tx = TokenSink::new(tag, event_tx, share(&cell));
    let trace_root = open_request(tracing, request.request_id.as_str());
    let trace_parent = parent_of(&trace_root);
    proof {
        lemma_only_traced_requests_carry_a_context(
            tracing,
            request.request_id@,
            trace_root,
            trace_parent,
        );
    }
    let generate = GenerateRequest {
        trace_parent,
        request_id: Some(request.request_id),
        queued_at_unix_s: Some(request.arrival_time),
        data_parallel_rank: Some(engine_index as usize),
        prompt_tokens,
        params: sampling.params,
        max_tokens: sampling.max_tokens as usize,
        lora_adapter,
        kv_transfer_params,
        token_tx,
        logprobs: sampling.logprobs,
        echo: false,
    };
    StartOutcome::Submit(
        PreparedRequest {
            request: generate,
            stream: RequestStreamState::new(cell, trace_root, sentinel),
        },
    )
}

/// A request message has a type frame and a payload frame.
pub open spec fn frame_error_text(frames: nat) -> Seq<char> {
    "expected 2 local engine request frames, got "@ + decimal(frames)
}

pub fn check_frames(frames: usize) -> (r: Result<(), String>)
    ensures
        frames == 2 <==> r is Ok,
        r matches Err(message) ==> message@ == frame_error_text(frames as nat),
{
    if frames == 2 {
        return Ok(());
    }
    let mut message = String::from_str("expected 2 local engine request frames, got ");
    push_size(&mut message, frames);
    Err(message)
}

/// The value a utility call is answered with.
#[derive(Clone, Copy, Debug, PartialEq, Eq, Structural)]
pub enum UtilityResult {
    False,
    Nil,
}

/// The methods that ask a yes-or-no question; this engine never sleeps, pauses or
/// resets its prefix cache on request.
pub open spec fn answers_false(method: Seq<char>) -> bool {
    method == "is_sleeping"@ || method == "is_paused"@ || method == "reset_prefix_cache"@
}

pub fn utility_result(method_name: &str) -> (r: UtilityResult)
    ensures
        r == (if answers_false(method_name@) {
            UtilityResult::False
        } else {
            UtilityResult::Nil
        }),
{
    if same_text(method_name, "is_sleeping") || same_text(method_name, "is_paused") || same_text(
        method_name,
        "reset_prefix_cache",
    ) {
        UtilityResult::False
    } else {
        UtilityResult::Nil
    }
}

/// The type of the model's weights, as the frontend knows it.
#[derive(Clone, Copy, Debug, PartialEq, Eq, Structural)]
pub enum ModelDtype {
    BFloat16,
}

/// What the engine announces when it connects. The concurrency estimate is the
/// quotient of the two counts: pool blocks over blocks of a longest request.
#[derive(Clone, Copy, Debug, PartialEq, Eq)]
pub struct ReadyResponse {
    pub max_model_len: u64,
    pub num_gpu_blocks: u64,
    pub block_size: u64,
    pub dtype: ModelDtype,
    pub vllm_version: &'static str,
    pub world_size: u64,
    pub data_parallel_size: u64,
    pub kv_cache_size_tokens: Option<u64>,
    pub kv_cache_max_concurrency: Option<(u64, u64)>,
}

pub fn ready_response(
    max_model_len: u32,
    data_parallel_size: u32,
    kv_capacity: Option<KvCapacity>,
) -> (r: ReadyResponse)
    requires
        kv_capacity matches Some(c) ==> c.block_size > 0,
    ensures
        r.max_model_len == max_model_len,
        r.dtype == ModelDtype::BFloat16,
        r.vllm_version@ == "openinfer-local-bridge"@,
        r.world_size == 1,
        r.data_parallel_size == data_parallel_size,
        match kv_capacity {
            Some(c) => {
                &&& r.num_gpu_blocks == c.total_blocks
                &&& r.block_size == c.block_size
                &&& r.kv_cache_size_tokens == Some(saturated(c.total_blocks * c.block_size) as u64)
                &&& r.kv_cache_max_concurrency matches Some((blocks, per_request))
                &&& blocks == c.total_blocks
                &&& per_request == ceil_div(max_model_len as nat, c.block_size as nat)
            },
            None => {
                &&& r.num_gpu_blocks == 0
                &&& r.block_size == 16
                &&& r.kv_cache_size_tokens is None
                &&& r.kv_cache_max_concurrency is None
            },
        },
{
    match kv_capacity {
        Some(c) => {
            let size: u64 = c.block_size as u64;
            let len: u64 = max_model_len as u64;
            let quotient: u64 = len / size;
            let rest: u64 = len % size;
            let per_request: u64 = if rest > 0 {
                quotient + 1
            } else {
                quotient
            };
            proof {
                lemma_rounded_up(len as int, size as int);
            }
            ReadyResponse {
                max_model_len: len,
                num_gpu_blocks: c.total_blocks as u64,
                block_size: size,
                dtype: ModelDtype::BFloat16,
                vllm_version: "openinfer-local-bridge",
                world_size: 1,
                data_parallel_size: data_parallel_size as u64,
                kv_cache_size_tokens: Some(c.total_tokens() as u64),
                kv_cache_max_concurrency: Some((c.total_blocks as u64, per_request)),
            }
        },
        None => ReadyResponse {
            max_model_len: max_model_len as u64,
            num_gpu_blocks: 0,
            block_size: 16,
            dtype: ModelDtype::BFloat16,
            vllm_version: "openinfer-local-bridge",
            world_size: 1,
            data_parallel_size: data_parallel_size as u64,
            kv_cache_size_tokens: None,
            kv_cache_max_concurrency: None,
        },
    }
}

proof fn lemma_rounded_up(n: int, d: int)
    requires
        n >= 0,
        d > 0,
    ensures
        ceil_div(n as nat, d as nat) == (if n % d > 0 {
            n / d + 1
        } else {
            n / d
        }),
        n / d <= n,
{
    let (q, rest) = (n / d, n % d);
    vstd::arithmetic::div_mod::lemma_fundamental_div_mod(n, d);
    if rest > 0 {
        assert(n + d - 1 == (q + 1) * d + (rest - 1)) by (nonlinear_arith)
            requires
                n == d * q + rest,
        ;
        vstd::arithmetic::div_mod::lemma_fundamental_div_mod_converse(
            n + d - 1,
            d,
            q + 1,
            rest - 1,
        );
    } else {
        assert(n + d - 1 == q * d + (d - 1)) by (nonlinear_arith)
            requires
                n == d * q,
        ;
        vstd::arithmetic::div_mod::lemma_fundamental_div_mod_converse(n + d - 1, d, q, d - 1);
    }
    assert(q <= n) by (nonlinear_arith)
        requires
            n == d * q + rest,
            rest >= 0,
            d > 0,
            n >= 0,
    ;
}

/// How a child task of the bridge ended.
pub enum ChildExit {
    Returned { name: String },
    Failed { name: String },
    Panicked { error: String },
    NoneLeft,
}

/// Why the bridge stops when a child task ends before shutdown.
pub open spec fn child_exit_text(exit: ChildExit) -> Seq<char> {
    match exit {
        ChildExit::Returned { name } => "local engine "@ + name@ + " exited unexpectedly"@,
        ChildExit::Failed { name } => "local engine "@ + name@ + " failed"@,
        ChildExit::Panicked { error } => "local engine child task panicked: "@ + error@,
        ChildExit::NoneLeft => "local engine child task set became empty"@,
    }
}

/// A child task that ends during shutdown is expected; any other exit is fatal,
/// because the engine would stay registered with stale metrics.
pub fn child_exit_verdict(shutting_down: bool, exit: &ChildExit) -> (r: Result<(), String>)
    ensures
        shutting_down <==> r is Ok,
        r matches Err(message) ==> message@ == child_exit_text(*exit),
{
    if shutting_down {
        return Ok(());
    }
    let message = match exit {
        ChildExit::Returned { name } => {
            let mut s = String::from_str("local engine ");
            s.append(name.as_str());
            s.append(" exited unexpectedly");
            s
        },
        ChildExit::Failed { name } => {
            let mut s = String::from_str("local engine ");
            s.append(name.as_str());
            s.append(" failed");
            s
        },
        ChildExit::Panicked { error } => {
            let mut s = String::from_str("local engine child task panicked: ");
            s.append(error.as_str());
            s
        },
        ChildExit::NoneLeft => String::from_str("local engine child task set became empty"),
    };
    Err(message)
}

/// The lowercase hexadecimal digits and dashes of a hyphenated identifier.
pub open spec fn is_uuid_char(c: char) -> bool {
    ('0' <= c && c <= '9') || ('a' <= c && c <= 'f') || c == '-'
}

/// `uuid::Uuid::new_v4` draws a random identifier, and its text is 36 characters
/// of lowercase hexadecimal digits, with a dash after the first eight digits and
/// after each of the next three groups of four. Which digits is left to chance.
#[verifier::external_body]
fn random_uuid() -> (s: String)
    ensures
        s@.len() == 36,
        s.is_ascii(),
        forall|i: int| 0 <= i < 36 ==> is_uuid_char(#[trigger] s@[i]),
        forall|i: int| 0 <= i < 8 ==> (#[trigger] s@[i]) != '-',
{
    uuid::Uuid::new_v4().to_string()
}

/// The directory name of an IPC namespace for a process and an identifier.
pub open spec fn namespace_text(pid: nat, unique: Seq<char>) -> Seq<char> {
    "pgi-"@ + decimal(pid) + "-"@ + unique
}

/// The directory name of the namespace for this process and this identifier: the
/// process id and the identifier's first eight digits.
pub fn ipc_namespace_for(pid: u32, uuid: &str) -> (name: String)
    requires
        uuid.is_ascii(),
        uuid@.len() >= 8,
    ensures
        name@ == namespace_text(pid as nat, uuid@.subrange(0, 8)),
{
    let mut name = String::from_str("pgi-");
    push_decimal(&mut name, pid as u64);
    name.append("-");
    name.append(uuid.substring_ascii(0, 8));
    name
}

/// This identifier was drawn.
pub closed spec fn drawn_uuid(uuid: String) -> bool {
    call_ensures(random_uuid, (), uuid)
}

/// A fresh directory name for the IPC endpoints of this process, under the first eight
/// digits of a freshly drawn identifier.
pub fn local_ipc_namespace(pid: u32) -> (name: String)
    ensures
        exists|uuid: String| #[trigger]
            drawn_uuid(uuid) && name@ == namespace_text(pid as nat, uuid@.subrange(0, 8)) && (
            forall|i: int|
                0 <= i < 8 ==> is_uuid_char(#[trigger] uuid@.subrange(0, 8)[i]) && uuid@[i] != '-'),
{
    let draw = random_uuid;
    let uuid = draw();
    let name = ipc_namespace_for(pid, uuid.as_str());
    assert(drawn_uuid(uuid));
    name
}

/// The address of an endpoint in a namespace directory.
pub fn ipc_endpoint(namespace: &str, name: &str) -> (address: String)
    ensures
        address@ == "ipc://"@ + joined(namespace@, name@),
{
    let mut address = String::from_str("ipc://");
    address.append(join_path(namespace, name).as_str());
    address
}

/// A named argument is found exactly when the list has one of that name, and it is the
/// first of them.
pub proof fn lemma_argument_is_the_first(
    args: Seq<(String, serde_json::Value)>,
    name: Seq<char>,
    i: int,
)
    ensures
        argument(args, name) is None <==> forall|k: int|
            0 <= k < args.len() ==> (#[trigger] args[k]).0@ != name,
        0 <= i < args.len() && args[i].0@ == name && (forall|k: int|
            0 <= k < i ==> (#[trigger] args[k]).0@ != name) ==> argument(args, name) == Some(
            args[i].1,
        ),
    decreases args.len(),
{
    if args.len() > 0 {
        let rest = args.drop_first();
        lemma_argument_is_the_first(rest, name, i - 1);
        assert forall|k: int| 1 <= k < args.len() implies #[trigger] args[k] == rest[k - 1] by {}
        if args[0].0@ != name {
            if argument(args, name) is None {
                assert forall|k: int| 0 <= k < args.len() implies (#[trigger] args[k]).0@
                    != name by {
                    if k > 0 {
                        assert(rest[k - 1].0@ != name);
                    }
                }
            } else {
                let k = choose|k: int| 0 <= k < rest.len() && (#[trigger] rest[k]).0@ == name;
                assert(args[k + 1].0@ == name);
            }
            if 0 <= i < args.len() && args[i].0@ == name && (forall|k: int|
                0 <= k < i ==> (#[trigger] args[k]).0@ != name) {
                assert forall|k: int| 0 <= k < i - 1 implies (#[trigger] rest[k]).0@ != name by {
                    assert(args[k + 1].0@ != name);
                }
                assert(rest[i - 1] == args[i]);
            }
        }
    }
}

/// A request reaches the scheduler exactly when it has a prompt and sampling parameters,
/// asks for nothing that is not supported, and its adapter could be read. Only a bad
/// adapter is answered with a text: its own.
pub proof fn lemma_refusal_verdict(request: EngineCoreRequest)
    ensures
        refusal(request) is None <==> request.prompt_token_ids is Some && (
        request.sampling_params matches Some(sampling) && sampling.unsupported is None
            && sampling.lora_adapter is Ok),
        refusal(request) matches Some(Some(text)) ==> (request.sampling_params matches Some(
            sampling,
        ) && sampling.lora_adapter is Err && sampling.lora_adapter->Err_0@ == text),
        request.prompt_token_ids is Some && (request.sampling_params matches Some(sampling)
            && sampling.unsupported is None && sampling.lora_adapter is Err) ==> refusal(
            request,
        ) matches Some(Some(_)),
{
}

/// What is submitted is the request that came in: its own id, prompt, parameters, limit and
/// adapter. Its answers go out under its id, and until an abort they may.
pub proof fn lemma_submitted_request_is_the_one_that_came(
    engine_index: u32,
    request: EngineCoreRequest,
    event_tx: TokenStreamSender,
    tracing: bool,
    prepared: PreparedRequest,
)
    requires
        call_ensures(
            start_request,
            (engine_index, request, event_tx, tracing),
            StartOutcome::Submit(prepared),
        ),
    ensures
        request.sampling_params is Some,
        ({
            let sampling = request.sampling_params->Some_0;
            &&& prepared.request.request_id == Some(request.request_id)
            &&& Some(prepared.request.prompt_tokens) == request.prompt_token_ids
            &&& prepared.request.params == sampling.params
            &&& prepared.request.max_tokens == sampling.max_tokens
            &&& prepared.request.logprobs == sampling.logprobs
            &&& prepared.request.queued_at_unix_s == Some(request.arrival_time)
            &&& prepared.request.data_parallel_rank == Some(engine_index as usize)
            &&& Ok::<Option<String>, String>(prepared.request.lora_adapter)
                == sampling.lora_adapter
            &&& !prepared.request.echo
            &&& prepared.request.token_tx.stream_spec() == event_tx
            &&& (*prepared.request.token_tx.tag_spec())@ == request.request_id@
            &&& prepared.stream@.cell == prepared.request.token_tx.cell_spec()
            &&& prepared.stream@.sentinel is None <==> sampling.eos_token_id is None
                && sampling.stop_token_ids@.len() == 0
            &&& sampling.eos_token_id is Some ==> prepared.stream@.sentinel
                == sampling.eos_token_id
            &&& prepared.stream@.sentinel matches Some(id) ==> sampling.eos_token_id == Some(id)
                || sampling.stop_token_ids@.contains(id)
            &&& !prepared.stream@.emitted
        }),
{
    let sampling = request.sampling_params->Some_0;
    if sampling.eos_token_id is None && sampling.stop_token_ids@.len() > 0 {
        assert(sampling.stop_token_ids@.contains(sampling.stop_token_ids@[0]));
    }
}

/// The announced capacity adds up: the tokens are those of all blocks, and the blocks of a
/// longest request are the fewest that hold it.
pub proof fn lemma_announced_capacity_adds_up(
    max_model_len: u32,
    data_parallel_size: u32,
    capacity: KvCapacity,
    r: ReadyResponse,
    n: nat,
)
    requires
        capacity.block_size > 0,
        call_ensures(ready_response, (max_model_len, data_parallel_size, Some(capacity)), r),
    ensures
        r.num_gpu_blocks == capacity.total_blocks,
        r.block_size == capacity.block_size,
        capacity.total_blocks * capacity.block_size <= usize::MAX ==> r.kv_cache_size_tokens
            == Some((r.num_gpu_blocks * r.block_size) as u64),
        r.kv_cache_max_concurrency matches Some((blocks, per_request)) && blocks
            == capacity.total_blocks && (per_request <= n <==> max_model_len <= n
            * capacity.block_size),
{
    lemma_ceil_div_is_least(max_model_len as nat, capacity.block_size as nat, n);
    assert(capacity.total_blocks * capacity.block_size >= 0) by (nonlinear_arith);
}

/// A prepared stream belongs to its request: they share one abort cell, which starts out
/// as not aborted, and nothing was said of the request yet. Its end is marked by the
/// end-of-sequence token where it has one, and else by its first stop token.
pub proof fn lemma_stream_belongs_to_its_request(
    engine_index: u32,
    request: EngineCoreRequest,
    event_tx: TokenStreamSender,
    tracing: bool,
    prepared: PreparedRequest,
)
    requires
        prepares(engine_index, request, event_tx, tracing, prepared),
    ensures
        prepared.stream@.cell == prepared.request.token_tx.cell_spec(),
        made_with(*prepared.request.token_tx.cell_spec(), 0),
        prepared.request.token_tx.stream_spec() == event_tx,
        !prepared.stream@.emitted,
        prepared.stream@.events is None && prepared.stream@.stats is None
            && prepared.stream@.kv_transfer is None,
        request.sampling_params matches Some(sampling) ==> {
            &&& sampling.eos_token_id is Some ==> prepared.stream@.sentinel
                == sampling.eos_token_id
            &&& sampling.eos_token_id is None && sampling.stop_token_ids@.len() > 0
                ==> prepared.stream@.sentinel == Some(sampling.stop_token_ids@[0])
            &&& sampling.eos_token_id is None && sampling.stop_token_ids@.len() == 0
                ==> prepared.stream@.sentinel is None
        },
{
}

/// The namespaces of different processes differ, and so do those of one process under
/// different identifiers.
pub proof fn lemma_namespaces_are_their_own(a: nat, x: Seq<char>, b: nat, y: Seq<char>)
    requires
        x.len() == y.len(),
        namespace_text(a, x) == namespace_text(b, y),
    ensures
        a == b,
        x == y,
{
    reveal_strlit("pgi-");
    reveal_strlit("-");
    let (left, right) = (namespace_text(a, x), namespace_text(b, y));
    assert(left.skip(left.len() - x.len()) =~= x);
    assert(right.skip(right.len() - y.len()) =~= y);
    assert(left.subrange(4, left.len() - x.len() - 1) =~= decimal(a));
    assert(right.subrange(4, right.len() - y.len() - 1) =~= decimal(b));
    lemma_decimal_tells_numbers_apart(a, b);
}

} // verus!
