//! Why a tensor-parallel operation was refused.
use vstd::prelude::*;
use vstd::string::*;
use crate::text::{decimal, push_decimal, push_size};

verus! {

/// Scheduler-owned lifecycle proof required from every rank during cleanup.
#[derive(Clone, Copy, Debug, PartialEq, Eq, Structural)]
pub enum DropExpectation {
    MustBeAbsent,
    MustExist,
}

/// What kind of reply a worker sent.
#[derive(Clone, Copy, Debug, PartialEq, Eq, Structural)]
pub enum ReplyKind {
    Ack,
    DropAck,
    Prefill,
    Decode,
    Unified,
    Snapshot,
}

pub open spec fn kind_text(kind: ReplyKind) -> Seq<char> {
    match kind {
        ReplyKind::Ack => "acknowledgement"@,
        ReplyKind::DropAck => "drop acknowledgement"@,
        ReplyKind::Prefill => "prefill result"@,
        ReplyKind::Decode => "decode result"@,
        ReplyKind::Unified => "unified result"@,
        ReplyKind::Snapshot => "worker snapshot"@,
    }
}

pub fn kind_name(kind: ReplyKind) -> (r: &'static str)
    ensures
        r@ == kind_text(kind),
{
    match kind {
        ReplyKind::Ack => "acknowledgement",
        ReplyKind::DropAck => "drop acknowledgement",
        ReplyKind::Prefill => "prefill result",
        ReplyKind::Decode => "decode result",
        ReplyKind::Unified => "unified result",
        ReplyKind::Snapshot => "worker snapshot",
    }
}

/// An operation whose responses carry a primary result from rank 0.
#[derive(Clone, Copy, Debug, PartialEq, Eq, Structural)]
pub enum PrimaryOperation {
    Prefill,
    Decode,
    Unified,
}

pub open spec fn operation_text(operation: PrimaryOperation) -> Seq<char> {
    match operation {
        PrimaryOperation::Prefill => "prefill"@,
        PrimaryOperation::Decode => "decode"@,
        PrimaryOperation::Unified => "unified step"@,
    }
}

pub open spec fn primary_text(operation: PrimaryOperation) -> Seq<char> {
    match operation {
        PrimaryOperation::Prefill => "prefill"@,
        PrimaryOperation::Decode => "decode"@,
        PrimaryOperation::Unified => "unified"@,
    }
}

pub fn operation_name(operation: PrimaryOperation) -> (r: &'static str)
    ensures
        r@ == operation_text(operation),
{
    match operation {
        PrimaryOperation::Prefill => "prefill",
        PrimaryOperation::Decode => "decode",
        PrimaryOperation::Unified => "unified step",
    }
}

pub fn primary_name(operation: PrimaryOperation) -> (r: &'static str)
    ensures
        r@ == primary_text(operation),
{
    match operation {
        PrimaryOperation::Prefill => "prefill",
        PrimaryOperation::Decode => "decode",
        PrimaryOperation::Unified => "unified",
    }
}

/// CUDA ordinals index a device table of this length.
pub const TRITON_AOT_DEVICE_TABLE_LEN: usize = 16;

#[derive(Debug)]
pub enum TpError {
    OrdinalOutOfRange { ordinal: usize },
    DuplicateOrdinal { ordinal: usize },
    TooFewDevices { count: usize },
    CudaGraph,
    ZeroPrefillBudget,
    PageSizeMismatch { rank: usize, rank_page_size: usize, page_size: usize },
    NoRecurrentCapacity,
    RankOutOfMemory { rank: usize, free_mib: usize, request_mib: usize, reserve_mib: usize, scratch_mib: usize, scratch_tokens: usize },
    PreflightFailed { message: String },
    PreflightExited { rank: usize },
    StartupExited { rank: usize },
    EffectiveBatch { rank: usize, effective: usize, capacity: usize },
    EmptyPrefillPlan,
    EmptyPrefillCommand,
    EmptyDecodePlan,
    EmptyDecodeCommand,
    EmptyChunk { request: u64 },
    DuplicatePrefill { request: u64 },
    DuplicateDecode { request: u64 },
    UnifiedNeedsPrefill,
    UnifiedNeedsDecode,
    UnifiedRows { rows: usize, max_batch: usize },
    UnifiedInBoth { request: u64 },
    UnifiedCapacity { max_batch: usize },
    UnifiedAlreadyDecoding { request: u64 },
    UnifiedNoState { request: u64 },
    UnifiedNotReady { request: u64 },
    PrefillCapacity { max_batch: usize },
    AlreadyDecoding { request: u64 },
    DecodeCapacity { batch: usize, max_batch: usize },
    DecodeNoState { request: u64 },
    DecodeNotReady { request: u64 },
    ResponseCount { operation: &'static str, expected: usize, got: usize },
    RankOutOfRange { operation: &'static str, rank: usize, world_size: usize },
    DuplicateRank { operation: &'static str, rank: usize },
    Worker { message: String },
    NotAck { operation: &'static str, rank: usize, got: ReplyKind },
    NotDropAck { rank: usize, got: ReplyKind },
    DropMismatch { expectation: DropExpectation, existence: Vec<bool> },
    NotPrimary { operation: PrimaryOperation, got: ReplyKind },
    NonPrimary { operation: PrimaryOperation, rank: usize, got: ReplyKind },
    NoPrimary { operation: PrimaryOperation },
    SnapshotRankOutOfRange { rank: usize, world_size: usize },
    SnapshotDuplicateRank { rank: usize },
    SnapshotPayloadRank { payload: usize, rank: usize },
    SnapshotCount { rank: usize, count: usize, entries: usize },
    SnapshotUnexpected { got: ReplyKind },
}

/// The pairs of rank and existence, as a list of tuples.
pub open spec fn existence_text(existence: Seq<bool>) -> Seq<char>
    decreases existence.len(),
{
    if existence.len() == 0 {
        Seq::empty()
    } else {
        let before = existence_text(existence.drop_last());
        let separator = if existence.len() == 1 {
            ""@
        } else {
            ", "@
        };
        before + separator + "("@ + decimal((existence.len() - 1) as nat) + ", "@ + (
        if existence.last() {
            "true"@
        } else {
            "false"@
        }) + ")"@
    }
}

pub open spec fn expectation_text(expectation: DropExpectation) -> Seq<char> {
    match expectation {
        DropExpectation::MustBeAbsent => "MustBeAbsent"@,
        DropExpectation::MustExist => "MustExist"@,
    }
}

pub open spec fn drop_mismatch_text(expectation: DropExpectation, existence: Seq<bool>) -> Seq<
    char,
> {
    "drop request expected "@ + expectation_text(expectation) + ", got rank existence ["@
        + existence_text(existence) + "]"@
}

fn expectation_name(expectation: DropExpectation) -> (r: &'static str)
    ensures
        r@ == expectation_text(expectation),
{
    match expectation {
        DropExpectation::MustBeAbsent => "MustBeAbsent",
        DropExpectation::MustExist => "MustExist",
    }
}

fn push_existence(out: &mut String, existence: &[bool])
    ensures
        final(out)@ == old(out)@ + existence_text(existence@),
{
    let ghost before = out@;
    let mut i: usize = 0;
    assert(existence@.take(0) =~= Seq::<bool>::empty());
    assert(before + Seq::<char>::empty() =~= before);
    while i < existence.len()
        invariant
            i <= existence.len(),
            out@ == before + existence_text(existence@.take(i as int)),
        decreases existence.len() - i,
    {
        let ghost done = existence_text(existence@.take(i as int));
        assert(existence@.take(i as int + 1).drop_last() =~= existence@.take(i as int));
        let separator = if i == 0 {
            ""
        } else {
            ", "
        };
        let answer = if existence[i] {
            "true"
        } else {
            "false"
        };
        out.append(separator);
        out.append("(");
        push_size(out, i);
        out.append(", ");
        out.append(answer);
        out.append(")");
        assert(out@ =~= before + (done + separator@ + "("@ + decimal(i as nat) + ", "@ + answer@
            + ")"@));
        i = i + 1;
    }
    assert(existence@.take(i as int) =~= existence@);
}

impl TpError {
    /// The text of an error.
    pub open spec fn text(self) -> Seq<char> {
        match self {
            TpError::OrdinalOutOfRange { ordinal } => "Qwen3.5 TP CUDA ordinal "@ + decimal(
                ordinal as nat,
            ) + " exceeds the Triton AOT device table bound "@ + decimal(
                TRITON_AOT_DEVICE_TABLE_LEN as nat,
            ),
            TpError::DuplicateOrdinal { ordinal } =>
            "Qwen3.5 TP CUDA ordinals must be distinct; ordinal "@ + decimal(ordinal as nat)
                + " appears more than once"@,
            TpError::TooFewDevices { count } =>
            "Qwen3.5 TP executor requires at least two CUDA devices, got "@ + decimal(
                count as nat,
            ),
            TpError::CudaGraph =>
            "Qwen3.5 TP Phase 1 supports eager execution only; disable CUDA Graph"@,
            TpError::ZeroPrefillBudget => "Qwen3.5 TP max_prefill_tokens must be positive"@,
            TpError::PageSizeMismatch { rank, rank_page_size, page_size } => "Qwen3.5 TP rank "@
                + decimal(rank as nat) + " KV page size "@ + decimal(rank_page_size as nat)
                + " does not match rank 0 page size "@ + decimal(page_size as nat),
            TpError::NoRecurrentCapacity =>
            "Qwen3.5 TP has no memory capacity for one recurrent request state"@,
            TpError::RankOutOfMemory {
                rank,
                free_mib,
                request_mib,
                reserve_mib,
                scratch_mib,
                scratch_tokens,
            } => "Qwen3.5 TP rank "@ + decimal(rank as nat) + " has "@ + decimal(free_mib as nat)
                + " MiB free after fixed buffers, but one recurrent request needs "@ + decimal(
                request_mib as nat,
            ) + " MiB plus "@ + decimal(reserve_mib as nat) + " MiB runtime reserve and "@
                + decimal(scratch_mib as nat) + " MiB prefill scratch for "@ + decimal(
                scratch_tokens as nat,
            ) + " tokens"@,
            TpError::PreflightFailed { message } => message@,
            TpError::PreflightExited { rank } => "Qwen3.5 TP worker "@ + decimal(rank as nat)
                + " exited during pre-NCCL startup"@,
            TpError::StartupExited { rank } => "Qwen3.5 TP worker "@ + decimal(rank as nat)
                + " exited during startup"@,
            TpError::EffectiveBatch { rank, effective, capacity } => "Qwen3.5 TP rank "@ + decimal(
                rank as nat,
            ) + " effective max_batch "@ + decimal(effective as nat) + " exceeds local capacity "@
                + decimal(capacity as nat),
            TpError::EmptyPrefillPlan => "Qwen3.5 TP prefill plan requires at least one request"@,
            TpError::EmptyPrefillCommand =>
            "Qwen3.5 TP prefill chunk command requires at least one chunk"@,
            TpError::EmptyDecodePlan => "Qwen3.5 TP decode plan requires at least one request"@,
            TpError::EmptyDecodeCommand =>
            "Qwen3.5 TP decode command requires at least one request"@,
            TpError::EmptyChunk { request } => "Qwen3.5 TP prefill chunk for request "@ + decimal(
                request as nat,
            ) + " is empty"@,
            TpError::DuplicatePrefill { request } => "duplicate Qwen3.5 TP request id "@ + decimal(
                request as nat,
            ) + " in one prefill chunk command"@,
            TpError::DuplicateDecode { request } => "duplicate Qwen3.5 TP request id "@ + decimal(
                request as nat,
            ) + " in one decode command"@,
            TpError::UnifiedNeedsPrefill =>
            "Qwen3.5 TP unified plan requires at least one prefill chunk"@,
            TpError::UnifiedNeedsDecode =>
            "Qwen3.5 TP unified plan requires at least one decode request"@,
            TpError::UnifiedRows { rows, max_batch } => "Qwen3.5 TP unified plan has "@ + decimal(
                rows as nat,
            ) + " rows, exceeding scheduler capacity "@ + decimal(max_batch as nat),
            TpError::UnifiedInBoth { request } => "Qwen3.5 TP unified plan request id "@ + decimal(
                request as nat,
            ) + " appears in both prefill and decode"@,
            TpError::UnifiedCapacity { max_batch } =>
            "Qwen3.5 TP unified plan would exceed worker capacity "@ + decimal(max_batch as nat),
            TpError::UnifiedAlreadyDecoding { request } => "Qwen3.5 TP unified prefill request "@
                + decimal(request as nat) + " is already in decode state"@,
            TpError::UnifiedNoState { request } => "Qwen3.5 TP unified decode request "@ + decimal(
                request as nat,
            ) + " has no worker state"@,
            TpError::UnifiedNotReady { request } => "Qwen3.5 TP unified request "@ + decimal(
                request as nat,
            ) + " is not ready for decode"@,
            TpError::PrefillCapacity { max_batch } =>
            "Qwen3.5 TP prefill chunks would exceed worker capacity "@ + decimal(max_batch as nat),
            TpError::AlreadyDecoding { request } => "Qwen3.5 TP request "@ + decimal(
                request as nat,
            ) + " is already in decode state"@,
            TpError::DecodeCapacity { batch, max_batch } => "Qwen3.5 TP decode batch "@ + decimal(
                batch as nat,
            ) + " exceeds worker capacity "@ + decimal(max_batch as nat),
            TpError::DecodeNoState { request } => "Qwen3.5 TP decode request "@ + decimal(
                request as nat,
            ) + " has no worker state"@,
            TpError::DecodeNotReady { request } => "Qwen3.5 TP request "@ + decimal(request as nat)
                + " is not ready for decode"@,
            TpError::ResponseCount { operation, expected, got } => operation@ + " expected "@
                + decimal(expected as nat) + " responses, got "@ + decimal(got as nat),
            TpError::RankOutOfRange { operation, rank, world_size } => operation@
                + " returned out-of-range rank "@ + decimal(rank as nat) + " for world size "@
                + decimal(world_size as nat),
            TpError::DuplicateRank { operation, rank } => operation@ + " returned duplicate rank "@
                + decimal(rank as nat),
            TpError::Worker { message } => message@,
            TpError::NotAck { operation, rank, got } => operation@ + " rank "@ + decimal(
                rank as nat,
            ) + " returned "@ + kind_text(got) + " instead of acknowledgement"@,
            TpError::NotDropAck { rank, got } => "drop request rank "@ + decimal(rank as nat)
                + " returned "@ + kind_text(got) + " instead of drop acknowledgement"@,
            TpError::DropMismatch { expectation, existence } => drop_mismatch_text(
                expectation,
                existence@,
            ),
            TpError::NotPrimary { operation, got } => operation_text(operation)
                + " rank 0 returned "@ + kind_text(got) + " instead of primary "@ + primary_text(
                operation,
            ) + " result"@,
            TpError::NonPrimary { operation, rank, got } => operation_text(operation)
                + " non-primary rank "@ + decimal(rank as nat) + " returned "@ + kind_text(got)
                + " instead of acknowledgement"@,
            TpError::NoPrimary { operation } => operation_text(operation)
                + " returned no primary result"@,
            TpError::SnapshotRankOutOfRange { rank, world_size } =>
            "Qwen3.5 TP snapshot returned out-of-range rank "@ + decimal(rank as nat)
                + " for world size "@ + decimal(world_size as nat),
            TpError::SnapshotDuplicateRank { rank } =>
            "Qwen3.5 TP snapshot returned duplicate rank "@ + decimal(rank as nat),
            TpError::SnapshotPayloadRank { payload, rank } =>
            "Qwen3.5 TP snapshot payload rank "@ + decimal(payload as nat)
                + " does not match response rank "@ + decimal(rank as nat),
            TpError::SnapshotCount { rank, count, entries } => "Qwen3.5 TP rank "@ + decimal(
                rank as nat,
            ) + " snapshot count "@ + decimal(count as nat) + " does not match "@ + decimal(
                entries as nat,
            ) + " request entries"@,
            TpError::SnapshotUnexpected { got } =>
            "Qwen3.5 TP snapshot unexpectedly returned "@ + kind_text(got),
        }
    }

    pub fn message(&self) -> (s: String)
        ensures
            s@ == self.text(),
    {
        match self {
            TpError::OrdinalOutOfRange { ordinal } => {
                let mut s = String::from_str("Qwen3.5 TP CUDA ordinal ");
                push_size(&mut s, *ordinal);
                s.append(" exceeds the Triton AOT device table bound ");
                push_size(&mut s, TRITON_AOT_DEVICE_TABLE_LEN);
                s
            },
            TpError::DuplicateOrdinal { ordinal } => {
                let mut s = String::from_str("Qwen3.5 TP CUDA ordinals must be distinct; ordinal ");
                push_size(&mut s, *ordinal);
                s.append(" appears more than once");
                s
            },
            TpError::TooFewDevices { count } => {
                let mut s = String::from_str("Qwen3.5 TP executor requires at least two CUDA devices, got ");
                push_size(&mut s, *count);
                s
            },
            TpError::CudaGraph => {
                String::from_str("Qwen3.5 TP Phase 1 supports eager execution only; disable CUDA Graph")
            },
            TpError::ZeroPrefillBudget => {
                String::from_str("Qwen3.5 TP max_prefill_tokens must be positive")
            },
            TpError::PageSizeMismatch { rank, rank_page_size, page_size } => {
                let mut s = String::from_str("Qwen3.5 TP rank ");
                push_size(&mut s, *rank);
                s.append(" KV page size ");
                push_size(&mut s, *rank_page_size);
                s.append(" does not match rank 0 page size ");
                push_size(&mut s, *page_size);
                s
            },
            TpError::NoRecurrentCapacity => {
                String::from_str("Qwen3.5 TP has no memory capacity for one recurrent request state")
            },
            TpError::RankOutOfMemory { rank, free_mib, request_mib, reserve_mib, scratch_mib, scratch_tokens } => {
                let mut s = String::from_str("Qwen3.5 TP rank ");
                push_size(&mut s, *rank);
                s.append(" has ");
                push_size(&mut s, *free_mib);
                s.append(" MiB free after fixed buffers, but one recurrent request needs ");
                push_size(&mut s, *request_mib);
                s.append(" MiB plus ");
                push_size(&mut s, *reserve_mib);
                s.append(" MiB runtime reserve and ");
                push_size(&mut s, *scratch_mib);
                s.append(" MiB prefill scratch for ");
                push_size(&mut s, *scratch_tokens);
                s.append(" tokens");
                s
            },
            TpError::PreflightFailed { message } => {
                String::from_str(message.as_str())
            },
            TpError::PreflightExited { rank } => {
                let mut s = String::from_str("Qwen3.5 TP worker ");
                push_size(&mut s, *rank);
                s.append(" exited during pre-NCCL startup");
                s
            },
            TpError::StartupExited { rank } => {
                let mut s = String::from_str("Qwen3.5 TP worker ");
                push_size(&mut s, *rank);
                s.append(" exited during startup");
                s
            },
            TpError::EffectiveBatch { rank, effective, capacity } => {
                let mut s = String::from_str("Qwen3.5 TP rank ");
                push_size(&mut s, *rank);
                s.append(" effective max_batch ");
                push_size(&mut s, *effective);
                s.append(" exceeds local capacity ");
                push_size(&mut s, *capacity);
                s
            },
            TpError::EmptyPrefillPlan => {
                String::from_str("Qwen3.5 TP prefill plan requires at least one request")
            },
            TpError::EmptyPrefillCommand => {
                String::from_str("Qwen3.5 TP prefill chunk command requires at least one chunk")
            },
            TpError::EmptyDecodePlan => {
                String::from_str("Qwen3.5 TP decode plan requires at least one request")
            },
            TpError::EmptyDecodeCommand => {
                String::from_str("Qwen3.5 TP decode command requires at least one request")
            },
            TpError::EmptyChunk { request } => {
                let mut s = String::from_str("Qwen3.5 TP prefill chunk for request ");
                push_decimal(&mut s, *request);
                s.append(" is empty");
                s
            },
            TpError::DuplicatePrefill { request } => {
                let mut s = String::from_str("duplicate Qwen3.5 TP request id ");
                push_decimal(&mut s, *request);
                s.append(" in one prefill chunk command");
                s
            },
            TpError::DuplicateDecode { request } => {
                let mut s = String::from_str("duplicate Qwen3.5 TP request id ");
                push_decimal(&mut s, *request);
                s.append(" in one decode command");
                s
            },
            TpError::UnifiedNeedsPrefill => {
                String::from_str("Qwen3.5 TP unified plan requires at least one prefill chunk")
            },
            TpError::UnifiedNeedsDecode => {
                String::from_str("Qwen3.5 TP unified plan requires at least one decode request")
            },
            TpError::UnifiedRows { rows, max_batch } => {
                let mut s = String::from_str("Qwen3.5 TP unified plan has ");
                push_size(&mut s, *rows);
                s.append(" rows, exceeding scheduler capacity ");
                push_size(&mut s, *max_batch);
                s
            },
            TpError::UnifiedInBoth { request } => {
                let mut s = String::from_str("Qwen3.5 TP unified plan request id ");
                push_decimal(&mut s, *request);
                s.append(" appears in both prefill and decode");
                s
            },
            TpError::UnifiedCapacity { max_batch } => {
                let mut s = String::from_str("Qwen3.5 TP unified plan would exceed worker capacity ");
                push_size(&mut s, *max_batch);
                s
            },
            TpError::UnifiedAlreadyDecoding { request } => {
                let mut s = String::from_str("Qwen3.5 TP unified prefill request ");
                push_decimal(&mut s, *request);
                s.append(" is already in decode state");
                s
            },
            TpError::UnifiedNoState { request } => {
                let mut s = String::from_str("Qwen3.5 TP unified decode request ");
                push_decimal(&mut s, *request);
                s.append(" has no worker state");
                s
            },
            TpError::UnifiedNotReady { request } => {
                let mut s = String::from_str("Qwen3.5 TP unified request ");
                push_decimal(&mut s, *request);
                s.append(" is not ready for decode");
                s
            },
            TpError::PrefillCapacity { max_batch } => {
                let mut s = String::from_str("Qwen3.5 TP prefill chunks would exceed worker capacity ");
                push_size(&mut s, *max_batch);
                s
            },
            TpError::AlreadyDecoding { request } => {
                let mut s = String::from_str("Qwen3.5 TP request ");
                push_decimal(&mut s, *request);
                s.append(" is already in decode state");
                s
            },
            TpError::DecodeCapacity { batch, max_batch } => {
                let mut s = String::from_str("Qwen3.5 TP decode batch ");
                push_size(&mut s, *batch);
                s.append(" exceeds worker capacity ");
                push_size(&mut s, *max_batch);
                s
            },
            TpError::DecodeNoState { request } => {
                let mut s = String::from_str("Qwen3.5 TP decode request ");
                push_decimal(&mut s, *request);
                s.append(" has no worker state");
                s
            },
            TpError::DecodeNotReady { request } => {
                let mut s = String::from_str("Qwen3.5 TP request ");
                push_decimal(&mut s, *request);
                s.append(" is not ready for decode");
                s
            },
            TpError::ResponseCount { operation, expected, got } => {
                let mut s = String::from_str(operation);
                s.append(" expected ");
                push_size(&mut s, *expected);
                s.append(" responses, got ");
                push_size(&mut s, *got);
                s
            },
            TpError::RankOutOfRange { operation, rank, world_size } => {
                let mut s = String::from_str(operation);
                s.append(" returned out-of-range rank ");
                push_size(&mut s, *rank);
                s.append(" for world size ");
                push_size(&mut s, *world_size);
                s
            },
            TpError::DuplicateRank { operation, rank } => {
                let mut s = String::from_str(operation);
                s.append(" returned duplicate rank ");
                push_size(&mut s, *rank);
                s
            },
            TpError::Worker { message } => {
                String::from_str(message.as_str())
            },
            TpError::NotAck { operation, rank, got } => {
                let mut s = String::from_str(operation);
                s.append(" rank ");
                push_size(&mut s, *rank);
                s.append(" returned ");
                s.append(kind_name(*got));
                s.append(" instead of acknowledgement");
                s
            },
            TpError::NotDropAck { rank, got } => {
                let mut s = String::from_str("drop request rank ");
                push_size(&mut s, *rank);
                s.append(" returned ");
                s.append(kind_name(*got));
                s.append(" instead of drop acknowledgement");
                s
            },
            TpError::DropMismatch { expectation, existence } => {
                let mut s = String::from_str("drop request expected ");
                s.append(expectation_name(*expectation));
                s.append(", got rank existence [");
                push_existence(&mut s, existence.as_slice());
                s.append("]");
                s
            },
            TpError::NotPrimary { operation, got } => {
                let mut s = String::from_str(operation_name(*operation));
                s.append(" rank 0 returned ");
                s.append(kind_name(*got));
                s.append(" instead of primary ");
                s.append(primary_name(*operation));
                s.append(" result");
                s
            },
            TpError::NonPrimary { operation, rank, got } => {
                let mut s = String::from_str(operation_name(*operation));
                s.append(" non-primary rank ");
                push_size(&mut s, *rank);
                s.append(" returned ");
                s.append(kind_name(*got));
                s.append(" instead of acknowledgement");
                s
            },
            TpError::NoPrimary { operation } => {
                let mut s = String::from_str(operation_name(*operation));
                s.append(" returned no primary result");
                s
            },
            TpError::SnapshotRankOutOfRange { rank, world_size } => {
                let mut s = String::from_str("Qwen3.5 TP snapshot returned out-of-range rank ");
                push_size(&mut s, *rank);
                s.append(" for world size ");
                push_size(&mut s, *world_size);
                s
            },
            TpError::SnapshotDuplicateRank { rank } => {
                let mut s = String::from_str("Qwen3.5 TP snapshot returned duplicate rank ");
                push_size(&mut s, *rank);
                s
            },
            TpError::SnapshotPayloadRank { payload, rank } => {
                let mut s = String::from_str("Qwen3.5 TP snapshot payload rank ");
                push_size(&mut s, *payload);
                s.append(" does not match response rank ");
                push_size(&mut s, *rank);
                s
            },
            TpError::SnapshotCount { rank, count, entries } => {
                let mut s = String::from_str("Qwen3.5 TP rank ");
                push_size(&mut s, *rank);
                s.append(" snapshot count ");
                push_size(&mut s, *count);
                s.append(" does not match ");
                push_size(&mut s, *entries);
                s.append(" request entries");
                s
            },
            TpError::SnapshotUnexpected { got } => {
                let mut s = String::from_str("Qwen3.5 TP snapshot unexpectedly returned ");
                s.append(kind_name(*got));
                s
            },
        }
    }
}

} // verus!
