//! The device work of a draft forward, as a list of operations on named buffers.
use vstd::prelude::*;

verus! {

/// The shape of a draft model.
#[derive(Clone, Copy, Debug)]
pub struct Eagle3Config {
    pub hidden_size: usize,
    pub intermediate_size: usize,
    pub q_dim: usize,
    pub kv_dim: usize,
    /// Width of the target features that are fused into the residual stream.
    pub feature_dim: usize,
    pub draft_vocab_size: usize,
    pub vocab_size: u32,
    pub max_position_embeddings: usize,
}

impl Eagle3Config {
    /// The joined projections can be addressed.
    pub open spec fn well_formed(self) -> bool {
        &&& 2 * self.hidden_size <= usize::MAX
        &&& self.q_dim + 2 * self.kv_dim <= usize::MAX
        &&& 2 * self.intermediate_size <= usize::MAX
    }
}

/// A device buffer: rows are features, columns are positions.
#[derive(Clone, Copy, Debug, PartialEq, Eq, Structural)]
pub enum Buffer {
    Embed,
    /// The residual stream.
    Hidden,
    NormedEmbed,
    NormedHidden,
    AttnInput,
    Query,
    Key,
    Value,
    AttnOut,
    Output,
    NormedPost,
    Gate,
    Up,
    Act,
    MlpOut,
    NormedFinal,
    Logits,
    /// Target features, one column per position.
    Features,
    /// The request's key cache.
    CacheKey,
    /// The request's value cache.
    CacheValue,
    LastHidden,
}

#[derive(Clone, Copy, Debug, PartialEq, Eq, Structural)]
pub enum Weight {
    Fuse,
    InputNorm,
    HiddenNorm,
    QkvProj,
    OutputProj,
    PostNorm,
    GateUpProj,
    DownProj,
    FinalNorm,
    DraftHead,
}

#[derive(Clone, Copy, Debug, PartialEq, Eq, Structural)]
pub enum DraftOp {
    /// Look the tokens up in the target's embedding.
    Embed { dst: Buffer },
    Norm { src: Buffer, weight: Weight, dst: Buffer },
    /// Copy all rows to a row offset.
    CopyRows { src: Buffer, dst: Buffer, row: usize },
    Gemm { weight: Weight, src: Buffer, dst: Buffer },
    /// Multiply by a band of the weight's rows.
    GemmRows { weight: Weight, row: usize, rows: usize, src: Buffer, dst: Buffer },
    /// Rotate queries and keys by their positions.
    Rope { columns: usize, position: usize },
    /// Copy a range of columns.
    CopyColumns { src: Buffer, from: usize, dst: Buffer, to: usize, columns: usize },
    /// One query over the whole cache.
    AttendOne { kv_len: usize },
    /// Every query over the cache up to its own position.
    AttendCausal { columns: usize, kv_len: usize },
    /// Add to the residual stream, then normalise it.
    AddNorm { addend: Buffer, weight: Weight, dst: Buffer },
    SiluMul { dst: Buffer },
}

/// Rows and columns of a buffer for `n` positions and a cache of `cache`.
pub open spec fn shape(c: Eagle3Config, n: nat, cache: nat, buffer: Buffer) -> (nat, nat) {
    match buffer {
        Buffer::Embed | Buffer::Hidden | Buffer::NormedEmbed | Buffer::NormedHidden
        | Buffer::Output | Buffer::NormedPost | Buffer::MlpOut | Buffer::NormedFinal => (
            c.hidden_size as nat,
            n,
        ),
        Buffer::AttnInput => (2 * c.hidden_size as nat, n),
        Buffer::Query | Buffer::AttnOut => (c.q_dim as nat, n),
        Buffer::Key | Buffer::Value => (c.kv_dim as nat, n),
        Buffer::Gate | Buffer::Up | Buffer::Act => (c.intermediate_size as nat, n),
        Buffer::Logits => (c.draft_vocab_size as nat, n),
        Buffer::Features => (c.feature_dim as nat, n),
        Buffer::CacheKey | Buffer::CacheValue => (c.kv_dim as nat, cache),
        Buffer::LastHidden => (c.hidden_size as nat, 1),
    }
}

/// Rows and columns to allocate for a buffer.
pub fn buffer_shape(c: &Eagle3Config, n: usize, cache: usize, buffer: Buffer) -> (r: (usize, usize))
    requires
        c.well_formed(),
    ensures
        r.0 == shape(*c, n as nat, cache as nat, buffer).0,
        r.1 == shape(*c, n as nat, cache as nat, buffer).1,
{
    match buffer {
        Buffer::Embed | Buffer::Hidden | Buffer::NormedEmbed | Buffer::NormedHidden
        | Buffer::Output | Buffer::NormedPost | Buffer::MlpOut | Buffer::NormedFinal => (
            c.hidden_size,
            n,
        ),
        Buffer::AttnInput => (2 * c.hidden_size, n),
        Buffer::Query | Buffer::AttnOut => (c.q_dim, n),
        Buffer::Key | Buffer::Value => (c.kv_dim, n),
        Buffer::Gate | Buffer::Up | Buffer::Act => (c.intermediate_size, n),
        Buffer::Logits => (c.draft_vocab_size, n),
        Buffer::Features => (c.feature_dim, n),
        Buffer::CacheKey | Buffer::CacheValue => (c.kv_dim, cache),
        Buffer::LastHidden => (c.hidden_size, 1),
    }
}

/// Rows and columns of a weight; a norm is one column.
pub open spec fn weight_shape(c: Eagle3Config, weight: Weight) -> (nat, nat) {
    match weight {
        Weight::Fuse => (c.hidden_size as nat, c.feature_dim as nat),
        Weight::InputNorm | Weight::HiddenNorm | Weight::PostNorm | Weight::FinalNorm => (
            c.hidden_size as nat,
            1,
        ),
        Weight::QkvProj => (c.q_dim as nat + 2 * c.kv_dim as nat, 2 * c.hidden_size as nat),
        Weight::OutputProj => (c.hidden_size as nat, c.q_dim as nat),
        Weight::GateUpProj => (2 * c.intermediate_size as nat, c.hidden_size as nat),
        Weight::DownProj => (c.hidden_size as nat, c.intermediate_size as nat),
        Weight::DraftHead => (c.draft_vocab_size as nat, c.hidden_size as nat),
    }
}

/// The operands of an operation have the shapes it needs.
pub open spec fn fits(c: Eagle3Config, n: nat, cache: nat, op: DraftOp) -> bool {
    match op {
        DraftOp::Embed { dst } => shape(c, n, cache, dst) == (c.hidden_size as nat, n),
        DraftOp::Norm { src, weight, dst } => {
            &&& shape(c, n, cache, src) == shape(c, n, cache, dst)
            &&& weight_shape(c, weight) == (shape(c, n, cache, src).0, 1nat)
        },
        DraftOp::CopyRows { src, dst, row } => {
            &&& row + shape(c, n, cache, src).0 <= shape(c, n, cache, dst).0
            &&& shape(c, n, cache, src).1 == shape(c, n, cache, dst).1
        },
        DraftOp::Gemm { weight, src, dst } => {
            &&& weight_shape(c, weight).1 == shape(c, n, cache, src).0
            &&& weight_shape(c, weight).0 == shape(c, n, cache, dst).0
            &&& shape(c, n, cache, src).1 == shape(c, n, cache, dst).1
        },
        DraftOp::GemmRows { weight, row, rows, src, dst } => {
            &&& row + rows <= weight_shape(c, weight).0
            &&& weight_shape(c, weight).1 == shape(c, n, cache, src).0
            &&& rows == shape(c, n, cache, dst).0
            &&& shape(c, n, cache, src).1 == shape(c, n, cache, dst).1
        },
        DraftOp::Rope { columns, position } => {
            &&& columns == shape(c, n, cache, Buffer::Query).1
            &&& columns == shape(c, n, cache, Buffer::Key).1
            &&& position + columns <= c.max_position_embeddings
        },
        DraftOp::CopyColumns { src, from, dst, to, columns } => {
            &&& shape(c, n, cache, src).0 == shape(c, n, cache, dst).0
            &&& from + columns <= shape(c, n, cache, src).1
            &&& to + columns <= shape(c, n, cache, dst).1
        },
        DraftOp::AttendOne { kv_len } => {
            &&& shape(c, n, cache, Buffer::Query) == (c.q_dim as nat, 1nat)
            &&& shape(c, n, cache, Buffer::AttnOut) == shape(c, n, cache, Buffer::Query)
            &&& 1 <= kv_len <= shape(c, n, cache, Buffer::CacheKey).1
            &&& kv_len <= shape(c, n, cache, Buffer::CacheValue).1
        },
        DraftOp::AttendCausal { columns, kv_len } => {
            &&& shape(c, n, cache, Buffer::Query).1 == columns
            &&& shape(c, n, cache, Buffer::AttnOut) == shape(c, n, cache, Buffer::Query)
            &&& columns <= kv_len <= shape(c, n, cache, Buffer::CacheKey).1
            &&& kv_len <= shape(c, n, cache, Buffer::CacheValue).1
        },
        DraftOp::AddNorm { addend, weight, dst } => {
            &&& shape(c, n, cache, addend) == shape(c, n, cache, Buffer::Hidden)
            &&& shape(c, n, cache, dst) == shape(c, n, cache, Buffer::Hidden)
            &&& weight_shape(c, weight) == (shape(c, n, cache, dst).0, 1nat)
        },
        DraftOp::SiluMul { dst } => {
            &&& shape(c, n, cache, Buffer::Gate) == shape(c, n, cache, dst)
            &&& shape(c, n, cache, Buffer::Up) == shape(c, n, cache, dst)
        },
    }
}

/// Whether an operation reads a buffer.
pub open spec fn reads(op: DraftOp, buffer: Buffer) -> bool {
    match op {
        DraftOp::Embed { .. } => false,
        DraftOp::Norm { src, .. } => buffer == src,
        DraftOp::CopyRows { src, .. } => buffer == src,
        DraftOp::Gemm { src, .. } => buffer == src,
        DraftOp::GemmRows { src, .. } => buffer == src,
        DraftOp::Rope { .. } => buffer == Buffer::Query || buffer == Buffer::Key,
        DraftOp::CopyColumns { src, .. } => buffer == src,
        DraftOp::AttendOne { .. } | DraftOp::AttendCausal { .. } => buffer == Buffer::Query
            || buffer == Buffer::CacheKey || buffer == Buffer::CacheValue,
        DraftOp::AddNorm { addend, .. } => buffer == addend || buffer == Buffer::Hidden,
        DraftOp::SiluMul { .. } => buffer == Buffer::Gate || buffer == Buffer::Up,
    }
}

/// Whether an operation writes a buffer.
pub open spec fn writes(op: DraftOp, buffer: Buffer) -> bool {
    match op {
        DraftOp::Embed { dst } => buffer == dst,
        DraftOp::Norm { dst, .. } => buffer == dst,
        DraftOp::CopyRows { dst, .. } => buffer == dst,
        DraftOp::Gemm { dst, .. } => buffer == dst,
        DraftOp::GemmRows { dst, .. } => buffer == dst,
        DraftOp::Rope { .. } => buffer == Buffer::Query || buffer == Buffer::Key,
        DraftOp::CopyColumns { dst, .. } => buffer == dst,
        DraftOp::AttendOne { .. } | DraftOp::AttendCausal { .. } => buffer == Buffer::AttnOut,
        DraftOp::AddNorm { dst, .. } => buffer == dst || buffer == Buffer::Hidden,
        DraftOp::SiluMul { dst } => buffer == dst,
    }
}

/// The decoder layer for `n` positions from `position` on: attention over the
/// fused input, the feed-forward block, and the draft head.
pub open spec fn layer_ops(c: Eagle3Config, n: usize, position: usize, attend: DraftOp) -> Seq<
    DraftOp,
> {
    seq![
        DraftOp::Norm { src: Buffer::Embed, weight: Weight::InputNorm, dst: Buffer::NormedEmbed },
        DraftOp::Norm {
            src: Buffer::Hidden,
            weight: Weight::HiddenNorm,
            dst: Buffer::NormedHidden,
        },
        DraftOp::CopyRows { src: Buffer::NormedEmbed, dst: Buffer::AttnInput, row: 0 },
        DraftOp::CopyRows {
            src: Buffer::NormedHidden,
            dst: Buffer::AttnInput,
            row: c.hidden_size,
        },
        DraftOp::GemmRows {
            weight: Weight::QkvProj,
            row: 0,
            rows: c.q_dim,
            src: Buffer::AttnInput,
            dst: Buffer::Query,
        },
        DraftOp::GemmRows {
            weight: Weight::QkvProj,
            row: c.q_dim,
            rows: c.kv_dim,
            src: Buffer::AttnInput,
            dst: Buffer::Key,
        },
        DraftOp::GemmRows {
            weight: Weight::QkvProj,
            row: (c.q_dim + c.kv_dim) as usize,
            rows: c.kv_dim,
            src: Buffer::AttnInput,
            dst: Buffer::Value,
        },
        DraftOp::Rope { columns: n, position },
        DraftOp::CopyColumns {
            src: Buffer::Key,
            from: 0,
            dst: Buffer::CacheKey,
            to: position,
            columns: n,
        },
        DraftOp::CopyColumns {
            src: Buffer::Value,
            from: 0,
            dst: Buffer::CacheValue,
            to: position,
            columns: n,
        },
        attend,
        DraftOp::Gemm { weight: Weight::OutputProj, src: Buffer::AttnOut, dst: Buffer::Output },
        DraftOp::AddNorm {
            addend: Buffer::Output,
            weight: Weight::PostNorm,
            dst: Buffer::NormedPost,
        },
        DraftOp::GemmRows {
            weight: Weight::GateUpProj,
            row: 0,
            rows: c.intermediate_size,
            src: Buffer::NormedPost,
            dst: Buffer::Gate,
        },
        DraftOp::GemmRows {
            weight: Weight::GateUpProj,
            row: c.intermediate_size,
            rows: c.intermediate_size,
            src: Buffer::NormedPost,
            dst: Buffer::Up,
        },
        DraftOp::SiluMul { dst: Buffer::Act },
        DraftOp::Gemm { weight: Weight::DownProj, src: Buffer::Act, dst: Buffer::MlpOut },
        DraftOp::AddNorm {
            addend: Buffer::MlpOut,
            weight: Weight::FinalNorm,
            dst: Buffer::NormedFinal,
        },
        DraftOp::Gemm { weight: Weight::DraftHead, src: Buffer::NormedFinal, dst: Buffer::Logits },
    ]
}

/// One token at one position; the residual stream carries over.
pub open spec fn step_ops(c: Eagle3Config, position: usize) -> Seq<DraftOp> {
    seq![DraftOp::Embed { dst: Buffer::Embed }] + layer_ops(
        c,
        1,
        position,
        DraftOp::AttendOne { kv_len: (position + 1) as usize },
    )
}

/// Several tokens at once, the residual stream fused from their features; the
/// last position's output is kept.
pub open spec fn prefill_ops(c: Eagle3Config, n: usize, start: usize) -> Seq<DraftOp> {
    seq![
        DraftOp::Embed { dst: Buffer::Embed },
        DraftOp::Gemm { weight: Weight::Fuse, src: Buffer::Features, dst: Buffer::Hidden },
    ] + layer_ops(
        c,
        n,
        start,
        DraftOp::AttendCausal { columns: n, kv_len: (start + n) as usize },
    ) + seq![
        DraftOp::CopyColumns {
            src: Buffer::Hidden,
            from: (n - 1) as usize,
            dst: Buffer::LastHidden,
            to: 0,
            columns: 1,
        },
    ]
}

fn push_layer(
    ops: &mut Vec<DraftOp>,
    c: &Eagle3Config,
    n: usize,
    position: usize,
    attend: DraftOp,
)
    requires
        c.well_formed(),
    ensures
        final(ops)@ == old(ops)@ + layer_ops(*c, n, position, attend),
{
    let ghost before = ops@;
    ops.push(
        DraftOp::Norm { src: Buffer::Embed, weight: Weight::InputNorm, dst: Buffer::NormedEmbed },
    );
    ops.push(
        DraftOp::Norm {
            src: Buffer::Hidden,
            weight: Weight::HiddenNorm,
            dst: Buffer::NormedHidden,
        },
    );
    ops.push(DraftOp::CopyRows { src: Buffer::NormedEmbed, dst: Buffer::AttnInput, row: 0 });
    ops.push(
        DraftOp::CopyRows {
            src: Buffer::NormedHidden,
            dst: Buffer::AttnInput,
            row: c.hidden_size,
        },
    );
    ops.push(
        DraftOp::GemmRows {
            weight: Weight::QkvProj,
            row: 0,
            rows: c.q_dim,
            src: Buffer::AttnInput,
            dst: Buffer::Query,
        },
    );
    ops.push(
        DraftOp::GemmRows {
            weight: Weight::QkvProj,
            row: c.q_dim,
            rows: c.kv_dim,
            src: Buffer::AttnInput,
            dst: Buffer::Key,
        },
    );
    ops.push(
        DraftOp::GemmRows {
            weight: Weight::QkvProj,
            row: c.q_dim + c.kv_dim,
            rows: c.kv_dim,
            src: Buffer::AttnInput,
            dst: Buffer::Value,
        },
    );
    ops.push(DraftOp::Rope { columns: n, position });
    ops.push(
        DraftOp::CopyColumns {
            src: Buffer::Key,
            from: 0,
            dst: Buffer::CacheKey,
            to: position,
            columns: n,
        },
    );
    ops.push(
        DraftOp::CopyColumns {
            src: Buffer::Value,
            from: 0,
            dst: Buffer::CacheValue,
            to: position,
            columns: n,
        },
    );
    ops.push(attend);
    ops.push(
        DraftOp::Gemm { weight: Weight::OutputProj, src: Buffer::AttnOut, dst: Buffer::Output },
    );
    ops.push(
        DraftOp::AddNorm {
            addend: Buffer::Output,
            weight: Weight::PostNorm,
            dst: Buffer::NormedPost,
        },
    );
    ops.push(
        DraftOp::GemmRows {
            weight: Weight::GateUpProj,
            row: 0,
            rows: c.intermediate_size,
            src: Buffer::NormedPost,
            dst: Buffer::Gate,
        },
    );
    ops.push(
        DraftOp::GemmRows {
            weight: Weight::GateUpProj,
            row: c.intermediate_size,
            rows: c.intermediate_size,
            src: Buffer::NormedPost,
            dst: Buffer::Up,
        },
    );
    ops.push(DraftOp::SiluMul { dst: Buffer::Act });
    ops.push(DraftOp::Gemm { weight: Weight::DownProj, src: Buffer::Act, dst: Buffer::MlpOut });
    ops.push(
        DraftOp::AddNorm {
            addend: Buffer::MlpOut,
            weight: Weight::FinalNorm,
            dst: Buffer::NormedFinal,
        },
    );
    ops.push(
        DraftOp::Gemm { weight: Weight::DraftHead, src: Buffer::NormedFinal, dst: Buffer::Logits },
    );
    assert(ops@ =~= before + layer_ops(*c, n, position, attend));
}

/// The operations of one draft step.
pub fn plan_step_ops(c: &Eagle3Config, position: usize) -> (ops: Vec<DraftOp>)
    requires
        c.well_formed(),
        position < usize::MAX,
    ensures
        ops@ == step_ops(*c, position),
{
    let mut ops: Vec<DraftOp> = Vec::new();
    ops.push(DraftOp::Embed { dst: Buffer::Embed });
    assert(ops@ =~= seq![DraftOp::Embed { dst: Buffer::Embed }]);
    push_layer(&mut ops, c, 1, position, DraftOp::AttendOne { kv_len: position + 1 });
    ops
}

/// The operations of a batched prefill.
pub fn plan_prefill_ops(c: &Eagle3Config, n: usize, start: usize) -> (ops: Vec<DraftOp>)
    requires
        c.well_formed(),
        n > 0,
        start + n <= usize::MAX,
    ensures
        ops@ == prefill_ops(*c, n, start),
{
    let mut ops: Vec<DraftOp> = Vec::new();
    ops.push(DraftOp::Embed { dst: Buffer::Embed });
    ops.push(DraftOp::Gemm { weight: Weight::Fuse, src: Buffer::Features, dst: Buffer::Hidden });
    assert(ops@ =~= seq![
        DraftOp::Embed { dst: Buffer::Embed },
        DraftOp::Gemm { weight: Weight::Fuse, src: Buffer::Features, dst: Buffer::Hidden },
    ]);
    push_layer(
        &mut ops,
        c,
        n,
        start,
        DraftOp::AttendCausal { columns: n, kv_len: start + n },
    );
    let ghost before = ops@;
    ops.push(
        DraftOp::CopyColumns {
            src: Buffer::Hidden,
            from: n - 1,
            dst: Buffer::LastHidden,
            to: 0,
            columns: 1,
        },
    );
    assert(ops@ =~= before + seq![
        DraftOp::CopyColumns {
            src: Buffer::Hidden,
            from: (n - 1) as usize,
            dst: Buffer::LastHidden,
            to: 0,
            columns: 1,
        },
    ]);
    ops
}

/// Every operation of a draft step finds its operands in the shapes it needs,
/// whatever the model, as long as the position is inside the cache.
pub proof fn lemma_step_shapes_fit(c: Eagle3Config, position: usize, cache: nat)
    requires
        c.well_formed(),
        position < cache <= c.max_position_embeddings,
    ensures
        forall|i: int|
            0 <= i < step_ops(c, position).len() ==> fits(
                c,
                1,
                cache,
                #[trigger] step_ops(c, position)[i],
            ),
{
}

/// Every operation of a batched prefill finds its operands in the shapes it
/// needs, whatever the model, as long as the positions are inside the cache.
pub proof fn lemma_prefill_shapes_fit(c: Eagle3Config, n: usize, start: usize, cache: nat)
    requires
        c.well_formed(),
        n > 0,
        start + n <= cache <= c.max_position_embeddings,
    ensures
        forall|i: int|
            0 <= i < prefill_ops(c, n, start).len() ==> fits(
                c,
                n as nat,
                cache,
                #[trigger] prefill_ops(c, n, start)[i],
            ),
{
}

/// Some earlier operation wrote the buffer.
pub open spec fn written_before(ops: Seq<DraftOp>, i: int, buffer: Buffer) -> bool {
    exists|j: int| 0 <= j < i && writes(#[trigger] ops[j], buffer)
}

/// A draft step reads nothing that was not written before it, other than the
/// residual stream it continues.
pub proof fn lemma_step_reads_what_was_written(c: Eagle3Config, position: usize)
    ensures
        forall|i: int, b: Buffer|
            0 <= i < step_ops(c, position).len() && #[trigger] reads(step_ops(c, position)[i], b)
                && b != Buffer::Hidden ==> written_before(step_ops(c, position), i, b),
{
    let ops = step_ops(c, position);
    lemma_layer_sources(
        c,
        1,
        position,
        DraftOp::AttendOne { kv_len: (position + 1) as usize },
        ops,
        1,
    );
    assert forall|i: int, b: Buffer| 0 <= i < ops.len() && #[trigger] reads(ops[i], b) && b
        != Buffer::Hidden implies written_before(ops, i, b) by {
        if i > 0 {
            assert(ops[i] == ops[1 + (i - 1)]);
            if b == Buffer::Embed {
                assert(writes(ops[0], b));
            }
        }
    }
}

/// A batched prefill reads nothing that was not written before it, other than
/// the features it is given.
pub proof fn lemma_prefill_reads_what_was_written(c: Eagle3Config, n: usize, start: usize)
    ensures
        forall|i: int, b: Buffer|
            0 <= i < prefill_ops(c, n, start).len() && #[trigger] reads(
                prefill_ops(c, n, start)[i],
                b,
            ) && b != Buffer::Features ==> written_before(prefill_ops(c, n, start), i, b),
{
    let ops = prefill_ops(c, n, start);
    lemma_layer_sources(
        c,
        n,
        start,
        DraftOp::AttendCausal { columns: n, kv_len: (start + n) as usize },
        ops,
        2,
    );
    assert forall|i: int, b: Buffer| 0 <= i < ops.len() && #[trigger] reads(ops[i], b) && b
        != Buffer::Features implies written_before(ops, i, b) by {
        assert(writes(ops[0], Buffer::Embed));
        assert(writes(ops[1], Buffer::Hidden));
        if 2 <= i < ops.len() - 1 {
            assert(ops[i] == ops[2 + (i - 2)]);
        }
    }
}

/// Inside the layer every operand but the embedding and the residual stream is
/// written before it is read.
proof fn lemma_layer_sources(
    c: Eagle3Config,
    n: usize,
    position: usize,
    attend: DraftOp,
    ops: Seq<DraftOp>,
    at: int,
)
    requires
        attend is AttendOne || attend is AttendCausal,
        0 <= at,
        at + layer_ops(c, n, position, attend).len() <= ops.len(),
        forall|k: int|
            0 <= k < layer_ops(c, n, position, attend).len() ==> #[trigger] ops[at + k]
                == layer_ops(c, n, position, attend)[k],
    ensures
        forall|k: int, b: Buffer|
            0 <= k < layer_ops(c, n, position, attend).len() && #[trigger] reads(ops[at + k], b)
                && b != Buffer::Hidden && b != Buffer::Embed ==> written_before(ops, at + k, b),
{
    let layer = layer_ops(c, n, position, attend);
    assert forall|k: int, b: Buffer| 0 <= k < layer.len() && #[trigger] reads(ops[at + k], b) && b
        != Buffer::Hidden && b != Buffer::Embed implies written_before(ops, at + k, b) by {
        let w = writer_of(b);
        assert(ops[at + k] == layer[k]);
        assert(ops[at + w] == layer[w]);
        assert(writes(ops[at + w], b));
        assert(w < k);
    }
}

/// The place in the layer where a buffer is first written.
spec fn writer_of(buffer: Buffer) -> int {
    match buffer {
        Buffer::NormedEmbed => 0,
        Buffer::NormedHidden => 1,
        Buffer::AttnInput => 2,
        Buffer::Query => 4,
        Buffer::Key => 5,
        Buffer::Value => 6,
        Buffer::CacheKey => 8,
        Buffer::CacheValue => 9,
        Buffer::AttnOut => 10,
        Buffer::Output => 11,
        Buffer::NormedPost => 12,
        Buffer::Gate => 13,
        Buffer::Up => 14,
        Buffer::Act => 15,
        Buffer::MlpOut => 16,
        Buffer::NormedFinal => 17,
        Buffer::Logits => 18,
        _ => -1,
    }
}

/// A step over one token runs the same layer as a prefill of one token, but for
/// the attention kernel.
pub proof fn lemma_step_is_a_prefill_of_one(c: Eagle3Config, position: usize)
    requires
        position < usize::MAX,
    ensures
        step_ops(c, position).len() == prefill_ops(c, 1, position).len() - 2,
        forall|k: int|
            0 <= k < 19 && k != 10 ==> #[trigger] step_ops(c, position)[1 + k] == prefill_ops(
                c,
                1,
                position,
            )[2 + k],
{
    let one = step_ops(c, position);
    let many = prefill_ops(c, 1, position);
    assert forall|k: int| 0 <= k < 19 && k != 10 implies #[trigger] one[1 + k] == many[2 + k] by {
        let a = DraftOp::AttendOne { kv_len: (position + 1) as usize };
        let b = DraftOp::AttendCausal { columns: 1, kv_len: (position + 1) as usize };
        assert(one[1 + k] == layer_ops(c, 1, position, a)[k]);
        assert(many[2 + k] == layer_ops(c, 1, position, b)[k]);
    }
}

/// An operation of a forward over the `n` positions from `position` on works on its own
/// part: queries, keys and values take the first, the middle and the last rows of their
/// joined weight, gate and up the first and the last of theirs; the attention input has
/// the embedding above the hidden state; keys and values go to their positions in the
/// cache, and attention reaches through the last of them.
pub open spec fn in_place(c: Eagle3Config, n: usize, position: usize, op: DraftOp) -> bool {
    match op {
        DraftOp::Embed { dst } => dst == Buffer::Embed,
        DraftOp::Norm { src, weight, dst } => {
            &&& src == Buffer::Embed <==> weight == Weight::InputNorm
            &&& src == Buffer::Hidden <==> weight == Weight::HiddenNorm
            &&& src == Buffer::Embed <==> dst == Buffer::NormedEmbed
            &&& src == Buffer::Hidden <==> dst == Buffer::NormedHidden
        },
        DraftOp::CopyRows { src, dst, row } => {
            &&& dst == Buffer::AttnInput
            &&& src == Buffer::NormedEmbed ==> row == 0
            &&& src == Buffer::NormedHidden ==> row == c.hidden_size
        },
        DraftOp::Gemm { weight, src, dst } => {
            &&& weight == Weight::Fuse <==> src == Buffer::Features && dst == Buffer::Hidden
            &&& weight == Weight::OutputProj <==> src == Buffer::AttnOut && dst == Buffer::Output
            &&& weight == Weight::DownProj <==> src == Buffer::Act && dst == Buffer::MlpOut
            &&& weight == Weight::DraftHead <==> src == Buffer::NormedFinal && dst
                == Buffer::Logits
        },
        DraftOp::GemmRows { weight, row, rows, src, dst } => {
            &&& dst == Buffer::Query ==> weight == Weight::QkvProj && row == 0
            &&& dst == Buffer::Key ==> weight == Weight::QkvProj && row == c.q_dim
            &&& dst == Buffer::Value ==> weight == Weight::QkvProj && row + rows == c.q_dim + 2
                * c.kv_dim
            &&& dst == Buffer::Gate ==> weight == Weight::GateUpProj && row == 0
            &&& dst == Buffer::Up ==> weight == Weight::GateUpProj && row + rows == 2
                * c.intermediate_size
            &&& weight == Weight::QkvProj <==> src == Buffer::AttnInput
            &&& weight == Weight::GateUpProj <==> src == Buffer::NormedPost
        },
        DraftOp::Rope { columns, position: at } => columns == n && at == position,
        DraftOp::CopyColumns { src, from, dst, to, columns } => {
            &&& dst == Buffer::CacheKey <==> src == Buffer::Key
            &&& dst == Buffer::CacheValue <==> src == Buffer::Value
            &&& dst == Buffer::CacheKey || dst == Buffer::CacheValue ==> from == 0 && to
                == position && columns == n
            &&& dst == Buffer::LastHidden ==> src == Buffer::Hidden && from + columns == n
                && columns == 1
        },
        DraftOp::AttendOne { kv_len } => kv_len == position + 1,
        DraftOp::AttendCausal { columns, kv_len } => columns == n && kv_len == position + n,
        DraftOp::AddNorm { addend, weight, dst } => {
            &&& addend == Buffer::Output <==> weight == Weight::PostNorm
            &&& addend == Buffer::Output <==> dst == Buffer::NormedPost
            &&& addend == Buffer::MlpOut <==> weight == Weight::FinalNorm
            &&& addend == Buffer::MlpOut <==> dst == Buffer::NormedFinal
        },
        DraftOp::SiluMul { dst } => dst == Buffer::Act,
    }
}

/// Every operation of a draft step and of a batched prefill works on its own part.
pub proof fn lemma_operations_work_in_place(c: Eagle3Config, n: usize, position: usize)
    requires
        c.well_formed(),
        n > 0,
        position + n <= usize::MAX,
        position < usize::MAX,
    ensures
        forall|i: int|
            0 <= i < step_ops(c, position).len() ==> in_place(
                c,
                1,
                position,
                #[trigger] step_ops(c, position)[i],
            ),
        forall|i: int|
            0 <= i < prefill_ops(c, n, position).len() ==> in_place(
                c,
                n,
                position,
                #[trigger] prefill_ops(c, n, position)[i],
            ),
{
}

/// A forward ends on the draft logits, and a prefill keeps the last position's hidden
/// state beside them: both are written by the plan.
pub proof fn lemma_forward_ends_on_its_results(c: Eagle3Config, n: usize, position: usize)
    ensures
        writes(step_ops(c, position).last(), Buffer::Logits),
        ({
            let ops = prefill_ops(c, n, position);
            &&& writes(ops.last(), Buffer::LastHidden)
            &&& writes(ops[ops.len() - 2], Buffer::Logits)
        }),
{
}

/// What must come before an operation besides what it reads: both halves of the attention
/// input before it is projected, and the rotation of the keys before they are cached.
pub open spec fn prepared(ops: Seq<DraftOp>, i: int) -> bool {
    &&& ops[i] is GemmRows && reads(ops[i], Buffer::AttnInput) ==> {
        &&& exists|j: int|
            0 <= j < i && (#[trigger] ops[j]) is CopyRows && reads(ops[j], Buffer::NormedEmbed)
        &&& exists|j: int|
            0 <= j < i && (#[trigger] ops[j]) is CopyRows && reads(ops[j], Buffer::NormedHidden)
    }
    &&& writes(ops[i], Buffer::CacheKey) ==> exists|j: int, k: int|
        0 <= k < j < i && (#[trigger] ops[j]) is Rope && (#[trigger] ops[k]) is GemmRows && writes(
            ops[k],
            Buffer::Key,
        )
}

/// Every operation of a draft step and of a batched prefill is prepared for.
pub proof fn lemma_operations_are_prepared(c: Eagle3Config, n: usize, position: usize)
    ensures
        forall|i: int|
            #![trigger step_ops(c, position)[i]]
            0 <= i < step_ops(c, position).len() ==> prepared(step_ops(c, position), i),
        forall|i: int|
            #![trigger prefill_ops(c, n, position)[i]]
            0 <= i < prefill_ops(c, n, position).len() ==> prepared(
                prefill_ops(c, n, position),
                i,
            ),
{
    let step = step_ops(c, position);
    let prefill = prefill_ops(c, n, position);
    assert(step[3] is CopyRows && reads(step[3], Buffer::NormedEmbed));
    assert(step[4] is CopyRows && reads(step[4], Buffer::NormedHidden));
    assert(step[8] is Rope && step[6] is GemmRows && writes(step[6], Buffer::Key));
    assert(prefill[4] is CopyRows && reads(prefill[4], Buffer::NormedEmbed));
    assert(prefill[5] is CopyRows && reads(prefill[5], Buffer::NormedHidden));
    assert(prefill[9] is Rope && prefill[7] is GemmRows && writes(prefill[7], Buffer::Key));
}

} // verus!
