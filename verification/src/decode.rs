//! Batched decode: padding buckets, attention paths and the metadata that paged
//! attention reads.
use vstd::prelude::*;
use vstd::string::*;
use crate::arith::{
    ceil_div, div_ceil, lemma_ceil_div_bounds, lemma_ceil_div_is_least, max_nat, max_size, min_nat,
    min_size,
};
use crate::text::{decimal, push_size};

verus! {

/// Batch sizes that graphs are captured for. A batch is padded up to the nearest.
pub const BATCH_BUCKETS: [usize; 36] = [
    1, 2, 4, 8, 16, 20, 24, 32, 40, 48, 56, 64, 72, 80, 88, 96, 104, 112, 120, 128, 136, 144, 152,
    160, 168, 176, 184, 192, 200, 208, 216, 224, 232, 240, 248, 256,
];

pub const DECODE_ATTENTION_PATH_COUNT: usize = 2;

/// Tokens per chunk of the split path, at least.
pub const SPLIT_KV_CHUNK_TOKENS: usize = 64;

/// Chunks of one request, at most.
pub const SPLIT_KV_MAX_CHUNKS_PER_REQUEST: usize = 64;

/// Batches beyond this size fill the device without splitting.
pub const SPLIT_KV_MAX_BATCH_SIZE: usize = 32;

/// Chunk size that holds a request of `basis` tokens in the allowed chunks.
pub open spec fn chunk_size_of(basis: nat) -> nat {
    max_nat(
        SPLIT_KV_CHUNK_TOKENS as nat,
        ceil_div(basis, SPLIT_KV_MAX_CHUNKS_PER_REQUEST as nat),
    )
}

pub fn split_chunk_size_for(basis: usize) -> (r: usize)
    ensures
        r == chunk_size_of(basis as nat),
        r > 0,
{
    max_size(SPLIT_KV_CHUNK_TOKENS, div_ceil(basis, SPLIT_KV_MAX_CHUNKS_PER_REQUEST))
}

/// Chunks a request takes: at least one.
pub open spec fn chunks_of(seq_len: nat, chunk_size: nat) -> nat {
    max_nat(ceil_div(seq_len, chunk_size), 1)
}

/// A request no longer than the basis never takes more chunks than allowed.
pub proof fn lemma_basis_bounds_chunks(seq_len: nat, basis: nat)
    requires
        seq_len <= basis,
    ensures
        1 <= chunks_of(seq_len, chunk_size_of(basis)) <= SPLIT_KV_MAX_CHUNKS_PER_REQUEST,
{
    let chunk = chunk_size_of(basis);
    let per = ceil_div(basis, 64);
    lemma_ceil_div_bounds(basis, 64);
    lemma_ceil_div_bounds(seq_len, chunk);
    let n = ceil_div(seq_len, chunk);
    if n > 64 {
        assert((n - 1) * chunk >= 64 * chunk) by (nonlinear_arith)
            requires
                n > 64,
                chunk >= 0,
        ;
        assert(false);
    }
}

#[derive(Clone, Copy, Debug, PartialEq, Eq, Structural)]
pub enum DecodeAttentionPath {
    NonPartition,
    SplitKv,
}

impl DecodeAttentionPath {
    pub open spec fn slot(self) -> int {
        match self {
            DecodeAttentionPath::NonPartition => 0,
            DecodeAttentionPath::SplitKv => 1,
        }
    }

    pub fn graph_slot(self) -> (r: usize)
        ensures
            r == self.slot(),
    {
        match self {
            DecodeAttentionPath::NonPartition => 0,
            DecodeAttentionPath::SplitKv => 1,
        }
    }
}

/// Where the graph of a bucket and a path is kept.
pub fn graph_index(bucket_idx: usize, path: DecodeAttentionPath) -> (r: usize)
    requires
        bucket_idx * 2 + 1 <= usize::MAX,
    ensures
        r == bucket_idx * DECODE_ATTENTION_PATH_COUNT + path.slot(),
{
    bucket_idx * DECODE_ATTENTION_PATH_COUNT + path.graph_slot()
}

/// No two graphs share a place.
pub proof fn lemma_graphs_are_apart(
    a: nat,
    path_a: DecodeAttentionPath,
    b: nat,
    path_b: DecodeAttentionPath,
)
    requires
        a * DECODE_ATTENTION_PATH_COUNT + path_a.slot() == b * DECODE_ATTENTION_PATH_COUNT
            + path_b.slot(),
    ensures
        a == b,
        path_a == path_b,
{
}

/// Which attention kernel a padded batch takes.
pub fn attention_path(padded_bs: usize) -> (r: DecodeAttentionPath)
    ensures
        r == (if padded_bs <= SPLIT_KV_MAX_BATCH_SIZE {
            DecodeAttentionPath::SplitKv
        } else {
            DecodeAttentionPath::NonPartition
        }),
{
    if padded_bs <= SPLIT_KV_MAX_BATCH_SIZE {
        DecodeAttentionPath::SplitKv
    } else {
        DecodeAttentionPath::NonPartition
    }
}

/// The smallest bucket that holds a batch.
pub open spec fn is_bucket_for(bs: usize, bucket: usize) -> bool {
    &&& exists|i: int| 0 <= i < 36 && #[trigger] BATCH_BUCKETS@[i] == bucket
    &&& bucket >= bs
    &&& forall|i: int| 0 <= i < 36 && (#[trigger] BATCH_BUCKETS@[i]) >= bs ==> BATCH_BUCKETS@[i]
        >= bucket
}

pub fn bucket_for(bs: usize) -> (bucket: usize)
    requires
        bs <= 256,
    ensures
        is_bucket_for(bs, bucket),
{
    let buckets = BATCH_BUCKETS;
    let mut i: usize = 0;
    while i < 35
        invariant
            i <= 35,
            buckets == BATCH_BUCKETS,
            bs <= 256,
            forall|k: int| 0 <= k < i ==> (#[trigger] BATCH_BUCKETS@[k]) < bs,
        decreases 35 - i,
    {
        if buckets[i] >= bs {
            proof {
                lemma_buckets_ascend();
            }
            return buckets[i];
        }
        i = i + 1;
    }
    proof {
        lemma_buckets_ascend();
    }
    buckets[i]
}

proof fn lemma_buckets_ascend()
    ensures
        BATCH_BUCKETS@.len() == 36,
        forall|i: int, j: int|
            0 <= i < j < 36 ==> (#[trigger] BATCH_BUCKETS@[i]) < (#[trigger] BATCH_BUCKETS@[j]),
        BATCH_BUCKETS@[35] == 256,
{
}

/// What decode attention reads of one request's cache.
pub struct KvView {
    pub page_indices: Vec<i32>,
    pub last_page_len: usize,
    pub seq_len: usize,
}

/// The pages of a batch, one request after the other.
pub open spec fn pages_of(views: Seq<KvView>) -> Seq<i32>
    decreases views.len(),
{
    if views.len() == 0 {
        Seq::empty()
    } else {
        pages_of(views.drop_last()) + views.last().page_indices@
    }
}

/// Pages before a slot: padding slots have one page each.
pub open spec fn pages_before(views: Seq<KvView>, slot: int) -> nat {
    if slot <= views.len() {
        pages_of(views.take(slot)).len()
    } else {
        (pages_of(views).len() + (slot - views.len())) as nat
    }
}

/// The longest request of a batch.
pub open spec fn longest(views: Seq<KvView>) -> nat
    decreases views.len(),
{
    if views.len() == 0 {
        0
    } else {
        max_nat(longest(views.drop_last()), views.last().seq_len as nat)
    }
}

/// Metadata of paged attention: pages in compressed rows, one row per slot.
pub struct PagedMeta {
    pub page_indices: Vec<i32>,
    pub indptr: Vec<i32>,
    pub last_page_lens: Vec<i32>,
    pub chunk_sizes: Vec<i32>,
    pub request_indices: Vec<i32>,
    pub kv_tile_indices: Vec<i32>,
    pub max_seq_len: usize,
}

impl PagedMeta {
    /// The metadata of a batch padded to `padded_bs` slots. A padding slot reads
    /// the padding page and has one token.
    pub open spec fn describes(
        self,
        views: Seq<KvView>,
        padded_bs: int,
        padding_page_id: i32,
    ) -> bool {
        &&& self.page_indices@ == pages_of(views) + Seq::new(
            (padded_bs - views.len()) as nat,
            |k: int| padding_page_id,
        )
        &&& self.indptr@ == Seq::new(
            (padded_bs + 1) as nat,
            |slot: int| pages_before(views, slot) as i32,
        )
        &&& self.last_page_lens@ == Seq::new(
            padded_bs as nat,
            |slot: int|
                if slot < views.len() {
                    views[slot].last_page_len as i32
                } else {
                    1i32
                },
        )
        &&& self.chunk_sizes@ == Seq::new(
            padded_bs as nat,
            |slot: int|
                if slot < views.len() {
                    views[slot].seq_len as i32
                } else {
                    1i32
                },
        )
        &&& self.request_indices@ == Seq::new(padded_bs as nat, |slot: int| slot as i32)
        &&& self.kv_tile_indices@ == Seq::new(padded_bs as nat, |slot: int| 0i32)
        &&& self.max_seq_len == longest(views)
    }
}

fn append_pages(out: &mut Vec<i32>, pages: &Vec<i32>)
    ensures
        final(out)@ == old(out)@ + pages@,
{
    let ghost before = out@;
    let mut i: usize = 0;
    assert(before + pages@.take(0) =~= before);
    while i < pages.len()
        invariant
            i <= pages.len(),
            out@ == before + pages@.take(i as int),
        decreases pages.len() - i,
    {
        out.push(pages[i]);
        assert(pages@.take(i as int + 1) =~= pages@.take(i as int).push(pages@[i as int]));
        i = i + 1;
    }
    assert(pages@.take(i as int) =~= pages@);
}

/// Builds the metadata of a padded batch.
#[verifier::loop_isolation(false)]
pub fn paged_meta(views: &[KvView], padded_bs: usize, padding_page_id: i32) -> (meta: PagedMeta)
    requires
        views@.len() <= padded_bs <= i32::MAX,
    ensures
        meta.describes(views@, padded_bs as int, padding_page_id),
{
    let ghost v = views@;
    let real_bs: usize = views.len();
    let mut page_indices: Vec<i32> = Vec::new();
    let mut indptr: Vec<i32> = Vec::new();
    indptr.push(0);
    let mut last_page_lens: Vec<i32> = Vec::new();
    let mut chunk_sizes: Vec<i32> = Vec::new();
    let mut max_seq_len: usize = 0;
    let mut i: usize = 0;
    proof {
        assert(v.take(0) =~= Seq::<KvView>::empty());
        assert(page_indices@ =~= pages_of(v.take(0)));
        assert(indptr@ =~= Seq::new(1, |slot: int| pages_before(v, slot) as i32));
    }
    while i < real_bs
        invariant
            i <= real_bs,
            page_indices@ == pages_of(v.take(i as int)),
            indptr@ == Seq::new((i + 1) as nat, |slot: int| pages_before(v, slot) as i32),
            last_page_lens@ == Seq::new(i as nat, |slot: int| v[slot].last_page_len as i32),
            chunk_sizes@ == Seq::new(i as nat, |slot: int| v[slot].seq_len as i32),
            max_seq_len == longest(v.take(i as int)),
        decreases real_bs - i,
    {
        let kv = &views[i];
        let ghost old_indptr = indptr@;
        let ghost old_lens = last_page_lens@;
        let ghost old_sizes = chunk_sizes@;
        assert(v.take(i as int + 1).drop_last() =~= v.take(i as int));
        append_pages(&mut page_indices, &kv.page_indices);
        indptr.push(page_indices.len() as i32);
        last_page_lens.push(kv.last_page_len as i32);
        chunk_sizes.push(kv.seq_len as i32);
        max_seq_len = max_size(max_seq_len, kv.seq_len);
        proof {
            assert(page_indices@.len() == pages_before(v, i as int + 1));
            assert(indptr@ =~= Seq::new((i + 2) as nat, |slot: int| pages_before(v, slot) as i32));
            assert(last_page_lens@ =~= Seq::new(
                (i + 1) as nat,
                |slot: int| v[slot].last_page_len as i32,
            ));
            assert(chunk_sizes@ =~= Seq::new((i + 1) as nat, |slot: int| v[slot].seq_len as i32));
        }
        i = i + 1;
    }
    assert(v.take(real_bs as int) =~= v);
    proof {
        assert(page_indices@ =~= pages_of(v) + Seq::new(0, |k: int| padding_page_id));
        assert(last_page_lens@ =~= Seq::new(
            i as nat,
            |slot: int|
                if slot < v.len() {
                    v[slot].last_page_len as i32
                } else {
                    1i32
                },
        ));
        assert(chunk_sizes@ =~= Seq::new(
            i as nat,
            |slot: int|
                if slot < v.len() {
                    v[slot].seq_len as i32
                } else {
                    1i32
                },
        ));
    }
    while i < padded_bs
        invariant
            real_bs <= i <= padded_bs,
            page_indices@ == pages_of(v) + Seq::new(
                (i - real_bs) as nat,
                |k: int| padding_page_id,
            ),
            indptr@ == Seq::new((i + 1) as nat, |slot: int| pages_before(v, slot) as i32),
            last_page_lens@ == Seq::new(
                i as nat,
                |slot: int|
                    if slot < v.len() {
                        v[slot].last_page_len as i32
                    } else {
                        1i32
                    },
            ),
            chunk_sizes@ == Seq::new(
                i as nat,
                |slot: int|
                    if slot < v.len() {
                        v[slot].seq_len as i32
                    } else {
                        1i32
                    },
            ),
        decreases padded_bs - i,
    {
        page_indices.push(padding_page_id);
        indptr.push(page_indices.len() as i32);
        last_page_lens.push(1);
        chunk_sizes.push(1);
        proof {
            assert(page_indices@ =~= pages_of(v) + Seq::new(
                (i + 1 - real_bs) as nat,
                |k: int| padding_page_id,
            ));
            assert(page_indices@.len() == pages_before(v, i as int + 1));
            assert(indptr@ =~= Seq::new((i + 2) as nat, |slot: int| pages_before(v, slot) as i32));
            assert(last_page_lens@ =~= Seq::new(
                (i + 1) as nat,
                |slot: int|
                    if slot < v.len() {
                        v[slot].last_page_len as i32
                    } else {
                        1i32
                    },
            ));
            assert(chunk_sizes@ =~= Seq::new(
                (i + 1) as nat,
                |slot: int|
                    if slot < v.len() {
                        v[slot].seq_len as i32
                    } else {
                        1i32
                    },
            ));
        }
        i = i + 1;
    }
    let mut request_indices: Vec<i32> = Vec::new();
    let mut kv_tile_indices: Vec<i32> = Vec::new();
    let mut slot: usize = 0;
    while slot < padded_bs
        invariant
            slot <= padded_bs,
            request_indices@ == Seq::new(slot as nat, |k: int| k as i32),
            kv_tile_indices@ == Seq::new(slot as nat, |k: int| 0i32),
        decreases padded_bs - slot,
    {
        request_indices.push(slot as i32);
        kv_tile_indices.push(0);
        assert(request_indices@ =~= Seq::new((slot + 1) as nat, |k: int| k as i32));
        assert(kv_tile_indices@ =~= Seq::new((slot + 1) as nat, |k: int| 0i32));
        slot = slot + 1;
    }
    PagedMeta {
        page_indices,
        indptr,
        last_page_lens,
        chunk_sizes,
        request_indices,
        kv_tile_indices,
        max_seq_len,
    }
}

proof fn lemma_pages_prefix(views: Seq<KvView>, n: int)
    requires
        0 <= n <= views.len(),
    ensures
        pages_of(views.take(n)).len() <= pages_of(views).len(),
        pages_of(views).take(pages_of(views.take(n)).len() as int) == pages_of(views.take(n)),
    decreases views.len() - n,
{
    if n == views.len() {
        assert(views.take(n) =~= views);
    } else {
        let mid = views.take(n + 1);
        assert(mid.drop_last() =~= views.take(n));
        lemma_pages_prefix(views, n + 1);
        let len = pages_of(views.take(n)).len() as int;
        assert(pages_of(mid).take(len) =~= pages_of(views.take(n)));
        assert(pages_of(views).take(len) =~= pages_of(views).take(
            pages_of(mid).len() as int,
        ).take(len));
    }
}

/// Each row of the metadata holds its own request's pages: the row of a request
/// are the pages of its cache, and the row of a padding slot is the padding page.
pub proof fn lemma_rows_hold_their_pages(
    meta: PagedMeta,
    views: Seq<KvView>,
    padded_bs: int,
    padding_page_id: i32,
    slot: int,
)
    requires
        views.len() <= padded_bs,
        meta.describes(views, padded_bs, padding_page_id),
        pages_before(views, padded_bs) <= i32::MAX,
        0 <= slot < padded_bs,
    ensures
        0 <= meta.indptr@[slot] <= meta.indptr@[slot + 1] <= meta.page_indices@.len(),
        meta.page_indices@.subrange(meta.indptr@[slot] as int, meta.indptr@[slot + 1] as int) == (
        if slot < views.len() {
            views[slot].page_indices@
        } else {
            seq![padding_page_id]
        }),
{
    assert(views.take(views.len() as int) =~= views);
    lemma_pages_prefix(views, if slot < views.len() { slot } else { views.len() as int });
    lemma_pages_prefix(views, if slot + 1 <= views.len() { slot + 1 } else { views.len() as int });
    let from = pages_before(views, slot);
    let to = pages_before(views, slot + 1);
    if slot < views.len() {
        let before = views.take(slot);
        let through = views.take(slot + 1);
        assert(through.drop_last() =~= before);
        assert(pages_of(through) == pages_of(before) + views[slot].page_indices@);
        assert(from <= to <= pages_of(views).len());
        assert(meta.page_indices@.subrange(from as int, to as int) =~= pages_of(through).subrange(
            from as int,
            to as int,
        )) by {
            assert(pages_of(views).take(to as int) == pages_of(through));
            assert forall|k: int| from <= k < to implies meta.page_indices@[k] == pages_of(
                through,
            )[k] by {
                assert(pages_of(views).take(to as int)[k] == pages_of(views)[k]);
            }
        }
        assert(pages_of(through).subrange(from as int, to as int)
            =~= views[slot].page_indices@);
        assert(to <= pages_before(views, padded_bs));
    } else {
        assert(meta.page_indices@.subrange(from as int, to as int) =~= seq![padding_page_id]);
    }
}

/// How numerics may depend on what else is in the batch.
#[derive(Clone, Copy, Debug, PartialEq, Eq, Structural)]
pub enum NumericPolicy {
    /// Tuned to the batch.
    Tuned,
    /// The same whatever the batch.
    Pin,
    /// The same whatever the batch, token by token.
    PerToken,
}

/// The tokens that the chunk size is derived from.
pub open spec fn chunk_basis(policy: NumericPolicy, max_seq_len: nat, max_context: nat) -> nat {
    match policy {
        NumericPolicy::Tuned => max_seq_len,
        NumericPolicy::Pin | NumericPolicy::PerToken => max_context,
    }
}

pub fn split_chunk_size(
    policy: NumericPolicy,
    max_seq_len: usize,
    max_context_tokens: usize,
) -> (r: usize)
    ensures
        r == chunk_size_of(chunk_basis(policy, max_seq_len as nat, max_context_tokens as nat)),
        r > 0,
{
    let basis: usize = match policy {
        NumericPolicy::Tuned => max_seq_len,
        NumericPolicy::Pin | NumericPolicy::PerToken => max_context_tokens,
    };
    split_chunk_size_for(basis)
}

/// The blocks of a batch, request by request: each is a request and a chunk of it.
pub open spec fn blocks_of(views: Seq<KvView>, chunk_size: nat) -> Seq<(int, int)>
    decreases views.len(),
{
    if views.len() == 0 {
        Seq::empty()
    } else {
        blocks_of(views.drop_last(), chunk_size) + Seq::new(
            chunks_of(views.last().seq_len as nat, chunk_size),
            |tile: int| (views.len() - 1, tile),
        )
    }
}

/// A request took more chunks than the workspace has room for.
#[derive(Clone, Copy, Debug, PartialEq, Eq, Structural)]
pub struct ChunkOverflow {
    pub chunks: usize,
    pub seq_len: usize,
    pub split_chunk_size: usize,
}

impl ChunkOverflow {
    pub fn message(&self) -> (s: String)
        ensures
            s@ == "split-KV chunk count "@ + decimal(self.chunks as nat)
                + " exceeds workspace bound "@ + decimal(
                SPLIT_KV_MAX_CHUNKS_PER_REQUEST as nat,
            ) + " (seq_len="@ + decimal(self.seq_len as nat) + ", split_chunk_size="@ + decimal(
                self.split_chunk_size as nat,
            ) + ") \u{2014} context limit misconfigured"@,
    {
        let mut s = String::from_str("split-KV chunk count ");
        push_size(&mut s, self.chunks);
        s.append(" exceeds workspace bound ");
        push_size(&mut s, SPLIT_KV_MAX_CHUNKS_PER_REQUEST);
        s.append(" (seq_len=");
        push_size(&mut s, self.seq_len);
        s.append(", split_chunk_size=");
        push_size(&mut s, self.split_chunk_size);
        s.append(") \u{2014} context limit misconfigured");
        s
    }
}

/// The first request that takes too many chunks.
pub open spec fn chunk_overflow(views: Seq<KvView>, chunk_size: usize) -> Option<ChunkOverflow>
    decreases views.len(),
{
    if views.len() == 0 {
        None
    } else {
        let seq_len = views.last().seq_len;
        match chunk_overflow(views.drop_last(), chunk_size) {
            Some(overflow) => Some(overflow),
            None => if chunks_of(seq_len as nat, chunk_size as nat)
                > SPLIT_KV_MAX_CHUNKS_PER_REQUEST {
                Some(
                    ChunkOverflow {
                        chunks: chunks_of(seq_len as nat, chunk_size as nat) as usize,
                        seq_len,
                        split_chunk_size: chunk_size,
                    },
                )
            } else {
                None
            },
        }
    }
}

proof fn lemma_chunk_overflow_prefix(views: Seq<KvView>, chunk_size: usize, n: int)
    requires
        0 <= n <= views.len(),
        chunk_overflow(views.take(n), chunk_size) is Some,
    ensures
        chunk_overflow(views, chunk_size) == chunk_overflow(views.take(n), chunk_size),
    decreases views.len() - n,
{
    if n == views.len() {
        assert(views.take(n) =~= views);
    } else {
        assert(views.take(n + 1).drop_last() =~= views.take(n));
        lemma_chunk_overflow_prefix(views, chunk_size, n + 1);
    }
}

/// Metadata of split attention: one entry per block, padded to the workspace.
pub struct SplitMeta {
    pub request_indices: Vec<i32>,
    pub kv_tile_indices: Vec<i32>,
    pub chunk_size: i32,
    pub o_indptr: Vec<i32>,
    pub block_valid_mask: Vec<u8>,
    pub padded_slots: usize,
}

impl SplitMeta {
    pub open spec fn describes(self, views: Seq<KvView>, padded_bs: int, chunk_size: usize) -> bool {
        let blocks = blocks_of(views, chunk_size as nat);
        let slots = padded_bs * SPLIT_KV_MAX_CHUNKS_PER_REQUEST;
        &&& self.padded_slots == slots
        &&& blocks.len() <= slots
        &&& self.request_indices@ == Seq::new(
            slots as nat,
            |k: int|
                if k < blocks.len() {
                    blocks[k].0 as i32
                } else {
                    0i32
                },
        )
        &&& self.kv_tile_indices@ == Seq::new(
            slots as nat,
            |k: int|
                if k < blocks.len() {
                    blocks[k].1 as i32
                } else {
                    0i32
                },
        )
        &&& self.block_valid_mask@ == Seq::new(
            slots as nat,
            |k: int|
                if k < blocks.len() {
                    1u8
                } else {
                    0u8
                },
        )
        &&& self.o_indptr@ == Seq::new(
            (padded_bs + 1) as nat,
            |slot: int|
                if slot <= views.len() {
                    blocks_of(views.take(slot), chunk_size as nat).len() as i32
                } else {
                    blocks.len() as i32
                },
        )
        &&& self.chunk_size == chunk_size as i32
    }
}

/// Builds the split metadata of a padded batch. A batch too large for the split
/// path has none.
#[verifier::loop_isolation(false)]
#[verifier::rlimit(40)]
pub fn split_meta(views: &[KvView], padded_bs: usize, chunk_size: usize) -> (r: Result<
    Option<SplitMeta>,
    ChunkOverflow,
>)
    requires
        views@.len() <= padded_bs,
        chunk_size > 0,
    ensures
        if padded_bs > SPLIT_KV_MAX_BATCH_SIZE {
            r matches Ok(None)
        } else {
            match chunk_overflow(views@, chunk_size) {
                Some(overflow) => r == Err::<Option<SplitMeta>, ChunkOverflow>(overflow),
                None => r matches Ok(Some(meta)) && meta.describes(
                    views@,
                    padded_bs as int,
                    chunk_size,
                ),
            }
        },
{
    let ghost v = views@;
    if padded_bs > SPLIT_KV_MAX_BATCH_SIZE {
        return Ok(None);
    }
    let padded_slots: usize = padded_bs * SPLIT_KV_MAX_CHUNKS_PER_REQUEST;
    let mut request_indices: Vec<i32> = Vec::new();
    let mut kv_tile_indices: Vec<i32> = Vec::new();
    let mut block_valid_mask: Vec<u8> = Vec::new();
    let mut o_indptr: Vec<i32> = Vec::new();
    o_indptr.push(0);
    let mut i: usize = 0;
    proof {
        assert(v.take(0) =~= Seq::<KvView>::empty());
    }
    while i < views.len()
        invariant
            i <= v.len(),
            chunk_overflow(v.take(i as int), chunk_size) is None,
            filled(
                request_indices@,
                kv_tile_indices@,
                block_valid_mask@,
                blocks_of(v.take(i as int), chunk_size as nat),
            ),
            blocks_of(v.take(i as int), chunk_size as nat).len() <= i * 64,
            o_indptr@.len() == i + 1,
            forall|slot: int|
                0 <= slot <= i ==> #[trigger] o_indptr@[slot] == blocks_of(
                    v.take(slot),
                    chunk_size as nat,
                ).len() as i32,
        decreases v.len() - i,
    {
        let ghost before = blocks_of(v.take(i as int), chunk_size as nat);
        let ghost after = blocks_of(v.take(i as int + 1), chunk_size as nat);
        let seq_len: usize = views[i].seq_len;
        proof {
            assert(v.take(i as int + 1).drop_last() =~= v.take(i as int));
            assert(v.take(i as int + 1).last() == v[i as int]);
            if chunk_overflow(v.take(i as int + 1), chunk_size) is Some {
                lemma_chunk_overflow_prefix(v, chunk_size, i as int + 1);
            }
        }
        let chunks: usize = max_size(div_ceil(seq_len, chunk_size), 1);
        if chunks > SPLIT_KV_MAX_CHUNKS_PER_REQUEST {
            return Err(ChunkOverflow { chunks, seq_len, split_chunk_size: chunk_size });
        }
        let mut tile: usize = 0;
        assert(after.take(before.len() as int) =~= before);
        while tile < chunks
            invariant
                tile <= chunks,
                filled(
                    request_indices@,
                    kv_tile_indices@,
                    block_valid_mask@,
                    after.take(before.len() + tile),
                ),
            decreases chunks - tile,
        {
            proof {
                assert(after[before.len() + tile] == (i as int, tile as int));
                assert(after.take(before.len() + tile + 1) =~= after.take(
                    before.len() + tile,
                ).push((i as int, tile as int)));
            }
            request_indices.push(i as i32);
            kv_tile_indices.push(tile as i32);
            block_valid_mask.push(1);
            tile = tile + 1;
        }
        assert(after.take(before.len() + chunks) =~= after);
        o_indptr.push(request_indices.len() as i32);
        i = i + 1;
    }
    assert(v.take(v.len() as int) =~= v);
    let ghost blocks = blocks_of(v, chunk_size as nat);
    while i < padded_bs
        invariant
            v.len() <= i <= padded_bs,
            o_indptr@.len() == i + 1,
            request_indices@.len() == blocks.len(),
            forall|slot: int|
                0 <= slot <= v.len() ==> #[trigger] o_indptr@[slot] == blocks_of(
                    v.take(slot),
                    chunk_size as nat,
                ).len() as i32,
            forall|slot: int|
                v.len() <= slot <= i ==> #[trigger] o_indptr@[slot] == blocks.len() as i32,
        decreases padded_bs - i,
    {
        o_indptr.push(request_indices.len() as i32);
        i = i + 1;
    }
    assert(blocks.len() <= padded_slots);
    while request_indices.len() < padded_slots
        invariant
            blocks.len() <= request_indices@.len() <= padded_slots,
            request_indices@.len() == kv_tile_indices@.len(),
            request_indices@.len() == block_valid_mask@.len(),
            filled(
                request_indices@.take(blocks.len() as int),
                kv_tile_indices@.take(blocks.len() as int),
                block_valid_mask@.take(blocks.len() as int),
                blocks,
            ),
            forall|k: int|
                blocks.len() <= k < request_indices@.len() ==> #[trigger] request_indices@[k] == 0,
            forall|k: int|
                blocks.len() <= k < request_indices@.len() ==> #[trigger] kv_tile_indices@[k] == 0,
            forall|k: int|
                blocks.len() <= k < request_indices@.len() ==> #[trigger] block_valid_mask@[k] == 0,
        decreases padded_slots - request_indices@.len(),
    {
        let ghost a = request_indices@;
        let ghost b = kv_tile_indices@;
        let ghost c = block_valid_mask@;
        request_indices.push(0);
        kv_tile_indices.push(0);
        block_valid_mask.push(0);
        proof {
            let n = blocks.len() as int;
            assert(request_indices@.take(n) =~= a.take(n));
            assert(kv_tile_indices@.take(n) =~= b.take(n));
            assert(block_valid_mask@.take(n) =~= c.take(n));
        }
    }
    proof {
        let n = blocks.len() as int;
        assert forall|k: int| 0 <= k < n implies #[trigger] request_indices@[k]
            == blocks[k].0 as i32 by {
            assert(request_indices@.take(n)[k] == request_indices@[k]);
        }
        assert forall|k: int| 0 <= k < n implies #[trigger] kv_tile_indices@[k]
            == blocks[k].1 as i32 by {
            assert(kv_tile_indices@.take(n)[k] == kv_tile_indices@[k]);
        }
        assert forall|k: int| 0 <= k < n implies #[trigger] block_valid_mask@[k] == 1 by {
            assert(block_valid_mask@.take(n)[k] == block_valid_mask@[k]);
        }
        assert(request_indices@ =~= Seq::new(
            padded_slots as nat,
            |k: int|
                if k < blocks.len() {
                    blocks[k].0 as i32
                } else {
                    0i32
                },
        ));
        assert(kv_tile_indices@ =~= Seq::new(
            padded_slots as nat,
            |k: int|
                if k < blocks.len() {
                    blocks[k].1 as i32
                } else {
                    0i32
                },
        ));
        assert(block_valid_mask@ =~= Seq::new(
            padded_slots as nat,
            |k: int|
                if k < blocks.len() {
                    1u8
                } else {
                    0u8
                },
        ));
        assert(o_indptr@ =~= Seq::new(
            (padded_bs + 1) as nat,
            |slot: int|
                if slot <= v.len() {
                    blocks_of(v.take(slot), chunk_size as nat).len() as i32
                } else {
                    blocks.len() as i32
                },
        ));
    }
    Ok(
        Some(
            SplitMeta {
                request_indices,
                kv_tile_indices,
                chunk_size: chunk_size as i32,
                o_indptr,
                block_valid_mask,
                padded_slots,
            },
        ),
    )
}

/// The three columns hold exactly the blocks.
spec fn filled(
    requests: Seq<i32>,
    tiles: Seq<i32>,
    mask: Seq<u8>,
    blocks: Seq<(int, int)>,
) -> bool {
    &&& requests.len() == blocks.len()
    &&& tiles.len() == blocks.len()
    &&& mask.len() == blocks.len()
    &&& forall|k: int| 0 <= k < blocks.len() ==> #[trigger] requests[k] == blocks[k].0 as i32
    &&& forall|k: int| 0 <= k < blocks.len() ==> #[trigger] tiles[k] == blocks[k].1 as i32
    &&& forall|k: int| 0 <= k < blocks.len() ==> #[trigger] mask[k] == 1
}

/// Under a pinned policy the chunks of a request do not depend on what else is in
/// the batch: a request of the same length is cut alike in any two batches.
pub proof fn lemma_pinned_chunks_ignore_the_batch(
    policy: NumericPolicy,
    max_context: nat,
    here: Seq<KvView>,
    i: int,
    there: Seq<KvView>,
    j: int,
)
    requires
        policy != NumericPolicy::Tuned,
        0 <= i < here.len(),
        0 <= j < there.len(),
        here[i].seq_len == there[j].seq_len,
    ensures
        ({
            let size_here = chunk_size_of(chunk_basis(policy, longest(here), max_context));
            let size_there = chunk_size_of(chunk_basis(policy, longest(there), max_context));
            &&& size_here == size_there
            &&& chunks_of(here[i].seq_len as nat, size_here) == chunks_of(
                there[j].seq_len as nat,
                size_there,
            )
        }),
{
}

/// Where every request is within the basis, no chunk count overflows.
pub proof fn lemma_no_overflow_within_basis(views: Seq<KvView>, basis: nat, chunk_size: usize)
    requires
        chunk_size == chunk_size_of(basis),
        forall|i: int| 0 <= i < views.len() ==> (#[trigger] views[i]).seq_len <= basis,
    ensures
        chunk_overflow(views, chunk_size) is None,
    decreases views.len(),
{
    if views.len() > 0 {
        let head = views.drop_last();
        assert forall|i: int| 0 <= i < head.len() implies (#[trigger] head[i]).seq_len
            <= basis by {
            assert(head[i] == views[i]);
        }
        lemma_no_overflow_within_basis(head, basis, chunk_size);
        assert(views[views.len() - 1].seq_len <= basis);
        lemma_basis_bounds_chunks(views.last().seq_len as nat, basis);
    }
}

/// Element counts of the decode buffers.
#[derive(Clone, Copy, Debug, PartialEq, Eq, Structural)]
pub struct DecodeSizes {
    pub qkv_rows: usize,
    pub page_indices: usize,
    pub page_indptr: usize,
    pub split_slots: usize,
    pub split_tmp_v: usize,
    pub split_tmp_s: usize,
    pub graphs: usize,
}

/// What the buffers of batched decode hold between steps.
pub struct BatchDecodeBuffers {
    pub max_batch_size: usize,
    pub batch_size: usize,
    pub max_seq_len: usize,
    pub max_context_tokens: usize,
    pub padding_page_id: i32,
    pub split_padded_slots: usize,
}

/// Blocks the split workspace holds.
pub open spec fn split_slots_of(max_batch_size: nat) -> nat {
    min_nat(max_batch_size, SPLIT_KV_MAX_BATCH_SIZE as nat)
        * SPLIT_KV_MAX_CHUNKS_PER_REQUEST as nat
}

/// Element counts to allocate.
pub fn decode_sizes(
    q_dim: usize,
    kv_dim: usize,
    max_batch_size: usize,
    max_total_pages: usize,
    num_qo_heads: usize,
) -> (r: DecodeSizes)
    requires
        q_dim + 2 * kv_dim <= usize::MAX,
        max_total_pages + max_batch_size <= usize::MAX,
        max_batch_size < usize::MAX,
        split_slots_of(max_batch_size as nat) * q_dim <= usize::MAX,
        split_slots_of(max_batch_size as nat) * num_qo_heads <= usize::MAX,
    ensures
        r.qkv_rows == q_dim + 2 * kv_dim,
        r.page_indices == max_total_pages + max_batch_size,
        r.page_indptr == max_batch_size + 1,
        r.split_slots == split_slots_of(max_batch_size as nat),
        r.split_tmp_v == split_slots_of(max_batch_size as nat) * q_dim,
        r.split_tmp_s == split_slots_of(max_batch_size as nat) * num_qo_heads,
        r.graphs == 36 * DECODE_ATTENTION_PATH_COUNT,
{
    let split_slots: usize = min_size(max_batch_size, SPLIT_KV_MAX_BATCH_SIZE)
        * SPLIT_KV_MAX_CHUNKS_PER_REQUEST;
    DecodeSizes {
        qkv_rows: q_dim + 2 * kv_dim,
        page_indices: max_total_pages + max_batch_size,
        page_indptr: max_batch_size + 1,
        split_slots,
        split_tmp_v: split_slots * q_dim,
        split_tmp_s: split_slots * num_qo_heads,
        graphs: 36 * DECODE_ATTENTION_PATH_COUNT,
    }
}

/// A padded batch that takes the split path fits the workspace.
pub proof fn lemma_split_fits_workspace(max_batch_size: nat, padded_bs: nat)
    requires
        padded_bs <= max_batch_size,
        padded_bs <= SPLIT_KV_MAX_BATCH_SIZE,
    ensures
        padded_bs * SPLIT_KV_MAX_CHUNKS_PER_REQUEST <= split_slots_of(max_batch_size),
{
}

impl BatchDecodeBuffers {
    pub fn new(max_batch_size: usize, padding_page_id: i32, max_context_tokens: usize) -> (r: Self)
        ensures
            r == (BatchDecodeBuffers {
                max_batch_size,
                batch_size: max_batch_size,
                max_seq_len: 0,
                max_context_tokens,
                padding_page_id,
                split_padded_slots: 0,
            }),
    {
        BatchDecodeBuffers {
            max_batch_size,
            batch_size: max_batch_size,
            max_seq_len: 0,
            max_context_tokens,
            padding_page_id,
            split_padded_slots: 0,
        }
    }

    /// Sets the batch of this step.
    pub fn set_batch_size(&mut self, bs: usize)
        requires
            bs <= old(self).max_batch_size,
        ensures
            *final(self) == (BatchDecodeBuffers { batch_size: bs, ..*old(self) }),
    {
        self.batch_size = bs;
    }

    /// The metadata of a step. The longest request is remembered for the chunk
    /// size.
    pub fn sync_paged_meta(
        &mut self,
        views: &[KvView],
        padded_bs: usize,
        policy: NumericPolicy,
    ) -> (r: Result<(PagedMeta, Option<SplitMeta>), ChunkOverflow>)
        requires
            views@.len() <= padded_bs <= i32::MAX,
        ensures
            final(self).max_batch_size == old(self).max_batch_size,
            final(self).batch_size == old(self).batch_size,
            final(self).max_context_tokens == old(self).max_context_tokens,
            final(self).padding_page_id == old(self).padding_page_id,
            final(self).max_seq_len == longest(views@),
            ({
                let chunk_size = chunk_size_of(
                    chunk_basis(policy, longest(views@), old(self).max_context_tokens as nat),
                ) as usize;
                if padded_bs > SPLIT_KV_MAX_BATCH_SIZE {
                    &&& r matches Ok((paged, None))
                    &&& paged.describes(views@, padded_bs as int, old(self).padding_page_id)
                    &&& final(self).split_padded_slots == old(self).split_padded_slots
                } else {
                    match chunk_overflow(views@, chunk_size) {
                        Some(overflow) => {
                            &&& r == Err::<(PagedMeta, Option<SplitMeta>), ChunkOverflow>(overflow)
                            &&& final(self).split_padded_slots == old(self).split_padded_slots
                        },
                        None => {
                            &&& r matches Ok((paged, Some(split)))
                            &&& paged.describes(
                                views@,
                                padded_bs as int,
                                old(self).padding_page_id,
                            )
                            &&& split.describes(views@, padded_bs as int, chunk_size)
                            &&& final(self).split_padded_slots == split.padded_slots
                        },
                    }
                }
            }),
    {
        let paged = paged_meta(views, padded_bs, self.padding_page_id);
        self.max_seq_len = paged.max_seq_len;
        let chunk_size: usize = split_chunk_size(policy, self.max_seq_len, self.max_context_tokens);
        match split_meta(views, padded_bs, chunk_size) {
            Err(overflow) => Err(overflow),
            Ok(split) => {
                if let Some(meta) = &split {
                    self.split_padded_slots = meta.padded_slots;
                }
                Ok((paged, split))
            },
        }
    }
}

/// A batch goes to the smallest bucket that holds it: one that is a bucket itself is not
/// padded at all.
pub proof fn lemma_bucket_is_the_smallest(bs: usize, bucket: usize, other: int)
    requires
        is_bucket_for(bs, bucket),
        0 <= other < 36,
    ensures
        bs <= bucket,
        bs <= BATCH_BUCKETS@[other] ==> bucket <= BATCH_BUCKETS@[other],
        BATCH_BUCKETS@[other] == bs ==> bucket == bs,
{
}

/// A request's chunks are the fewest, of one or more, that hold it.
pub proof fn lemma_chunks_are_the_fewest(seq_len: nat, chunk_size: nat, n: nat)
    requires
        chunk_size > 0,
    ensures
        chunks_of(seq_len, chunk_size) <= n <==> n >= 1 && seq_len <= n * chunk_size,
{
    lemma_ceil_div_is_least(seq_len, chunk_size, n);
}

/// The chunk size is the least one allowed that holds a request of the basis in as many
/// chunks as a request may take.
pub proof fn lemma_chunk_size_is_the_least(basis: nat, size: nat)
    ensures
        chunk_size_of(basis) <= size <==> size >= SPLIT_KV_CHUNK_TOKENS && basis <= size
            * SPLIT_KV_MAX_CHUNKS_PER_REQUEST,
{
    lemma_ceil_div_is_least(basis, SPLIT_KV_MAX_CHUNKS_PER_REQUEST as nat, size);
}

/// The longest request bounds all, and one of them reaches it.
pub proof fn lemma_longest_is_reached(views: Seq<KvView>)
    ensures
        forall|i: int| 0 <= i < views.len() ==> (#[trigger] views[i]).seq_len <= longest(views),
        views.len() > 0 ==> exists|i: int|
            0 <= i < views.len() && (#[trigger] views[i]).seq_len == longest(views),
    decreases views.len(),
{
    if views.len() > 0 {
        let head = views.drop_last();
        let n = views.len() - 1;
        lemma_longest_is_reached(head);
        assert forall|i: int| 0 <= i < views.len() implies (#[trigger] views[i]).seq_len
            <= longest(views) by {
            if i < n {
                assert(head[i] == views[i]);
            }
        }
        if longest(head) > views[n].seq_len {
            let i = choose|i: int|
                0 <= i < head.len() && (#[trigger] head[i]).seq_len == longest(head);
            assert(views[i] == head[i]);
        } else {
            assert(views[n].seq_len == longest(views));
        }
    }
}

/// A tuned chunk size never overflows the batch it was tuned to, nor a pinned one a batch
/// within the context limit.
pub proof fn lemma_chunk_sizes_hold_their_batch(
    policy: NumericPolicy,
    views: Seq<KvView>,
    max_context: nat,
    chunk_size: usize,
)
    requires
        chunk_size == chunk_size_of(chunk_basis(policy, longest(views), max_context)),
        policy == NumericPolicy::Tuned || longest(views) <= max_context,
    ensures
        chunk_overflow(views, chunk_size) is None,
{
    lemma_longest_is_reached(views);
    lemma_no_overflow_within_basis(
        views,
        chunk_basis(policy, longest(views), max_context),
        chunk_size,
    );
}

/// A batch overflows exactly when one of its requests takes more chunks than allowed, and
/// the first such request is named.
pub proof fn lemma_overflow_verdict(views: Seq<KvView>, chunk_size: usize, i: int)
    requires
        chunk_size > 0,
    ensures
        chunk_overflow(views, chunk_size) is None <==> forall|k: int|
            0 <= k < views.len() ==> (#[trigger] views[k]).seq_len
                <= SPLIT_KV_MAX_CHUNKS_PER_REQUEST * chunk_size,
        0 <= i < views.len() && views[i].seq_len > SPLIT_KV_MAX_CHUNKS_PER_REQUEST * chunk_size && (
        forall|k: int|
            0 <= k < i ==> (#[trigger] views[k]).seq_len <= SPLIT_KV_MAX_CHUNKS_PER_REQUEST
                * chunk_size) ==> (chunk_overflow(views, chunk_size) matches Some(overflow)
            && overflow.seq_len == views[i].seq_len && overflow.split_chunk_size == chunk_size),
    decreases views.len(),
{
    if views.len() > 0 {
        let head = views.drop_last();
        let n = views.len() - 1;
        lemma_overflow_verdict(head, chunk_size, i);
        lemma_overflow_verdict(head, chunk_size, -1);
        lemma_chunks_are_the_fewest(
            views[n].seq_len as nat,
            chunk_size as nat,
            SPLIT_KV_MAX_CHUNKS_PER_REQUEST as nat,
        );
        assert forall|k: int| 0 <= k < n implies head[k] == #[trigger] views[k] by {}
        if chunk_overflow(head, chunk_size) is Some {
            let k = choose|k: int|
                0 <= k < head.len() && (#[trigger] head[k]).seq_len
                    > SPLIT_KV_MAX_CHUNKS_PER_REQUEST * chunk_size;
            assert(views[k].seq_len > SPLIT_KV_MAX_CHUNKS_PER_REQUEST * chunk_size);
        }
    }
}

/// Every chunk of every request is one block, and there are no others: the blocks of a
/// request stand together, in order, behind those of the requests before it.
pub proof fn lemma_every_chunk_is_one_block(
    views: Seq<KvView>,
    chunk_size: nat,
    i: int,
    tile: int,
)
    requires
        0 <= i < views.len(),
        0 <= tile < chunks_of(views[i].seq_len as nat, chunk_size),
    ensures
        ({
            let before = blocks_of(views.take(i), chunk_size).len();
            let through = blocks_of(views.take(i + 1), chunk_size).len();
            &&& through == before + chunks_of(views[i].seq_len as nat, chunk_size)
            &&& through <= blocks_of(views, chunk_size).len()
            &&& blocks_of(views, chunk_size)[before + tile] == (i, tile)
        }),
    decreases views.len(),
{
    let head = views.drop_last();
    assert(views.take(i + 1).drop_last() =~= views.take(i));
    if i < head.len() {
        lemma_every_chunk_is_one_block(head, chunk_size, i, tile);
        assert(head.take(i) =~= views.take(i));
        assert(head.take(i + 1) =~= views.take(i + 1));
    } else {
        assert(views.take(i) =~= head);
        assert(views.take(i + 1) =~= views);
    }
}

/// What the metadata says of a slot: the request's own lengths, or one token of padding.
pub proof fn lemma_slots_describe_their_requests(
    meta: PagedMeta,
    views: Seq<KvView>,
    padded_bs: int,
    padding_page_id: i32,
    slot: int,
)
    requires
        views.len() <= padded_bs <= i32::MAX,
        meta.describes(views, padded_bs, padding_page_id),
        0 <= slot < padded_bs,
        slot < views.len() ==> views[slot].seq_len <= i32::MAX && views[slot].last_page_len
            <= i32::MAX,
    ensures
        meta.request_indices@[slot] == slot,
        meta.kv_tile_indices@[slot] == 0,
        slot < views.len() ==> meta.chunk_sizes@[slot] == views[slot].seq_len
            && meta.last_page_lens@[slot] == views[slot].last_page_len,
        slot >= views.len() ==> meta.chunk_sizes@[slot] == 1 && meta.last_page_lens@[slot] == 1,
        meta.indptr@.len() == padded_bs + 1,
        meta.indptr@[0] == 0,
{
    assert(views.take(0) =~= Seq::<KvView>::empty());
}

/// The valid blocks of the split metadata are the chunks of the batch, and the range of a
/// slot are its own; padding slots have none, and padding blocks are not valid.
pub proof fn lemma_split_rows_hold_their_chunks(
    meta: SplitMeta,
    views: Seq<KvView>,
    padded_bs: int,
    chunk_size: usize,
    i: int,
    tile: int,
    k: int,
)
    requires
        0 < chunk_size <= i32::MAX,
        views.len() <= padded_bs <= SPLIT_KV_MAX_BATCH_SIZE,
        meta.describes(views, padded_bs, chunk_size),
        0 <= i < padded_bs,
        i < views.len() ==> 0 <= tile < chunks_of(views[i].seq_len as nat, chunk_size as nat),
        0 <= k < meta.padded_slots,
    ensures
        meta.chunk_size == chunk_size,
        i < views.len() ==> {
            let at = meta.o_indptr@[i] + tile;
            &&& meta.o_indptr@[i] <= at < meta.o_indptr@[i + 1]
            &&& meta.request_indices@[at] == i
            &&& meta.kv_tile_indices@[at] == tile
            &&& meta.block_valid_mask@[at] == 1
            &&& meta.o_indptr@[i + 1] - meta.o_indptr@[i] == chunks_of(
                views[i].seq_len as nat,
                chunk_size as nat,
            )
        },
        i >= views.len() ==> meta.o_indptr@[i] == meta.o_indptr@[i + 1],
        meta.block_valid_mask@[k] == 1 <==> k < meta.o_indptr@[padded_bs],
        meta.block_valid_mask@[k] == 1 || meta.block_valid_mask@[k] == 0,
{
    let blocks = blocks_of(views, chunk_size as nat);
    assert(views.take(views.len() as int) =~= views);
    if i < views.len() {
        lemma_every_chunk_is_one_block(views, chunk_size as nat, i, tile);
        lemma_tiles_are_bounded(views, chunk_size as nat, i);
    }
}

proof fn lemma_tiles_are_bounded(views: Seq<KvView>, chunk_size: nat, i: int)
    requires
        0 <= i < views.len(),
    ensures
        chunks_of(views[i].seq_len as nat, chunk_size) <= blocks_of(views, chunk_size).len(),
        blocks_of(views.take(i), chunk_size).len() + chunks_of(
            views[i].seq_len as nat,
            chunk_size,
        ) <= blocks_of(views, chunk_size).len(),
    decreases views.len(),
{
    let head = views.drop_last();
    if i < head.len() {
        lemma_tiles_are_bounded(head, chunk_size, i);
        assert(head.take(i) =~= views.take(i));
    } else {
        assert(views.take(i) =~= head);
    }
}

/// The pages of a request stand together, in order, behind those of the requests before
/// it; a slot of padding has one page.
pub proof fn lemma_pages_stand_by_request(views: Seq<KvView>, slot: int, j: int)
    requires
        0 <= slot,
    ensures
        pages_before(views, 0) == 0,
        slot < views.len() ==> {
            let pages = views[slot].page_indices@;
            &&& pages_before(views, slot + 1) == pages_before(views, slot) + pages.len()
            &&& pages_before(views, slot + 1) <= pages_of(views).len()
            &&& 0 <= j < pages.len() ==> pages_of(views)[pages_before(views, slot) + j] == pages[j]
        },
        slot >= views.len() ==> pages_before(views, slot + 1) == pages_before(views, slot) + 1,
        pages_before(views, views.len() as int) == pages_of(views).len(),
    decreases views.len(),
{
    assert(views.take(0) =~= Seq::<KvView>::empty());
    assert(views.take(views.len() as int) =~= views);
    if slot < views.len() {
        let head = views.drop_last();
        assert(views.take(slot + 1).drop_last() =~= views.take(slot));
        if slot < head.len() {
            lemma_pages_stand_by_request(head, slot, j);
            assert(head.take(slot) =~= views.take(slot));
            assert(head.take(slot + 1) =~= views.take(slot + 1));
        } else {
            assert(views.take(slot) =~= head);
            assert(views.take(slot + 1) =~= views);
        }
    }
}

/// The blocks behind the last chunk are blank: they name no request and no tile, and are
/// not valid.
pub proof fn lemma_padding_blocks_are_blank(
    meta: SplitMeta,
    views: Seq<KvView>,
    padded_bs: int,
    chunk_size: usize,
    k: int,
)
    requires
        0 < chunk_size <= i32::MAX,
        views.len() <= padded_bs <= SPLIT_KV_MAX_BATCH_SIZE,
        meta.describes(views, padded_bs, chunk_size),
        blocks_of(views, chunk_size as nat).len() <= k < meta.padded_slots,
    ensures
        meta.request_indices@[k] == 0,
        meta.kv_tile_indices@[k] == 0,
        meta.block_valid_mask@[k] == 0,
        meta.request_indices@.len() == meta.padded_slots,
        meta.kv_tile_indices@.len() == meta.padded_slots,
        meta.block_valid_mask@.len() == meta.padded_slots,
        meta.o_indptr@.len() == padded_bs + 1,
{
}

} // verus!
