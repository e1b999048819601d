use openinfer::decode::{
    attention_path, bucket_for, decode_sizes, graph_index, paged_meta, split_chunk_size,
    split_chunk_size_for, split_meta, BatchDecodeBuffers, ChunkOverflow, DecodeAttentionPath,
    KvView, NumericPolicy, BATCH_BUCKETS, SPLIT_KV_CHUNK_TOKENS, SPLIT_KV_MAX_CHUNKS_PER_REQUEST,
};
use openinfer::eagle3::draft::{
    check_chain_seed, check_seed_context, draft_to_target_id, ChainStep, DraftError,
    Eagle3RequestState, TensorShape,
};
use openinfer::eagle3::kernels::{
    buffer_shape, plan_prefill_ops, plan_step_ops, Buffer, DraftOp, Eagle3Config,
};

fn view(pages: Vec<i32>, last_page_len: usize, seq_len: usize) -> KvView {
    KvView { page_indices: pages, last_page_len, seq_len }
}

#[test]
fn buckets_round_batches_up() {
    assert_eq!(bucket_for(1), 1);
    for bs in 1..=256 {
        let bucket = bucket_for(bs);
        assert!(bucket >= bs);
        assert!(BATCH_BUCKETS.contains(&bucket));
        assert!(BATCH_BUCKETS.iter().all(|b| *b < bs || *b >= bucket));
    }
}

#[test]
fn graphs_of_both_paths_are_apart() {
    let mut seen = Vec::new();
    for bucket in 0..BATCH_BUCKETS.len() {
        for path in [DecodeAttentionPath::NonPartition, DecodeAttentionPath::SplitKv] {
            let index = graph_index(bucket, path);
            assert!(!seen.contains(&index));
            seen.push(index);
        }
    }
    assert_eq!(attention_path(32), DecodeAttentionPath::SplitKv);
    assert_eq!(attention_path(33), DecodeAttentionPath::NonPartition);
}

#[test]
fn chunk_sizes_keep_a_request_within_its_chunks() {
    assert_eq!(split_chunk_size_for(1), SPLIT_KV_CHUNK_TOKENS);
    for basis in [1usize, 64, 4096, 4097, 40_960, 131_072] {
        let size = split_chunk_size_for(basis);
        assert!(basis.div_ceil(size) <= SPLIT_KV_MAX_CHUNKS_PER_REQUEST, "{basis}");
    }
    assert_eq!(
        split_chunk_size(NumericPolicy::Pin, 10, 40_960),
        split_chunk_size(NumericPolicy::Pin, 30_000, 40_960)
    );
    assert!(split_chunk_size(NumericPolicy::Tuned, 10, 40_960)
        < split_chunk_size(NumericPolicy::Pin, 10, 40_960));
}

#[test]
fn padding_rows_read_the_padding_page() {
    let views = [view(vec![3, 4], 5, 21), view(vec![9], 2, 2)];
    let meta = paged_meta(&views, 4, 77);
    assert_eq!(meta.page_indices, vec![3, 4, 9, 77, 77]);
    assert_eq!(meta.indptr, vec![0, 2, 3, 4, 5]);
    assert_eq!(meta.last_page_lens, vec![5, 2, 1, 1]);
    assert_eq!(meta.chunk_sizes, vec![21, 2, 1, 1]);
    assert_eq!(meta.request_indices, vec![0, 1, 2, 3]);
    assert_eq!(meta.kv_tile_indices, vec![0, 0, 0, 0]);
    assert_eq!(meta.max_seq_len, 21);
}

#[test]
fn long_requests_split_into_chunks() {
    let views = [view(vec![1], 1, 130), view(vec![2], 1, 10)];
    let meta = match split_meta(&views, 2, 64) {
        Ok(Some(meta)) => meta,
        _ => panic!("two requests split"),
    };
    assert_eq!(&meta.request_indices[..4], &[0, 0, 0, 1]);
    assert_eq!(&meta.kv_tile_indices[..4], &[0, 1, 2, 0]);
    assert_eq!(meta.o_indptr, vec![0, 3, 4]);
    assert_eq!(meta.padded_slots, 2 * SPLIT_KV_MAX_CHUNKS_PER_REQUEST);
    assert_eq!(meta.block_valid_mask.iter().filter(|v| **v == 1).count(), 4);
    assert!(matches!(split_meta(&views, 33, 64), Ok(None)));
    let overflow = split_meta(&[view(vec![1], 1, 65)], 1, 1);
    match overflow {
        Err(error) => {
            assert_eq!(error, ChunkOverflow { chunks: 65, seq_len: 65, split_chunk_size: 1 });
            assert!(error.message().contains("65"));
        }
        Ok(_) => panic!("65 chunks are too many"),
    }
}

#[test]
fn buffers_follow_the_batch() {
    let mut buffers = BatchDecodeBuffers::new(8, 77, 4096);
    buffers.set_batch_size(2);
    assert_eq!(buffers.batch_size, 2);
    let views = [view(vec![3, 4], 5, 21), view(vec![9], 2, 2)];
    match buffers.sync_paged_meta(&views, 4, NumericPolicy::Tuned) {
        Ok((paged, Some(split))) => {
            assert_eq!(paged.page_indices.len(), 5);
            assert_eq!(split.padded_slots, buffers.split_padded_slots);
        }
        _ => panic!("a small batch takes the split path"),
    }
    assert_eq!(buffers.max_seq_len, 21);
    let sizes = decode_sizes(4096, 1024, 8, 100, 32);
    assert_eq!(sizes.qkv_rows, 6144);
    assert_eq!(sizes.page_indices, 108);
    assert_eq!(sizes.page_indptr, 9);
    assert_eq!(sizes.split_slots, 512);
    assert_eq!(sizes.split_tmp_v, 512 * 4096);
    assert_eq!(sizes.graphs, 72);
}

fn config() -> Eagle3Config {
    Eagle3Config {
        hidden_size: 8,
        intermediate_size: 16,
        q_dim: 12,
        kv_dim: 4,
        feature_dim: 24,
        draft_vocab_size: 10,
        vocab_size: 100,
        max_position_embeddings: 64,
    }
}

#[test]
fn a_step_is_planned_buffer_by_buffer() {
    let c = config();
    let ops = plan_step_ops(&c, 5);
    assert!(matches!(ops[0], DraftOp::Embed { dst: Buffer::Embed }));
    assert!(ops.iter().any(|op| matches!(op, DraftOp::Rope { position: 5, .. })));
    assert!(ops.iter().any(|op| matches!(op, DraftOp::AttendOne { kv_len: 6 })));
    let prefill = plan_prefill_ops(&c, 3, 5);
    assert!(prefill
        .iter()
        .any(|op| matches!(op, DraftOp::AttendCausal { columns: 3, kv_len: 8 })));
    assert_eq!(buffer_shape(&c, 3, 64, Buffer::Query), (12, 3));
    assert_eq!(buffer_shape(&c, 1, 64, Buffer::Logits), (10, 1));
}

#[test]
fn a_draft_round_leaves_the_cache_where_it_was() {
    let c = config();
    let mut state: Eagle3RequestState<&str> = Eagle3RequestState::new(&c, 32).unwrap();
    assert!(matches!(
        Eagle3RequestState::<&str>::new(&c, 65),
        Err(DraftError::CacheLength { len: 65, limit: 64 })
    ));
    let captured = TensorShape { dim: 24, len: 9 };
    let plan = state.prefill_prompt(&c, captured, 2, 5).unwrap();
    assert_eq!((plan.from, plan.columns, plan.start, plan.boundary), (2, 4, 0, 6));
    let features = TensorShape { dim: 24, len: 4 };
    state.prefill_batched(&c, features, 4, 0).unwrap();
    state.prefill_done(4);
    state.set_seed_feature("boundary");
    assert_eq!(state.cached_len(), 4);
    assert_eq!(state.seed_feature(), Some(&"boundary"));

    let mut chain = state.chain_round(7, 2).unwrap();
    let d2t: Vec<i64> = vec![0; 10];
    let mut logits = vec![0.0f32.to_bits(); 10];
    logits[3] = 2.0f32.to_bits();
    let mut positions = Vec::new();
    loop {
        match chain.next_step() {
            ChainStep::Done => break,
            ChainStep::Draft { position, .. } => {
                positions.push(position);
                state.draft_step(&c, position).unwrap();
                state.step_done();
                chain.accept(&logits, &d2t, c.vocab_size).unwrap();
            }
        }
    }
    assert_eq!(positions, vec![4, 5]);
    assert_eq!(state.rewind(chain), vec![3, 3]);
    assert_eq!(state.cached_len(), 4);

    let plan = state.reseed_after_verify(&c, TensorShape { dim: 24, len: 3 }, 0, 3, 1).unwrap();
    assert_eq!((plan.columns, plan.to, plan.len, plan.start), (1, 1, 2, 4));
}

#[test]
fn drafts_that_cannot_run_say_why() {
    let c = config();
    let state: Eagle3RequestState<()> = Eagle3RequestState::new(&c, 32).unwrap();
    assert!(matches!(state.chain_round(1, 2), Err(DraftError::NoSeed)));
    assert!(matches!(
        state.prefill_prompt(&c, TensorShape { dim: 24, len: 9 }, 0, 1),
        Err(DraftError::ShortPrompt)
    ));
    assert!(matches!(
        state.prefill_prompt(&c, TensorShape { dim: 23, len: 9 }, 0, 5),
        Err(DraftError::CaptureDim { .. })
    ));
    assert!(state.draft_step(&c, 32).is_err());
    assert!(state.draft_step(&c, 3).is_err());
    assert!(state.prefill_batched(&c, TensorShape { dim: 24, len: 0 }, 0, 0).is_err());
    assert!(check_seed_context(&c, TensorShape { dim: 24, len: 1 }).is_ok());
    assert!(check_seed_context(&c, TensorShape { dim: 23, len: 1 }).is_err());
    assert!(check_seed_context(&c, TensorShape { dim: 24, len: 2 }).is_err());
    assert!(check_chain_seed(&c, TensorShape { dim: 8, len: 1 }, 2).is_ok());
    assert!(check_chain_seed(&c, TensorShape { dim: 8, len: 1 }, 0).is_err());
    assert!(!DraftError::NoSeed.message().is_empty());
    assert_eq!(draft_to_target_id(&[0, 5], 1, 100), Some(6));
    assert_eq!(draft_to_target_id(&[0, 5], 2, 100), None);
    assert_eq!(draft_to_target_id(&[-1], 0, 100), None);
    assert_eq!(draft_to_target_id(&[100], 0, 100), None);
}
