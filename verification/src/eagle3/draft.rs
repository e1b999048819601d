//! What a request's draft cache holds, and the rounds that extend it.
//!
//! A target feature is paired with the embedding of the token after it. Over a
//! prompt the cache therefore holds one position less than the prompt has tokens,
//! and the last feature waits, as the boundary, for the first generated token.
use vstd::prelude::*;
use vstd::string::*;
use crate::eagle3::kernels::{
    plan_prefill_ops, plan_step_ops, prefill_ops, step_ops, DraftOp, Eagle3Config,
};
use crate::float_bits::{argmax_bits, last_best};
use crate::text::{decimal, push_size};

verus! {

/// Why draft work was refused.
#[derive(Clone, Copy, Debug, PartialEq, Eq, Structural)]
pub enum DraftError {
    CacheLength { len: usize, limit: usize },
    ContextDim { got: usize, expected: usize },
    SeedPositions { got: usize },
    StepOutsideCache { position: usize, cache: usize },
    StepOutOfOrder { position: usize, cached: usize },
    NoTokens,
    PrefillFeatures { dim: usize, n: usize, got_dim: usize, got_n: usize },
    PrefillOutOfOrder { start: usize, cached: usize },
    PrefillOverflow { start: usize, n: usize, cache: usize },
    ShortPrompt,
    UsedState { cached: usize },
    CaptureDim { got: usize, expected: usize },
    CaptureOverflow { from: usize, to: usize, rows: usize },
    NoDrafts,
    SeedShape,
    OutsideVocab,
    NoSeed,
    ReseedSpan { needed: usize, got: usize },
    VerifyDim { got: usize, expected: usize },
    ReseedOverflow { from: usize, to: usize, rows: usize },
    NoBoundary,
}

impl DraftError {
    pub open spec fn text(self) -> Seq<char> {
        match self {
            DraftError::CacheLength { len, limit } => "EAGLE-3 request cache length "@ + decimal(
                len as nat,
            ) + " must be in 1..="@ + decimal(limit as nat),
            DraftError::ContextDim { got, expected } => "EAGLE-3 context feature dim "@ + decimal(
                got as nat,
            ) + " does not match fc input "@ + decimal(expected as nat),
            DraftError::SeedPositions { got } => "EAGLE-3 seed expects one position, got "@
                + decimal(got as nat),
            DraftError::StepOutsideCache { position, cache } => "EAGLE-3 draft position "@
                + decimal(position as nat) + " exceeds cache "@ + decimal(cache as nat),
            DraftError::StepOutOfOrder { position, cached } =>
            "EAGLE-3 draft step expects position "@ + decimal(position as nat)
                + " == cached_len "@ + decimal(cached as nat),
            DraftError::NoTokens => "EAGLE-3 prefill needs tokens"@,
            DraftError::PrefillFeatures { dim, n, got_dim, got_n } =>
            "EAGLE-3 batched prefill needs features ["@ + decimal(dim as nat) + ", "@ + decimal(
                n as nat,
            ) + "], got ["@ + decimal(got_dim as nat) + ", "@ + decimal(got_n as nat) + "]"@,
            DraftError::PrefillOutOfOrder { start, cached } =>
            "EAGLE-3 batched prefill expects start "@ + decimal(start as nat) + " == cached_len "@
                + decimal(cached as nat),
            DraftError::PrefillOverflow { start, n, cache } =>
            "EAGLE-3 batched prefill overflows cache: "@ + decimal(start as nat) + " + "@
                + decimal(n as nat) + " > "@ + decimal(cache as nat),
            DraftError::ShortPrompt => "EAGLE-3 prefill needs >= 2 prompt tokens"@,
            DraftError::UsedState { cached } =>
            "EAGLE-3 prefill_prompt expects a fresh state (cached_len "@ + decimal(cached as nat)
                + ")"@,
            DraftError::CaptureDim { got, expected } => "EAGLE-3 capture features have dim "@
                + decimal(got as nat) + " but fc expects "@ + decimal(expected as nat),
            DraftError::CaptureOverflow { from, to, rows } => "EAGLE-3 capture slice ["@ + decimal(
                from as nat,
            ) + ", "@ + decimal(to as nat) + ") overflows "@ + decimal(rows as nat)
                + " captured rows"@,
            DraftError::NoDrafts => "EAGLE-3 draft chain needs k > 0"@,
            DraftError::SeedShape => "EAGLE-3 chain seed must be [hidden, 1]"@,
            DraftError::OutsideVocab => "EAGLE-3 draft id maps outside target vocab"@,
            DraftError::NoSeed =>
            "EAGLE-3 draft chain has no seed feature (prompt not captured?)"@,
            DraftError::ReseedSpan { needed, got } => "EAGLE-3 re-seed needs "@ + decimal(
                needed as nat,
            ) + " span tokens, got "@ + decimal(got as nat),
            DraftError::VerifyDim { got, expected } => "EAGLE-3 verify capture has dim "@ + decimal(
                got as nat,
            ) + " but fc expects "@ + decimal(expected as nat),
            DraftError::ReseedOverflow { from, to, rows } => "EAGLE-3 re-seed slice ["@ + decimal(
                from as nat,
            ) + ", "@ + decimal(to as nat) + "] overflows "@ + decimal(rows as nat)
                + " captured rows"@,
            DraftError::NoBoundary => "EAGLE-3 re-seed has no boundary feature"@,
        }
    }

    pub fn message(&self) -> (s: String)
        ensures
            s@ == self.text(),
    {
        match self {
            DraftError::CacheLength { len, limit } => {
                let mut s = String::from_str("EAGLE-3 request cache length ");
                push_size(&mut s, *len);
                s.append(" must be in 1..=");
                push_size(&mut s, *limit);
                s
            },
            DraftError::ContextDim { got, expected } => {
                let mut s = String::from_str("EAGLE-3 context feature dim ");
                push_size(&mut s, *got);
                s.append(" does not match fc input ");
                push_size(&mut s, *expected);
                s
            },
            DraftError::SeedPositions { got } => {
                let mut s = String::from_str("EAGLE-3 seed expects one position, got ");
                push_size(&mut s, *got);
                s
            },
            DraftError::StepOutsideCache { position, cache } => {
                let mut s = String::from_str("EAGLE-3 draft position ");
                push_size(&mut s, *position);
                s.append(" exceeds cache ");
                push_size(&mut s, *cache);
                s
            },
            DraftError::StepOutOfOrder { position, cached } => {
                let mut s = String::from_str("EAGLE-3 draft step expects position ");
                push_size(&mut s, *position);
                s.append(" == cached_len ");
                push_size(&mut s, *cached);
                s
            },
            DraftError::NoTokens => String::from_str("EAGLE-3 prefill needs tokens"),
            DraftError::PrefillFeatures { dim, n, got_dim, got_n } => {
                let mut s = String::from_str("EAGLE-3 batched prefill needs features [");
                push_size(&mut s, *dim);
                s.append(", ");
                push_size(&mut s, *n);
                s.append("], got [");
                push_size(&mut s, *got_dim);
                s.append(", ");
                push_size(&mut s, *got_n);
                s.append("]");
                s
            },
            DraftError::PrefillOutOfOrder { start, cached } => {
                let mut s = String::from_str("EAGLE-3 batched prefill expects start ");
                push_size(&mut s, *start);
                s.append(" == cached_len ");
                push_size(&mut s, *cached);
                s
            },
            DraftError::PrefillOverflow { start, n, cache } => {
                let mut s = String::from_str("EAGLE-3 batched prefill overflows cache: ");
                push_size(&mut s, *start);
                s.append(" + ");
                push_size(&mut s, *n);
                s.append(" > ");
                push_size(&mut s, *cache);
                s
            },
            DraftError::ShortPrompt => String::from_str("EAGLE-3 prefill needs >= 2 prompt tokens"),
            DraftError::UsedState { cached } => {
                let mut s = String::from_str(
                    "EAGLE-3 prefill_prompt expects a fresh state (cached_len ",
                );
                push_size(&mut s, *cached);
                s.append(")");
                s
            },
            DraftError::CaptureDim { got, expected } => {
                let mut s = String::from_str("EAGLE-3 capture features have dim ");
                push_size(&mut s, *got);
                s.append(" but fc expects ");
                push_size(&mut s, *expected);
                s
            },
            DraftError::CaptureOverflow { from, to, rows } => {
                let mut s = String::from_str("EAGLE-3 capture slice [");
                push_size(&mut s, *from);
                s.append(", ");
                push_size(&mut s, *to);
                s.append(") overflows ");
                push_size(&mut s, *rows);
                s.append(" captured rows");
                s
            },
            DraftError::NoDrafts => String::from_str("EAGLE-3 draft chain needs k > 0"),
            DraftError::SeedShape => String::from_str("EAGLE-3 chain seed must be [hidden, 1]"),
            DraftError::OutsideVocab => String::from_str(
                "EAGLE-3 draft id maps outside target vocab",
            ),
            DraftError::NoSeed => String::from_str(
                "EAGLE-3 draft chain has no seed feature (prompt not captured?)",
            ),
            DraftError::ReseedSpan { needed, got } => {
                let mut s = String::from_str("EAGLE-3 re-seed needs ");
                push_size(&mut s, *needed);
                s.append(" span tokens, got ");
                push_size(&mut s, *got);
                s
            },
            DraftError::VerifyDim { got, expected } => {
                let mut s = String::from_str("EAGLE-3 verify capture has dim ");
                push_size(&mut s, *got);
                s.append(" but fc expects ");
                push_size(&mut s, *expected);
                s
            },
            DraftError::ReseedOverflow { from, to, rows } => {
                let mut s = String::from_str("EAGLE-3 re-seed slice [");
                push_size(&mut s, *from);
                s.append(", ");
                push_size(&mut s, *to);
                s.append("] overflows ");
                push_size(&mut s, *rows);
                s.append(" captured rows");
                s
            },
            DraftError::NoBoundary => String::from_str("EAGLE-3 re-seed has no boundary feature"),
        }
    }
}

/// The shape of a device tensor: features by positions.
#[derive(Clone, Copy, Debug, PartialEq, Eq, Structural)]
pub struct TensorShape {
    pub dim: usize,
    pub len: usize,
}

/// Checks one position of target features before it is fused into the residual
/// stream.
pub fn check_seed_context(c: &Eagle3Config, context: TensorShape) -> (r: Result<(), DraftError>)
    ensures
        r == (if context.dim != c.feature_dim {
            Err::<(), DraftError>(
                DraftError::ContextDim { got: context.dim, expected: c.feature_dim },
            )
        } else if context.len != 1 {
            Err(DraftError::SeedPositions { got: context.len })
        } else {
            Ok(())
        }),
{
    if context.dim != c.feature_dim {
        return Err(DraftError::ContextDim { got: context.dim, expected: c.feature_dim });
    }
    if context.len != 1 {
        return Err(DraftError::SeedPositions { got: context.len });
    }
    Ok(())
}

/// Where a draft-vocabulary token lands in the target vocabulary.
pub open spec fn target_of(draft_to_target: Seq<i64>, draft_id: int, vocab_size: int) -> Option<
    u32,
> {
    if !(0 <= draft_id < draft_to_target.len()) {
        None
    } else {
        let target = draft_id + draft_to_target[draft_id];
        if 0 <= target < vocab_size {
            Some(target as u32)
        } else {
            None
        }
    }
}

pub fn draft_to_target_id(draft_to_target: &[i64], draft_id: usize, vocab_size: u32) -> (r: Option<
    u32,
>)
    ensures
        r == target_of(draft_to_target@, draft_id as int, vocab_size as int),
{
    if draft_id >= draft_to_target.len() {
        return None;
    }
    let target: i128 = draft_id as i128 + draft_to_target[draft_id] as i128;
    if 0 <= target && target < vocab_size as i128 {
        Some(target as u32)
    } else {
        None
    }
}

/// What the draft carries for one request between forwards. The feature is a
/// device tensor.
pub struct Eagle3RequestState<F> {
    cached_len: usize,
    max_cache_len: usize,
    seed_feature: Option<F>,
}

/// Why a prefill cannot run.
pub open spec fn prefill_refusal(
    c: Eagle3Config,
    cached: usize,
    cache: usize,
    features: TensorShape,
    n: usize,
    start: usize,
) -> Option<DraftError> {
    if n == 0 {
        Some(DraftError::NoTokens)
    } else if features.dim != c.feature_dim || features.len != n {
        Some(
            DraftError::PrefillFeatures {
                dim: c.feature_dim,
                n,
                got_dim: features.dim,
                got_n: features.len,
            },
        )
    } else if start != cached {
        Some(DraftError::PrefillOutOfOrder { start, cached })
    } else if start + n > cache {
        Some(DraftError::PrefillOverflow { start, n, cache })
    } else {
        None
    }
}

/// Which columns of a capture feed the draft cache, and which one becomes the new
/// boundary.
#[derive(Clone, Copy, Debug, PartialEq, Eq, Structural)]
pub struct CapturePlan {
    /// First captured column to copy.
    pub from: usize,
    /// How many captured columns to copy.
    pub columns: usize,
    /// Where the copied columns start in the feature row.
    pub to: usize,
    /// Length of the feature row.
    pub len: usize,
    /// First token of the row.
    pub first_token: usize,
    /// Cache position of the row.
    pub start: usize,
    /// Captured column that becomes the boundary.
    pub boundary: usize,
}

/// The plan of a prompt: every captured column but the last fills the cache from
/// its start, each beside the token after it, and the last becomes the boundary.
pub open spec fn prompt_plan(token_offset: usize, prompt_len: usize) -> CapturePlan {
    CapturePlan {
        from: token_offset,
        columns: (prompt_len - 1) as usize,
        to: 0,
        len: (prompt_len - 1) as usize,
        first_token: 1,
        start: 0,
        boundary: (token_offset + prompt_len - 1) as usize,
    }
}

/// The plan of a verified span: behind what is cached comes the old boundary, then
/// one column for each matched draft, and the column after those becomes the
/// boundary.
pub open spec fn reseed_plan(cached: usize, token_offset: usize, matched: usize) -> CapturePlan {
    CapturePlan {
        from: token_offset,
        columns: matched,
        to: 1,
        len: (matched + 1) as usize,
        first_token: 0,
        start: cached,
        boundary: (token_offset + matched) as usize,
    }
}

/// Why a prompt's capture cannot be used.
pub open spec fn prompt_refusal(
    c: Eagle3Config,
    cached: usize,
    captured: TensorShape,
    token_offset: usize,
    prompt_len: usize,
) -> Option<DraftError> {
    if prompt_len < 2 {
        Some(DraftError::ShortPrompt)
    } else if cached != 0 {
        Some(DraftError::UsedState { cached })
    } else if captured.dim != c.feature_dim {
        Some(DraftError::CaptureDim { got: captured.dim, expected: c.feature_dim })
    } else if token_offset + prompt_len > captured.len {
        Some(
            DraftError::CaptureOverflow {
                from: token_offset,
                to: (token_offset + prompt_len) as usize,
                rows: captured.len,
            },
        )
    } else {
        None
    }
}

/// Why a verified span cannot extend the cache.
pub open spec fn reseed_refusal(
    c: Eagle3Config,
    has_boundary: bool,
    captured: TensorShape,
    token_offset: usize,
    span_len: usize,
    matched: usize,
) -> Option<DraftError> {
    if matched + 1 > span_len {
        Some(DraftError::ReseedSpan { needed: (matched + 1) as usize, got: span_len })
    } else if captured.dim != c.feature_dim {
        Some(DraftError::VerifyDim { got: captured.dim, expected: c.feature_dim })
    } else if token_offset + matched >= captured.len {
        Some(
            DraftError::ReseedOverflow {
                from: token_offset,
                to: (token_offset + matched) as usize,
                rows: captured.len,
            },
        )
    } else if !has_boundary {
        Some(DraftError::NoBoundary)
    } else {
        None
    }
}

impl<F> Eagle3RequestState<F> {
    pub closed spec fn cached(self) -> usize {
        self.cached_len
    }

    pub closed spec fn capacity(self) -> usize {
        self.max_cache_len
    }

    pub closed spec fn boundary(self) -> Option<F> {
        self.seed_feature
    }

    pub open spec fn well_formed(self) -> bool {
        self.cached() <= self.capacity()
    }

    /// A fresh cache, which has to fit the model's positions.
    pub fn new(c: &Eagle3Config, max_cache_len: usize) -> (r: Result<Self, DraftError>)
        ensures
            if 0 < max_cache_len <= c.max_position_embeddings {
                r matches Ok(state) && state.well_formed() && state.cached() == 0
                    && state.capacity() == max_cache_len && state.boundary() is None
            } else {
                r == Err::<Self, DraftError>(
                    DraftError::CacheLength {
                        len: max_cache_len,
                        limit: c.max_position_embeddings,
                    },
                )
            },
    {
        if max_cache_len > 0 && max_cache_len <= c.max_position_embeddings {
            Ok(Eagle3RequestState { cached_len: 0, max_cache_len, seed_feature: None })
        } else {
            Err(DraftError::CacheLength { len: max_cache_len, limit: c.max_position_embeddings })
        }
    }

    pub fn cached_len(&self) -> (r: usize)
        ensures
            r == self.cached(),
    {
        self.cached_len
    }

    pub fn seed_feature(&self) -> (r: Option<&F>)
        ensures
            match self.boundary() {
                Some(feature) => r == Some(&feature),
                None => r is None,
            },
    {
        match &self.seed_feature {
            Some(feature) => Some(feature),
            None => None,
        }
    }

    /// The operations of one draft step at a position.
    pub fn draft_step(&self, c: &Eagle3Config, position: usize) -> (r: Result<
        Vec<DraftOp>,
        DraftError,
    >)
        requires
            c.well_formed(),
        ensures
            if position >= self.capacity() {
                r == Err::<Vec<DraftOp>, DraftError>(
                    DraftError::StepOutsideCache { position, cache: self.capacity() },
                )
            } else if position != self.cached() {
                r == Err::<Vec<DraftOp>, DraftError>(
                    DraftError::StepOutOfOrder { position, cached: self.cached() },
                )
            } else {
                r matches Ok(ops) && ops@ == step_ops(*c, position)
            },
    {
        if position >= self.max_cache_len {
            return Err(DraftError::StepOutsideCache { position, cache: self.max_cache_len });
        }
        if position != self.cached_len {
            return Err(DraftError::StepOutOfOrder { position, cached: self.cached_len });
        }
        Ok(plan_step_ops(c, position))
    }

    /// Records a draft step that ran.
    pub fn step_done(&mut self)
        requires
            old(self).cached() < old(self).capacity(),
        ensures
            final(self).well_formed(),
            final(self).cached() == old(self).cached() + 1,
            final(self).capacity() == old(self).capacity(),
            final(self).boundary() == old(self).boundary(),
    {
        self.cached_len = self.cached_len + 1;
    }

    /// The operations of a batched prefill.
    pub fn prefill_batched(
        &self,
        c: &Eagle3Config,
        features: TensorShape,
        n: usize,
        start_position: usize,
    ) -> (r: Result<Vec<DraftOp>, DraftError>)
        requires
            c.well_formed(),
            self.well_formed(),
        ensures
            match prefill_refusal(*c, self.cached(), self.capacity(), features, n, start_position) {
                Some(error) => r == Err::<Vec<DraftOp>, DraftError>(error),
                None => r matches Ok(ops) && ops@ == prefill_ops(*c, n, start_position),
            },
    {
        if n == 0 {
            return Err(DraftError::NoTokens);
        }
        if features.dim != c.feature_dim || features.len != n {
            return Err(
                DraftError::PrefillFeatures {
                    dim: c.feature_dim,
                    n,
                    got_dim: features.dim,
                    got_n: features.len,
                },
            );
        }
        if start_position != self.cached_len {
            return Err(
                DraftError::PrefillOutOfOrder { start: start_position, cached: self.cached_len },
            );
        }
        if n > self.max_cache_len - start_position {
            return Err(
                DraftError::PrefillOverflow {
                    start: start_position,
                    n,
                    cache: self.max_cache_len,
                },
            );
        }
        Ok(plan_prefill_ops(c, n, start_position))
    }

    /// Records a batched prefill that ran.
    pub fn prefill_done(&mut self, n: usize)
        requires
            old(self).cached() + n <= old(self).capacity(),
        ensures
            final(self).well_formed(),
            final(self).cached() == old(self).cached() + n,
            final(self).capacity() == old(self).capacity(),
            final(self).boundary() == old(self).boundary(),
    {
        self.cached_len = self.cached_len + n;
    }

    /// Which columns of a prompt's capture feed the cache: each feature goes with
    /// the token after it, so the first token has no row and the last feature
    /// becomes the boundary.
    pub fn prefill_prompt(
        &self,
        c: &Eagle3Config,
        captured: TensorShape,
        token_offset: usize,
        prompt_len: usize,
    ) -> (r: Result<CapturePlan, DraftError>)
        requires
            token_offset + prompt_len <= usize::MAX,
        ensures
            match prompt_refusal(*c, self.cached(), captured, token_offset, prompt_len) {
                Some(error) => r == Err::<CapturePlan, DraftError>(error),
                None => r == Ok::<CapturePlan, DraftError>(prompt_plan(token_offset, prompt_len)),
            },
    {
        if prompt_len < 2 {
            return Err(DraftError::ShortPrompt);
        }
        if self.cached_len != 0 {
            return Err(DraftError::UsedState { cached: self.cached_len });
        }
        if captured.dim != c.feature_dim {
            return Err(DraftError::CaptureDim { got: captured.dim, expected: c.feature_dim });
        }
        if token_offset + prompt_len > captured.len {
            return Err(
                DraftError::CaptureOverflow {
                    from: token_offset,
                    to: token_offset + prompt_len,
                    rows: captured.len,
                },
            );
        }
        Ok(
            CapturePlan {
                from: token_offset,
                columns: prompt_len - 1,
                to: 0,
                len: prompt_len - 1,
                first_token: 1,
                start: 0,
                boundary: token_offset + prompt_len - 1,
            },
        )
    }

    /// Which columns of a verify's capture extend the cache: the old boundary goes
    /// with the round's own token, each matched feature with the token after it,
    /// and the feature at the last committed position becomes the boundary.
    pub fn reseed_after_verify(
        &self,
        c: &Eagle3Config,
        captured: TensorShape,
        token_offset: usize,
        span_len: usize,
        matched_draft_tokens: usize,
    ) -> (r: Result<CapturePlan, DraftError>)
        requires
            matched_draft_tokens < usize::MAX,
            token_offset + matched_draft_tokens <= usize::MAX,
        ensures
            match reseed_refusal(
                *c,
                self.boundary() is Some,
                captured,
                token_offset,
                span_len,
                matched_draft_tokens,
            ) {
                Some(error) => r == Err::<CapturePlan, DraftError>(error),
                None => r == Ok::<CapturePlan, DraftError>(
                    reseed_plan(self.cached(), token_offset, matched_draft_tokens),
                ),
            },
    {
        let len: usize = matched_draft_tokens + 1;
        if len > span_len {
            return Err(DraftError::ReseedSpan { needed: len, got: span_len });
        }
        if captured.dim != c.feature_dim {
            return Err(DraftError::VerifyDim { got: captured.dim, expected: c.feature_dim });
        }
        if token_offset + matched_draft_tokens >= captured.len {
            return Err(
                DraftError::ReseedOverflow {
                    from: token_offset,
                    to: token_offset + matched_draft_tokens,
                    rows: captured.len,
                },
            );
        }
        if self.seed_feature.is_none() {
            return Err(DraftError::NoBoundary);
        }
        Ok(
            CapturePlan {
                from: token_offset,
                columns: matched_draft_tokens,
                to: 1,
                len,
                first_token: 0,
                start: self.cached_len,
                boundary: token_offset + matched_draft_tokens,
            },
        )
    }

    /// Keeps a new boundary feature.
    pub fn set_seed_feature(&mut self, feature: F)
        ensures
            final(self).cached() == old(self).cached(),
            final(self).capacity() == old(self).capacity(),
            final(self).boundary() == Some(feature),
    {
        self.seed_feature = Some(feature);
    }

    /// Starts a round of `k` drafts after the current token.
    pub fn chain_round(&self, current_token: u32, k: usize) -> (r: Result<DraftChain, DraftError>)
        ensures
            if self.boundary() is None {
                r == Err::<DraftChain, DraftError>(DraftError::NoSeed)
            } else if k == 0 {
                r == Err::<DraftChain, DraftError>(DraftError::NoDrafts)
            } else {
                r matches Ok(chain) && chain.goal() == k && chain.start_spec() == self.cached()
                    && chain.token() == current_token && chain.drafted().len() == 0
            },
    {
        if self.seed_feature.is_none() {
            return Err(DraftError::NoSeed);
        }
        if k == 0 {
            return Err(DraftError::NoDrafts);
        }
        Ok(DraftChain { k, start: self.cached_len, token: current_token, span: Vec::new() })
    }

    /// Ends a round. What the chain wrote to the cache was speculation and is
    /// dropped; the accepted part is rebuilt from the verify's features.
    pub fn rewind(&mut self, chain: DraftChain) -> (span: Vec<u32>)
        requires
            chain.start_spec() <= old(self).capacity(),
        ensures
            final(self).well_formed(),
            final(self).cached() == chain.start_spec(),
            final(self).capacity() == old(self).capacity(),
            final(self).boundary() == old(self).boundary(),
            span@ == chain.drafted(),
    {
        self.cached_len = chain.start;
        chain.span
    }
}

/// Checks the seed of a draft chain.
pub fn check_chain_seed(c: &Eagle3Config, seed: TensorShape, k: usize) -> (r: Result<
    (),
    DraftError,
>)
    ensures
        r == (if k == 0 {
            Err::<(), DraftError>(DraftError::NoDrafts)
        } else if seed.dim != c.hidden_size || seed.len != 1 {
            Err(DraftError::SeedShape)
        } else {
            Ok(())
        }),
{
    if k == 0 {
        return Err(DraftError::NoDrafts);
    }
    if seed.dim != c.hidden_size || seed.len != 1 {
        return Err(DraftError::SeedShape);
    }
    Ok(())
}

/// A chain of drafts: each step's greedy choice feeds the next step.
pub struct DraftChain {
    k: usize,
    start: usize,
    token: u32,
    span: Vec<u32>,
}

/// What a chain needs next.
#[derive(Clone, Copy, Debug, PartialEq, Eq, Structural)]
pub enum ChainStep {
    Done,
    /// Run a draft step on this token at this position.
    Draft { token: u32, position: usize },
}

impl DraftChain {
    pub closed spec fn goal(self) -> usize {
        self.k
    }

    pub closed spec fn start_spec(self) -> usize {
        self.start
    }

    pub closed spec fn token(self) -> u32 {
        self.token
    }

    pub closed spec fn drafted(self) -> Seq<u32> {
        self.span@
    }

    pub fn next_step(&self) -> (r: ChainStep)
        requires
            self.start_spec() + self.drafted().len() <= usize::MAX,
        ensures
            r == (if self.drafted().len() < self.goal() {
                ChainStep::Draft {
                    token: self.token(),
                    position: (self.start_spec() + self.drafted().len()) as usize,
                }
            } else {
                ChainStep::Done
            }),
    {
        if self.span.len() < self.k {
            ChainStep::Draft { token: self.token, position: self.start + self.span.len() }
        } else {
            ChainStep::Done
        }
    }

    /// Takes the logits of a step: the greatest one, the last where several are,
    /// names the draft, which becomes the next token. Logits are bit patterns.
    pub fn accept(&mut self, logits: &[u32], draft_to_target: &[i64], vocab_size: u32) -> (r: Result<
        (),
        DraftError,
    >)
        requires
            logits@.len() > 0,
        ensures
            final(self).goal() == old(self).goal(),
            final(self).start_spec() == old(self).start_spec(),
            match target_of(draft_to_target@, last_best(logits@), vocab_size as int) {
                Some(target) => {
                    &&& r is Ok
                    &&& final(self).token() == target
                    &&& final(self).drafted() == old(self).drafted().push(target)
                },
                None => {
                    &&& r == Err::<(), DraftError>(DraftError::OutsideVocab)
                    &&& final(self).token() == old(self).token()
                    &&& final(self).drafted() == old(self).drafted()
                },
            },
    {
        let draft_id: usize = argmax_bits(logits);
        match draft_to_target_id(draft_to_target, draft_id, vocab_size) {
            Some(target) => {
                self.span.push(target);
                self.token = target;
                Ok(())
            },
            None => Err(DraftError::OutsideVocab),
        }
    }
}

/// Tokens committed by a run of verified rounds, each a place in the capture and
/// its matched drafts: those drafts and one token more.
pub open spec fn committed(rounds: Seq<(usize, usize)>) -> nat
    decreases rounds.len(),
{
    if rounds.len() == 0 {
        0
    } else {
        committed(rounds.drop_last()) + rounds.last().1 as nat + 1
    }
}

/// The plan of the last forward over a prompt and a run of verified rounds.
pub open spec fn last_plan(
    token_offset: usize,
    prompt_len: usize,
    rounds: Seq<(usize, usize)>,
) -> CapturePlan
    decreases rounds.len(),
{
    if rounds.len() == 0 {
        prompt_plan(token_offset, prompt_len)
    } else {
        let before = last_plan(token_offset, prompt_len, rounds.drop_last());
        reseed_plan((before.start + before.len) as usize, rounds.last().0, rounds.last().1)
    }
}

/// The draft cache stays exactly one position behind the committed tokens: that
/// position is the boundary's, whose token is the next one to be drafted from.
pub proof fn lemma_cache_trails_by_the_boundary(
    token_offset: usize,
    prompt_len: usize,
    rounds: Seq<(usize, usize)>,
)
    requires
        prompt_len >= 2,
        prompt_len + committed(rounds) <= usize::MAX,
    ensures
        ({
            let plan = last_plan(token_offset, prompt_len, rounds);
            plan.start + plan.len + 1 == prompt_len + committed(rounds)
        }),
    decreases rounds.len(),
{
    if rounds.len() > 0 {
        lemma_cache_trails_by_the_boundary(token_offset, prompt_len, rounds.drop_last());
    }
}

/// A captured column: which forward captured it, the prompt's or a round's, and which of
/// its columns it is.
pub struct Captured {
    pub forward: nat,
    pub column: int,
}

/// Where the feature of a committed position was captured: the prompt's positions come
/// from its capture in order, and each round's from the round's own.
pub open spec fn feature_at(
    token_offset: usize,
    prompt_len: usize,
    rounds: Seq<(usize, usize)>,
    position: int,
) -> Captured
    decreases rounds.len(),
{
    let first = prompt_len + committed(rounds.drop_last());
    if rounds.len() == 0 {
        Captured { forward: 0, column: token_offset + position }
    } else if position >= first {
        Captured { forward: rounds.len(), column: rounds.last().0 + (position - first) }
    } else {
        feature_at(token_offset, prompt_len, rounds.drop_last(), position)
    }
}

/// The features of a row: what waited at its front, then the copied columns.
pub open spec fn row_of(plan: CapturePlan, forward: nat, waiting: Captured) -> Seq<Captured> {
    Seq::new(
        plan.len as nat,
        |t: int|
            if t < plan.to {
                waiting
            } else if t < plan.to + plan.columns {
                Captured { forward, column: plan.from + (t - plan.to) }
            } else {
                Captured { forward, column: -1 }
            },
    )
}

/// What the cache holds after a prompt and a run of verified rounds, position by position,
/// as the plans of the forwards fill it.
pub open spec fn cache_after(
    token_offset: usize,
    prompt_len: usize,
    rounds: Seq<(usize, usize)>,
) -> Seq<Captured>
    decreases rounds.len(),
{
    let plan = last_plan(token_offset, prompt_len, rounds);
    if rounds.len() == 0 {
        row_of(plan, 0, Captured { forward: 0, column: -1 })
    } else {
        let before = cache_after(token_offset, prompt_len, rounds.drop_last());
        before.take(plan.start as int) + row_of(
            plan,
            rounds.len(),
            boundary_after(token_offset, prompt_len, rounds.drop_last()),
        )
    }
}

/// The boundary after a prompt and a run of verified rounds.
pub open spec fn boundary_after(
    token_offset: usize,
    prompt_len: usize,
    rounds: Seq<(usize, usize)>,
) -> Captured {
    Captured {
        forward: rounds.len(),
        column: last_plan(token_offset, prompt_len, rounds).boundary as int,
    }
}

/// Over a run of rounds the feature of every committed position enters the cache exactly
/// once and in order: position by position the cache holds the features of all committed
/// positions but the last, and the boundary is the last one's.
pub proof fn lemma_features_enter_once_and_in_order(
    token_offset: usize,
    prompt_len: usize,
    rounds: Seq<(usize, usize)>,
)
    requires
        prompt_len >= 2,
        token_offset + prompt_len <= usize::MAX,
        prompt_len + committed(rounds) <= usize::MAX,
        forall|i: int|
            0 <= i < rounds.len() ==> (#[trigger] rounds[i]).0 + rounds[i].1 <= usize::MAX,
    ensures
        ({
            let cache = cache_after(token_offset, prompt_len, rounds);
            &&& cache.len() + 1 == prompt_len + committed(rounds)
            &&& forall|p: int|
                0 <= p < cache.len() ==> #[trigger] cache[p] == feature_at(
                    token_offset,
                    prompt_len,
                    rounds,
                    p,
                )
            &&& boundary_after(token_offset, prompt_len, rounds) == feature_at(
                token_offset,
                prompt_len,
                rounds,
                cache.len() as int,
            )
        }),
    decreases rounds.len(),
{
    if rounds.len() > 0 {
        let head = rounds.drop_last();
        assert forall|i: int| 0 <= i < head.len() implies (#[trigger] head[i]).0 + head[i].1
            <= usize::MAX by {
            assert(head[i] == rounds[i]);
        }
        assert(rounds[rounds.len() - 1].0 + rounds[rounds.len() - 1].1 <= usize::MAX);
        lemma_features_enter_once_and_in_order(token_offset, prompt_len, head);
        lemma_cache_trails_by_the_boundary(token_offset, prompt_len, head);
        let plan = last_plan(token_offset, prompt_len, rounds);
        let before = cache_after(token_offset, prompt_len, head);
        assert(plan.start == before.len());
        assert(before.take(plan.start as int) =~= before);
        let cache = cache_after(token_offset, prompt_len, rounds);
        assert forall|p: int| 0 <= p < cache.len() implies #[trigger] cache[p] == feature_at(
            token_offset,
            prompt_len,
            rounds,
            p,
        ) by {
            if p < before.len() {
                assert(cache[p] == before[p]);
            }
        }
    }
}

/// The boundary is the captured column directly after those copied into the cache, which
/// fill the row behind what waited, and the row goes where the cache ends. An accepted
/// plan reads only columns that were captured.
pub proof fn lemma_verified_span_plan<F>(
    state: Eagle3RequestState<F>,
    c: Eagle3Config,
    captured: TensorShape,
    token_offset: usize,
    span_len: usize,
    matched: usize,
    plan: CapturePlan,
)
    requires
        call_ensures(
            Eagle3RequestState::<F>::reseed_after_verify,
            (&state, &c, captured, token_offset, span_len, matched),
            Ok::<CapturePlan, DraftError>(plan),
        ),
        matched < usize::MAX,
    ensures
        plan.from == token_offset,
        plan.columns == matched,
        plan.boundary == plan.from + plan.columns,
        plan.boundary < captured.len,
        plan.to == 1,
        plan.len == plan.to + plan.columns,
        plan.start == state.cached(),
        plan.first_token + plan.len <= span_len,
        captured.dim == c.feature_dim,
        state.boundary() is Some,
{
}

/// The plan of a prompt copies every captured column of it but the last, which becomes the
/// boundary, from the start of an empty cache. Each feature goes with the token after it.
pub proof fn lemma_prompt_plan<F>(
    state: Eagle3RequestState<F>,
    c: Eagle3Config,
    captured: TensorShape,
    token_offset: usize,
    prompt_len: usize,
    plan: CapturePlan,
)
    requires
        call_ensures(
            Eagle3RequestState::<F>::prefill_prompt,
            (&state, &c, captured, token_offset, prompt_len),
            Ok::<CapturePlan, DraftError>(plan),
        ),
    ensures
        plan.from == token_offset,
        plan.boundary == plan.from + plan.columns,
        plan.columns + 1 == prompt_len,
        plan.boundary < captured.len,
        plan.to == 0,
        plan.len == plan.columns,
        plan.start == 0,
        state.cached() == 0,
        plan.first_token == plan.start + 1,
        plan.first_token + plan.len == prompt_len,
{
}

/// A prompt's capture is usable exactly when there are two or more tokens, nothing is
/// cached, and the capture holds all of them in the model's feature width.
pub proof fn lemma_prompt_verdict(
    c: Eagle3Config,
    cached: usize,
    captured: TensorShape,
    token_offset: usize,
    prompt_len: usize,
)
    ensures
        prompt_refusal(c, cached, captured, token_offset, prompt_len) is None <==> prompt_len >= 2
            && cached == 0 && captured.dim == c.feature_dim && token_offset + prompt_len
            <= captured.len,
{
}

/// A verified span extends the cache exactly when it has a token for every matched draft
/// and one more, the capture reaches the last of them in the model's feature width, and a
/// boundary waits.
pub proof fn lemma_reseed_verdict(
    c: Eagle3Config,
    has_boundary: bool,
    captured: TensorShape,
    token_offset: usize,
    span_len: usize,
    matched: usize,
)
    ensures
        reseed_refusal(c, has_boundary, captured, token_offset, span_len, matched) is None <==> {
            &&& matched < span_len
            &&& captured.dim == c.feature_dim
            &&& token_offset + matched < captured.len
            &&& has_boundary
        },
{
}

/// A prefill runs exactly when it has tokens, one feature for each of the model's width,
/// and the cache, which it continues, has room for all of them: to the last position.
pub proof fn lemma_prefill_verdict(
    c: Eagle3Config,
    cached: usize,
    cache: usize,
    features: TensorShape,
    n: usize,
    start: usize,
)
    ensures
        prefill_refusal(c, cached, cache, features, n, start) is None <==> n > 0 && features.dim
            == c.feature_dim && features.len == n && start == cached && cached + n <= cache,
{
}

/// A draft token stands for a target token exactly when the map has it and its offset
/// leads into the target vocabulary. Two draft tokens that keep their distance from their
/// offsets stand for different targets.
pub proof fn lemma_target_verdict(draft_to_target: Seq<i64>, draft: int, vocab_size: u32, t: u32)
    ensures
        target_of(draft_to_target, draft, vocab_size as int) == Some(t) <==> 0 <= draft
            < draft_to_target.len() && draft + draft_to_target[draft] == t && t < vocab_size,
        target_of(draft_to_target, draft, vocab_size as int) is None <==> !(0 <= draft
            < draft_to_target.len() && 0 <= draft + draft_to_target[draft] < vocab_size),
{
}

/// A round of `k` drafts asks for exactly `k` steps, each at the position after the last,
/// from the end of the cache on.
pub proof fn lemma_round_runs_k_steps<F>(
    state: Eagle3RequestState<F>,
    current_token: u32,
    k: usize,
    begun: DraftChain,
    later: DraftChain,
    step: ChainStep,
)
    requires
        call_ensures(
            Eagle3RequestState::<F>::chain_round,
            (&state, current_token, k),
            Ok::<DraftChain, DraftError>(begun),
        ),
        later.goal() == begun.goal(),
        later.start_spec() == begun.start_spec(),
        later.start_spec() + later.drafted().len() <= usize::MAX,
        call_ensures(DraftChain::next_step, (&later,), step),
    ensures
        k > 0,
        begun.drafted().len() == 0,
        step is Done <==> later.drafted().len() >= k,
        step matches ChainStep::Draft { position, .. } ==> position == state.cached()
            + later.drafted().len(),
        later == begun ==> step == (ChainStep::Draft {
            token: current_token,
            position: state.cached(),
        }),
{
}

} // verus!
