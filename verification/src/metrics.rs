//! What the scheduler republishes about itself: live KV occupancy, queue
//! depths, and, when a draft model is loaded, cumulative speculative-decode
//! acceptance counters.
use vstd::prelude::*;
use vstd::string::*;
use crate::text::push_size;

verus! {

/// Upper bound on a drafter's `K`, fixing the width of
/// [`SpecDecodeCounters::num_accepted_tokens_per_pos`].
pub const MAX_SPEC_TOKENS: usize = 32;

/// A drafter proposes more tokens per verify step than the counters can hold.
#[derive(Clone, Copy, Debug, PartialEq, Eq, Structural)]
pub struct SpecWidthUnsupported {
    pub num_spec_tokens: usize,
}

impl SpecWidthUnsupported {
    /// The text shown to the operator.
    pub open spec fn text(self) -> Seq<char> {
        "draft checkpoint proposes K="@ + crate::text::decimal(self.num_spec_tokens as nat)
            + " tokens per verify step, above the MAX_SPEC_TOKENS="@ + crate::text::decimal(
            MAX_SPEC_TOKENS as nat,
        ) + " the acceptance metrics support"@
    }

    pub fn message(&self) -> (s: String)
        ensures
            s@ == self.text(),
    {
        let mut s = String::from_str("draft checkpoint proposes K=");
        push_size(&mut s, self.num_spec_tokens);
        s.append(" tokens per verify step, above the MAX_SPEC_TOKENS=");
        push_size(&mut s, MAX_SPEC_TOKENS);
        s.append(" the acceptance metrics support");
        s
    }
}

/// Cumulative speculative-decode acceptance counters, monotone since the draft
/// model was loaded. Totals rather than per-step deltas, because the
/// [`LoadSnapshot`] watch only keeps the newest value: a reader that misses a
/// step would lose that delta for good, but it can still read totals correctly.
#[derive(Clone, Copy, Debug, PartialEq, Eq)]
pub struct SpecDecodeCounters {
    /// The drafter's configured `K`, and the number of leading
    /// [`Self::num_accepted_tokens_per_pos`] entries that carry meaning.
    pub num_spec_tokens: u64,
    /// Draft proposals: one per request per verify step.
    pub num_drafts: u64,
    /// Draft tokens proposed for verification (pre-acceptance) in total.
    pub num_draft_tokens: u64,
    /// Draft tokens accepted in total, excluding the bonus token.
    pub num_accepted_tokens: u64,
    /// `[i]` is how often the `i`-th draft position was accepted. Only
    /// `[..num_spec_tokens]` is meaningful; the tail stays zero.
    pub num_accepted_tokens_per_pos: [u64; MAX_SPEC_TOKENS],
}

impl Default for SpecDecodeCounters {
    fn default() -> (r: Self)
        ensures
            r.well_formed(),
            r.zeroed(),
            r.num_spec_tokens == 0,
    {
        SpecDecodeCounters {
            num_spec_tokens: 0,
            num_drafts: 0,
            num_draft_tokens: 0,
            num_accepted_tokens: 0,
            num_accepted_tokens_per_pos: [0;MAX_SPEC_TOKENS],
        }
    }
}

impl SpecDecodeCounters {
    /// Nothing has been drafted yet.
    pub open spec fn zeroed(self) -> bool {
        &&& self.num_drafts == 0
        &&& self.num_draft_tokens == 0
        &&& self.num_accepted_tokens == 0
        &&& forall|i: int|
            0 <= i < MAX_SPEC_TOKENS ==> #[trigger] self.num_accepted_tokens_per_pos@[i] == 0
    }

    /// How many leading positions one verify outcome credits.
    pub open spec fn tallied(self, num_accepted: nat) -> nat {
        if num_accepted < self.num_spec_tokens {
            num_accepted
        } else {
            self.num_spec_tokens as nat
        }
    }

    /// None of the totals overflows when this outcome is folded in.
    pub open spec fn has_room(self, num_draft_tokens: nat, num_accepted: nat) -> bool {
        &&& self.num_drafts < u64::MAX
        &&& self.num_draft_tokens + num_draft_tokens <= u64::MAX
        &&& self.num_accepted_tokens + num_accepted <= u64::MAX
        &&& forall|i: int|
            0 <= i < MAX_SPEC_TOKENS && i < self.tallied(num_accepted)
                ==> (#[trigger] self.num_accepted_tokens_per_pos@[i]) < u64::MAX
    }

    /// The counters after folding in one outcome.
    pub open spec fn observed(
        self,
        post: SpecDecodeCounters,
        num_draft_tokens: nat,
        num_accepted: nat,
    ) -> bool {
        &&& post.num_spec_tokens == self.num_spec_tokens
        &&& post.num_drafts == self.num_drafts + 1
        &&& post.num_draft_tokens == self.num_draft_tokens + num_draft_tokens
        &&& post.num_accepted_tokens == self.num_accepted_tokens + num_accepted
        &&& forall|i: int|
            #![trigger post.num_accepted_tokens_per_pos@[i]]
            0 <= i < MAX_SPEC_TOKENS ==> post.num_accepted_tokens_per_pos@[i]
                == self.num_accepted_tokens_per_pos@[i] + (if i < self.tallied(num_accepted) {
                1int
            } else {
                0int
            })
    }

    /// The histogram never rises along the positions, no position was credited
    /// more often than there were drafts, and the tail past `K` is zero.
    pub open spec fn well_formed(self) -> bool {
        let pos = self.num_accepted_tokens_per_pos@;
        &&& self.num_spec_tokens <= MAX_SPEC_TOKENS
        &&& forall|i: int|
            0 <= i < MAX_SPEC_TOKENS ==> (#[trigger] pos[i]) <= self.num_drafts
        &&& forall|i: int, j: int|
            0 <= i <= j < MAX_SPEC_TOKENS ==> (#[trigger] pos[i]) >= (#[trigger] pos[j])
        &&& forall|i: int|
            self.num_spec_tokens <= i < MAX_SPEC_TOKENS ==> (#[trigger] pos[i]) == 0
    }

    pub fn new(num_spec_tokens: usize) -> (r: Result<Self, SpecWidthUnsupported>)
        ensures
            num_spec_tokens > MAX_SPEC_TOKENS <==> r is Err,
            r matches Err(e) ==> e.num_spec_tokens == num_spec_tokens,
            r matches Ok(c) ==> {
                &&& c.well_formed()
                &&& c.num_spec_tokens == num_spec_tokens
                &&& c.zeroed()
            },
    {
        if num_spec_tokens > MAX_SPEC_TOKENS {
            return Err(SpecWidthUnsupported { num_spec_tokens });
        }
        Ok(
            SpecDecodeCounters {
                num_spec_tokens: num_spec_tokens as u64,
                num_drafts: 0,
                num_draft_tokens: 0,
                num_accepted_tokens: 0,
                num_accepted_tokens_per_pos: [0;MAX_SPEC_TOKENS],
            },
        )
    }

    /// Fold one request's verify outcome into the totals.
    pub fn observe_draft(&mut self, num_draft_tokens: usize, num_accepted: usize)
        requires
            old(self).has_room(num_draft_tokens as nat, num_accepted as nat),
        ensures
            old(self).observed(*final(self), num_draft_tokens as nat, num_accepted as nat),
    {
        self.num_drafts = self.num_drafts + 1;
        self.num_draft_tokens = self.num_draft_tokens + num_draft_tokens as u64;
        self.num_accepted_tokens = self.num_accepted_tokens + num_accepted as u64;
        let tallied: u64 = if (num_accepted as u64) < self.num_spec_tokens {
            num_accepted as u64
        } else {
            self.num_spec_tokens
        };
        let mut slot: usize = 0;
        while slot < MAX_SPEC_TOKENS && (slot as u64) < tallied
            invariant
                slot <= MAX_SPEC_TOKENS,
                slot <= tallied,
                tallied == old(self).tallied(num_accepted as nat),
                old(self).has_room(num_draft_tokens as nat, num_accepted as nat),
                self.num_spec_tokens == old(self).num_spec_tokens,
                self.num_drafts == old(self).num_drafts + 1,
                self.num_draft_tokens == old(self).num_draft_tokens + num_draft_tokens,
                self.num_accepted_tokens == old(self).num_accepted_tokens + num_accepted,
                forall|i: int|
                    #![trigger self.num_accepted_tokens_per_pos@[i]]
                    0 <= i < MAX_SPEC_TOKENS ==> self.num_accepted_tokens_per_pos@[i] == old(
                        self,
                    ).num_accepted_tokens_per_pos@[i] + (if i < slot {
                        1int
                    } else {
                        0int
                    }),
            decreases MAX_SPEC_TOKENS - slot,
        {
            let bumped: u64 = self.num_accepted_tokens_per_pos[slot] + 1;
            self.num_accepted_tokens_per_pos[slot] = bumped;
            slot = slot + 1;
        }
    }
}

/// Acceptance is prefix-shaped, so the per-position histogram never rises; folding
/// in an outcome keeps that, and with it the bound by the number of drafts and the
/// zero tail.
pub proof fn lemma_observing_keeps_histogram_falling(
    pre: SpecDecodeCounters,
    post: SpecDecodeCounters,
    num_draft_tokens: nat,
    num_accepted: nat,
)
    requires
        pre.well_formed(),
        pre.observed(post, num_draft_tokens, num_accepted),
    ensures
        post.well_formed(),
{
    let before = pre.num_accepted_tokens_per_pos@;
    let after = post.num_accepted_tokens_per_pos@;
    assert forall|i: int, j: int| 0 <= i <= j < MAX_SPEC_TOKENS implies (#[trigger] after[i]) >= (
    #[trigger] after[j]) by {
        assert(before[i] >= before[j]);
    }
    assert forall|i: int| 0 <= i < MAX_SPEC_TOKENS implies (#[trigger] after[i])
        <= post.num_drafts by {
        assert(before[i] <= pre.num_drafts);
    }
    assert forall|i: int| post.num_spec_tokens <= i < MAX_SPEC_TOKENS implies (#[trigger] after[i])
        == 0 by {
        assert(before[i] == 0);
    }
}

/// The `i`-th counters become the next ones by folding in one outcome.
pub open spec fn one_outcome_apart(chain: Seq<SpecDecodeCounters>, i: int) -> bool {
    exists|drafted: nat, accepted: nat|
        #[trigger] chain[i].observed(chain[i + 1], drafted, accepted)
}

/// `chain` is a run of counters, each one outcome after the other.
pub open spec fn observation_chain(chain: Seq<SpecDecodeCounters>) -> bool {
    &&& chain.len() > 0
    &&& forall|i: int| 0 <= i < chain.len() - 1 ==> #[trigger] one_outcome_apart(chain, i)
}

/// Every counter moves only when an outcome is folded in: an interval without a
/// draft moved nothing, so dropping its delta loses nothing.
pub proof fn lemma_no_draft_means_nothing_moved(chain: Seq<SpecDecodeCounters>)
    requires
        observation_chain(chain),
    ensures
        chain.last().num_drafts == chain[0].num_drafts + chain.len() - 1,
        chain.last().num_drafts == chain[0].num_drafts ==> chain.last() == chain[0],
    decreases chain.len(),
{
    if chain.len() > 1 {
        let head = chain.drop_last();
        assert forall|i: int| 0 <= i < head.len() - 1 implies #[trigger] one_outcome_apart(
            head,
            i,
        ) by {
            assert(one_outcome_apart(chain, i));
            assert(head[i] == chain[i] && head[i + 1] == chain[i + 1]);
        }
        lemma_no_draft_means_nothing_moved(head);
        let n = chain.len() - 2;
        assert(head.last() == chain[n]);
        assert(one_outcome_apart(chain, n));
        let (drafted, accepted) = choose|drafted: nat, accepted: nat|
            #[trigger] chain[n].observed(chain[n + 1], drafted, accepted);
        assert(chain[n].observed(chain[n + 1], drafted, accepted));
    }
}

/// The credits of the first `n` positions, added up.
pub open spec fn credits(per_pos: Seq<u64>, n: nat) -> nat
    decreases n,
{
    if n == 0 {
        0
    } else {
        credits(per_pos, (n - 1) as nat) + per_pos[n - 1] as nat
    }
}

/// The `i`-th counters become the next ones by an outcome that accepts no more tokens
/// than the draft width.
pub open spec fn within_width(chain: Seq<SpecDecodeCounters>, i: int) -> bool {
    exists|drafted: nat, accepted: nat|
        #[trigger] chain[i].observed(chain[i + 1], drafted, accepted) && accepted
            <= chain[i].num_spec_tokens
}

proof fn lemma_credits_grow(
    pre: SpecDecodeCounters,
    post: SpecDecodeCounters,
    num_draft_tokens: nat,
    num_accepted: nat,
    n: nat,
)
    requires
        pre.observed(post, num_draft_tokens, num_accepted),
        n <= MAX_SPEC_TOKENS,
    ensures
        credits(post.num_accepted_tokens_per_pos@, n) == credits(
            pre.num_accepted_tokens_per_pos@,
            n,
        ) + (if n < pre.tallied(num_accepted) {
            n
        } else {
            pre.tallied(num_accepted)
        }),
    decreases n,
{
    if n > 0 {
        lemma_credits_grow(pre, post, num_draft_tokens, num_accepted, (n - 1) as nat);
        assert(post.num_accepted_tokens_per_pos@[n - 1] >= 0);
    }
}

proof fn lemma_no_credits(per_pos: Seq<u64>, n: nat)
    requires
        forall|i: int| 0 <= i < n ==> #[trigger] per_pos[i] == 0,
    ensures
        credits(per_pos, n) == 0,
    decreases n,
{
    if n > 0 {
        lemma_no_credits(per_pos, (n - 1) as nat);
    }
}

/// From fresh counters on, the credits of all positions add up to the accepted tokens
/// as long as no outcome accepts more than the draft width, and never to more.
pub proof fn lemma_positions_add_up(chain: Seq<SpecDecodeCounters>)
    requires
        observation_chain(chain),
        chain[0].zeroed(),
        chain[0].num_spec_tokens <= MAX_SPEC_TOKENS,
    ensures
        credits(chain.last().num_accepted_tokens_per_pos@, MAX_SPEC_TOKENS as nat)
            <= chain.last().num_accepted_tokens,
        (forall|i: int| 0 <= i < chain.len() - 1 ==> #[trigger] within_width(chain, i)) ==> credits(
            chain.last().num_accepted_tokens_per_pos@,
            MAX_SPEC_TOKENS as nat,
        ) == chain.last().num_accepted_tokens,
        chain.last().num_spec_tokens == chain[0].num_spec_tokens,
    decreases chain.len(),
{
    let all = MAX_SPEC_TOKENS as nat;
    if chain.len() == 1 {
        lemma_no_credits(chain[0].num_accepted_tokens_per_pos@, all);
    } else {
        let head = chain.drop_last();
        let n = chain.len() - 2;
        assert forall|i: int| 0 <= i < head.len() - 1 implies #[trigger] one_outcome_apart(
            head,
            i,
        ) by {
            assert(one_outcome_apart(chain, i));
            assert(head[i] == chain[i] && head[i + 1] == chain[i + 1]);
        }
        lemma_positions_add_up(head);
        assert(head.last() == chain[n] && head[0] == chain[0]);
        assert(one_outcome_apart(chain, n));
        let (drafted, accepted) = choose|drafted: nat, accepted: nat|
            #[trigger] chain[n].observed(chain[n + 1], drafted, accepted);
        lemma_credits_grow(chain[n], chain[n + 1], drafted, accepted, all);
        if forall|i: int| 0 <= i < chain.len() - 1 ==> #[trigger] within_width(chain, i) {
            assert forall|i: int| 0 <= i < head.len() - 1 implies #[trigger] within_width(
                head,
                i,
            ) by {
                assert(within_width(chain, i));
                assert(head[i] == chain[i] && head[i + 1] == chain[i + 1]);
            }
            assert(within_width(chain, n));
            let (d, a) = choose|d: nat, a: nat|
                #[trigger] chain[n].observed(chain[n + 1], d, a) && a <= chain[n].num_spec_tokens;
            assert(a == accepted);
        }
    }
}

/// Live KV-cache occupancy the scheduler republishes after every step.
///
/// `kv_used_blocks` is the load signal an out-of-band consumer scores against;
/// `kv_total_blocks` is the engine's whole-pool capacity, so the consumer can
/// derive fractional usage without a second query.
#[derive(Clone, Copy, Debug, PartialEq, Eq)]
pub struct LoadSnapshot {
    pub kv_used_blocks: u64,
    pub kv_total_blocks: u64,
    /// Requests currently occupying a decode/prefill slot.
    pub num_running_reqs: u64,
    /// Requests admitted but not yet running (KV pressure, prefetch wait).
    pub num_waiting_reqs: u64,
    /// Cumulative spec-decode counters, or `None` when no draft model is loaded.
    pub spec_decode: Option<SpecDecodeCounters>,
}

impl Default for LoadSnapshot {
    fn default() -> (r: Self)
        ensures
            r.kv_used_blocks == 0,
            r.kv_total_blocks == 0,
            r.num_running_reqs == 0,
            r.num_waiting_reqs == 0,
            r.spec_decode is None,
    {
        LoadSnapshot {
            kv_used_blocks: 0,
            kv_total_blocks: 0,
            num_running_reqs: 0,
            num_waiting_reqs: 0,
            spec_decode: None,
        }
    }
}

/// An outcome credits exactly the accepted positions within the draft width: each of them
/// once, and no other.
pub proof fn lemma_accepted_positions_are_credited(
    pre: SpecDecodeCounters,
    post: SpecDecodeCounters,
    num_draft_tokens: nat,
    num_accepted: nat,
    i: int,
)
    requires
        pre.observed(post, num_draft_tokens, num_accepted),
        0 <= i < MAX_SPEC_TOKENS,
    ensures
        post.num_accepted_tokens_per_pos@[i] - pre.num_accepted_tokens_per_pos@[i] == (if i
            < num_accepted && i < pre.num_spec_tokens {
            1int
        } else {
            0int
        }),
        post.num_drafts - pre.num_drafts == 1,
        post.num_draft_tokens - pre.num_draft_tokens == num_draft_tokens,
        post.num_accepted_tokens - pre.num_accepted_tokens == num_accepted,
        post.num_spec_tokens == pre.num_spec_tokens,
{
    assert(post.num_accepted_tokens_per_pos@[i] >= 0);
}

/// Fresh counters have counted nothing, in total or at any position.
pub proof fn lemma_fresh_counters_are_zero(counters: SpecDecodeCounters, i: int)
    requires
        counters.zeroed(),
        0 <= i < MAX_SPEC_TOKENS,
    ensures
        counters.num_drafts == 0,
        counters.num_draft_tokens == 0,
        counters.num_accepted_tokens == 0,
        counters.num_accepted_tokens_per_pos@[i] == 0,
{
}

} // verus!
