//! Turning load snapshots into scheduler statistics.
use vstd::prelude::*;
use crate::arith::{min_nat, monus};
use crate::bridge::output::RequestBatchOutputs;
use crate::metrics::{LoadSnapshot, SpecDecodeCounters, MAX_SPEC_TOKENS};

verus! {

/// Per-interval speculative-decode statistics.
#[derive(Debug, PartialEq, Eq)]
pub struct SpecDecodingStats {
    pub num_spec_tokens: u64,
    pub num_drafts: u64,
    pub num_draft_tokens: u64,
    pub num_accepted_tokens: u64,
    pub num_accepted_tokens_per_pos: Vec<u64>,
}

/// How many positions a delta reports: the drafter's `K`, so that the reported
/// label set is stable across publishes.
pub open spec fn delta_width(cur: SpecDecodeCounters) -> nat {
    min_nat(cur.num_spec_tokens as nat, MAX_SPEC_TOKENS as nat)
}

/// `delta` is what moved between two cumulative snapshots. `num_spec_tokens` is
/// the drafter's `K`, not a counter, so it passes through undiffed.
pub open spec fn is_delta(
    delta: SpecDecodingStats,
    last: SpecDecodeCounters,
    cur: SpecDecodeCounters,
) -> bool {
    &&& delta.num_spec_tokens == cur.num_spec_tokens
    &&& delta.num_drafts == monus(cur.num_drafts as nat, last.num_drafts as nat)
    &&& delta.num_draft_tokens == monus(cur.num_draft_tokens as nat, last.num_draft_tokens as nat)
    &&& delta.num_accepted_tokens == monus(
        cur.num_accepted_tokens as nat,
        last.num_accepted_tokens as nat,
    )
    &&& delta.num_accepted_tokens_per_pos@.len() == delta_width(cur)
    &&& forall|i: int|
        0 <= i < delta_width(cur) ==> #[trigger] delta.num_accepted_tokens_per_pos@[i] == monus(
            cur.num_accepted_tokens_per_pos@[i] as nat,
            last.num_accepted_tokens_per_pos@[i] as nat,
        )
}

/// Per-interval delta from two cumulative snapshots.
pub fn spec_decode_delta(last: &SpecDecodeCounters, cur: &SpecDecodeCounters) -> (delta:
    SpecDecodingStats)
    ensures
        is_delta(delta, *last, *cur),
{
    let mut per_pos: Vec<u64> = Vec::new();
    let mut i: usize = 0;
    while i < MAX_SPEC_TOKENS && (i as u64) < cur.num_spec_tokens
        invariant
            i <= delta_width(*cur),
            per_pos@.len() == i,
            forall|k: int|
                0 <= k < i ==> #[trigger] per_pos@[k] == monus(
                    cur.num_accepted_tokens_per_pos@[k] as nat,
                    last.num_accepted_tokens_per_pos@[k] as nat,
                ),
        decreases MAX_SPEC_TOKENS - i,
    {
        let moved: u64 = cur.num_accepted_tokens_per_pos[i].saturating_sub(
            last.num_accepted_tokens_per_pos[i],
        );
        per_pos.push(moved);
        i = i + 1;
    }
    SpecDecodingStats {
        num_spec_tokens: cur.num_spec_tokens,
        num_drafts: cur.num_drafts.saturating_sub(last.num_drafts),
        num_draft_tokens: cur.num_draft_tokens.saturating_sub(last.num_draft_tokens),
        num_accepted_tokens: cur.num_accepted_tokens.saturating_sub(last.num_accepted_tokens),
        num_accepted_tokens_per_pos: per_pos,
    }
}

/// `b` was published after `a` by the same drafter: no total fell.
pub open spec fn grew(a: SpecDecodeCounters, b: SpecDecodeCounters) -> bool {
    &&& a.num_drafts <= b.num_drafts
    &&& a.num_draft_tokens <= b.num_draft_tokens
    &&& a.num_accepted_tokens <= b.num_accepted_tokens
    &&& forall|i: int|
        0 <= i < MAX_SPEC_TOKENS ==> (#[trigger] a.num_accepted_tokens_per_pos@[i])
            <= b.num_accepted_tokens_per_pos@[i]
}

/// The sums of the deltas along a run of snapshots.
pub open spec fn summed_drafts(deltas: Seq<SpecDecodingStats>) -> nat
    decreases deltas.len(),
{
    if deltas.len() == 0 {
        0
    } else {
        summed_drafts(deltas.drop_last()) + deltas.last().num_drafts as nat
    }
}

pub open spec fn summed_draft_tokens(deltas: Seq<SpecDecodingStats>) -> nat
    decreases deltas.len(),
{
    if deltas.len() == 0 {
        0
    } else {
        summed_draft_tokens(deltas.drop_last()) + deltas.last().num_draft_tokens as nat
    }
}

pub open spec fn summed_accepted(deltas: Seq<SpecDecodingStats>) -> nat
    decreases deltas.len(),
{
    if deltas.len() == 0 {
        0
    } else {
        summed_accepted(deltas.drop_last()) + deltas.last().num_accepted_tokens as nat
    }
}

pub open spec fn summed_position(deltas: Seq<SpecDecodingStats>, pos: int) -> nat
    decreases deltas.len(),
{
    if deltas.len() == 0 {
        0
    } else {
        summed_position(deltas.drop_last(), pos)
            + deltas.last().num_accepted_tokens_per_pos@[pos] as nat
    }
}

/// `deltas[i]` is the delta between the snapshots `i` and `i + 1`, and no total
/// falls along the run.
pub open spec fn delta_run(
    snapshots: Seq<SpecDecodeCounters>,
    deltas: Seq<SpecDecodingStats>,
) -> bool {
    &&& snapshots.len() == deltas.len() + 1
    &&& forall|i: int, j: int|
        #![trigger snapshots[i], snapshots[j]]
        0 <= i < deltas.len() && j == i + 1 ==> grew(snapshots[i], snapshots[j]) && is_delta(
            deltas[i],
            snapshots[i],
            snapshots[j],
        )
}

/// A chain of deltas telescopes back to the cumulative totals, wherever the
/// interval boundaries fall: the sum of the deltas is the growth over the run.
pub proof fn lemma_deltas_telescope(
    snapshots: Seq<SpecDecodeCounters>,
    deltas: Seq<SpecDecodingStats>,
    pos: int,
)
    requires
        delta_run(snapshots, deltas),
    ensures
        summed_drafts(deltas) == snapshots.last().num_drafts - snapshots[0].num_drafts,
        summed_draft_tokens(deltas) == snapshots.last().num_draft_tokens
            - snapshots[0].num_draft_tokens,
        summed_accepted(deltas) == snapshots.last().num_accepted_tokens
            - snapshots[0].num_accepted_tokens,
        (0 <= pos < MAX_SPEC_TOKENS && (forall|i: int|
            0 <= i < snapshots.len() ==> pos < (#[trigger] snapshots[i]).num_spec_tokens)) ==> (
        summed_position(deltas, pos) == snapshots.last().num_accepted_tokens_per_pos@[pos]
            - snapshots[0].num_accepted_tokens_per_pos@[pos]),
    decreases deltas.len(),
{
    if deltas.len() > 0 {
        let head = snapshots.drop_last();
        let rest = deltas.drop_last();
        assert forall|i: int, j: int|
            #![trigger head[i], head[j]]
            0 <= i < rest.len() && j == i + 1 implies grew(head[i], head[j]) && is_delta(
            rest[i],
            head[i],
            head[j],
        ) by {
            assert(head[i] == snapshots[i] && head[j] == snapshots[j] && rest[i] == deltas[i]);
        }
        lemma_deltas_telescope(head, rest, pos);
        let n = deltas.len() as int;
        assert(grew(snapshots[n - 1], snapshots[n]) && is_delta(
            deltas[n - 1],
            snapshots[n - 1],
            snapshots[n],
        ));
        assert(head.last() == snapshots[n - 1]);
        assert(snapshots.last() == snapshots[n]);
        assert(deltas.last() == deltas[n - 1]);
        assert(head[0] == snapshots[0]);
        if 0 <= pos < MAX_SPEC_TOKENS && (forall|i: int|
            0 <= i < snapshots.len() ==> pos < (#[trigger] snapshots[i]).num_spec_tokens) {
            assert forall|i: int| 0 <= i < head.len() implies pos < (
            #[trigger] head[i]).num_spec_tokens by {
                assert(head[i] == snapshots[i]);
            }
            assert(snapshots[n - 1].num_accepted_tokens_per_pos@[pos]
                <= snapshots[n].num_accepted_tokens_per_pos@[pos]);
            assert(pos < delta_width(snapshots[n]));
        }
    }
}

/// A reader that misses an interval loses nothing: one delta over the gap is the
/// sum of the deltas it missed.
pub proof fn lemma_coalesced_delta_is_the_whole_gap(
    a: SpecDecodeCounters,
    b: SpecDecodeCounters,
    c: SpecDecodeCounters,
    ab: SpecDecodingStats,
    bc: SpecDecodingStats,
    ac: SpecDecodingStats,
)
    requires
        grew(a, b),
        grew(b, c),
        is_delta(ab, a, b),
        is_delta(bc, b, c),
        is_delta(ac, a, c),
    ensures
        ac.num_drafts == ab.num_drafts + bc.num_drafts,
        ac.num_draft_tokens == ab.num_draft_tokens + bc.num_draft_tokens,
        ac.num_accepted_tokens == ab.num_accepted_tokens + bc.num_accepted_tokens,
        forall|i: int|
            0 <= i < delta_width(b) && i < delta_width(c) ==> #[trigger]
            ac.num_accepted_tokens_per_pos@[i] == ab.num_accepted_tokens_per_pos@[i]
                + bc.num_accepted_tokens_per_pos@[i],
{
    assert forall|i: int| 0 <= i < delta_width(b) && i < delta_width(c) implies #[trigger]
    ac.num_accepted_tokens_per_pos@[i] == ab.num_accepted_tokens_per_pos@[i]
        + bc.num_accepted_tokens_per_pos@[i] by {
        assert(a.num_accepted_tokens_per_pos@[i] <= b.num_accepted_tokens_per_pos@[i]);
        assert(b.num_accepted_tokens_per_pos@[i] <= c.num_accepted_tokens_per_pos@[i]);
    }
}

/// What the frontend records of a snapshot; the KV usage is the fraction of the
/// two block counts, zero for an empty pool.
#[derive(Debug, PartialEq, Eq)]
pub struct SchedulerStats {
    pub num_running_reqs: u64,
    pub num_waiting_reqs: u64,
    pub kv_used_blocks: u64,
    pub kv_total_blocks: u64,
    pub spec_decoding_stats: Option<SpecDecodingStats>,
}

/// The totals last turned into a delta. They persist across publishes so that no
/// accepted token is dropped or counted twice when several scheduler steps
/// coalesce into one.
pub struct StatsPublisher {
    last_spec: SpecDecodeCounters,
}

impl StatsPublisher {
    pub closed spec fn last(self) -> SpecDecodeCounters {
        self.last_spec
    }

    /// These are the statistics of the next snapshot, and the totals after it.
    pub open spec fn published(
        self,
        snapshot: LoadSnapshot,
        stats: SchedulerStats,
        post: StatsPublisher,
    ) -> bool {
        &&& stats.num_running_reqs == snapshot.num_running_reqs
        &&& stats.num_waiting_reqs == snapshot.num_waiting_reqs
        &&& stats.kv_used_blocks == snapshot.kv_used_blocks
        &&& stats.kv_total_blocks == snapshot.kv_total_blocks
        &&& match snapshot.spec_decode {
            Some(cur) => {
                &&& post.last() == cur
                &&& match stats.spec_decoding_stats {
                    Some(delta) => is_delta(delta, self.last(), cur) && delta.num_drafts > 0,
                    None => cur.num_drafts <= self.last().num_drafts,
                }
            },
            None => post.last().zeroed() && stats.spec_decoding_stats is None,
        }
    }

    pub fn new() -> (r: Self)
        ensures
            r.last().zeroed(),
    {
        StatsPublisher { last_spec: SpecDecodeCounters::default() }
    }

    /// The statistics of the next snapshot. Speculative-decode statistics are
    /// attached only on intervals that drafted; without a drafter the totals are
    /// forgotten, so that one loaded later starts its diff from zero.
    pub fn publish(&mut self, snapshot: &LoadSnapshot) -> (stats: SchedulerStats)
        ensures
            old(self).published(*snapshot, stats, *final(self)),
    {
        let spec_decoding_stats = match snapshot.spec_decode {
            Some(cur) => {
                let delta = spec_decode_delta(&self.last_spec, &cur);
                self.last_spec = cur;
                if delta.num_drafts > 0 {
                    Some(delta)
                } else {
                    None
                }
            },
            None => {
                self.last_spec = SpecDecodeCounters::default();
                None
            },
        };
        SchedulerStats {
            num_running_reqs: snapshot.num_running_reqs,
            num_waiting_reqs: snapshot.num_waiting_reqs,
            kv_used_blocks: snapshot.kv_used_blocks,
            kv_total_blocks: snapshot.kv_total_blocks,
            spec_decoding_stats,
        }
    }

    /// The message that carries the statistics of the next snapshot, and nothing else.
    pub fn publish_batch(&mut self, engine_index: u32, snapshot: &LoadSnapshot) -> (r:
        RequestBatchOutputs)
        ensures
            r.engine_index == engine_index,
            r.outputs@.len() == 0,
            r.finished_requests is None,
            r.scheduler_stats matches Some(stats) && old(self).published(
                *snapshot,
                stats,
                *final(self),
            ),
    {
        let stats = self.publish(snapshot);
        RequestBatchOutputs {
            engine_index,
            outputs: Vec::new(),
            finished_requests: None,
            scheduler_stats: Some(stats),
        }
    }
}

/// Speculative statistics go out exactly on intervals that drafted, with one entry for each
/// position of the drafter, and the totals are then those of the snapshot. Without a
/// drafter nothing goes out and the totals start over.
pub proof fn lemma_statistics_go_out_when_drafted(
    before: StatsPublisher,
    snapshot: LoadSnapshot,
    stats: SchedulerStats,
    after: StatsPublisher,
)
    requires
        before.published(snapshot, stats, after),
    ensures
        stats.num_running_reqs == snapshot.num_running_reqs,
        stats.num_waiting_reqs == snapshot.num_waiting_reqs,
        stats.kv_used_blocks == snapshot.kv_used_blocks,
        stats.kv_total_blocks == snapshot.kv_total_blocks,
        stats.spec_decoding_stats is Some <==> (snapshot.spec_decode matches Some(cur)
            && cur.num_drafts > before.last().num_drafts),
        snapshot.spec_decode matches Some(cur) ==> after.last() == cur,
        snapshot.spec_decode is None ==> after.last().num_drafts == 0
            && after.last().num_draft_tokens == 0 && after.last().num_accepted_tokens == 0,
        stats.spec_decoding_stats matches Some(delta) ==> {
            let cur = snapshot.spec_decode->Some_0;
            &&& delta.num_spec_tokens == cur.num_spec_tokens
            &&& cur.num_spec_tokens <= MAX_SPEC_TOKENS
                ==> delta.num_accepted_tokens_per_pos@.len() == cur.num_spec_tokens
            &&& before.last().num_drafts + delta.num_drafts == cur.num_drafts
        },
{
}

/// No drafted and no accepted token is dropped or counted twice across two publishes.
pub proof fn lemma_no_draft_is_counted_twice(
    first: StatsPublisher,
    middle: StatsPublisher,
    last: StatsPublisher,
    one: LoadSnapshot,
    two: LoadSnapshot,
    sent_one: SchedulerStats,
    sent_two: SchedulerStats,
)
    requires
        first.published(one, sent_one, middle),
        middle.published(two, sent_two, last),
        one.spec_decode is Some,
        two.spec_decode is Some,
        grew(first.last(), one.spec_decode->Some_0),
        grew(one.spec_decode->Some_0, two.spec_decode->Some_0),
        sent_one.spec_decoding_stats is Some,
        sent_two.spec_decoding_stats is Some,
    ensures
        ({
            let a = sent_one.spec_decoding_stats->Some_0;
            let b = sent_two.spec_decoding_stats->Some_0;
            let cur = two.spec_decode->Some_0;
            &&& first.last().num_drafts + a.num_drafts + b.num_drafts == cur.num_drafts
            &&& first.last().num_draft_tokens + a.num_draft_tokens + b.num_draft_tokens
                == cur.num_draft_tokens
            &&& first.last().num_accepted_tokens + a.num_accepted_tokens
                + b.num_accepted_tokens == cur.num_accepted_tokens
        }),
{
}

} // verus!
