//! Load snapshots of data-parallel ranks.
use std::collections::VecDeque;
use vstd::prelude::*;
use crate::arith::monus;
use crate::metrics::LoadSnapshot;

verus! {

/// The blocks of one rank's cache pool. One block is reserved for padding.
#[derive(Clone, Copy, Debug, PartialEq, Eq, Structural)]
pub struct PoolBlocks {
    pub total_blocks: usize,
    pub available_blocks: usize,
}

/// How many slots of a rank are taken.
pub open spec fn taken<T>(slots: Seq<Option<T>>) -> nat
    decreases slots.len(),
{
    if slots.len() == 0 {
        0
    } else {
        taken(slots.drop_last()) + (if slots.last() is Some {
            1nat
        } else {
            0nat
        })
    }
}

pub fn running_count<T>(slots: &Vec<Option<T>>) -> (n: usize)
    ensures
        n == taken(slots@),
        n <= slots@.len(),
{
    let mut n: usize = 0;
    let mut i: usize = 0;
    assert(slots@.take(0) =~= Seq::<Option<T>>::empty());
    while i < slots.len()
        invariant
            i <= slots.len(),
            n <= i,
            n == taken(slots@.take(i as int)),
        decreases slots.len() - i,
    {
        assert(slots@.take(i as int + 1).drop_last() =~= slots@.take(i as int));
        if slots[i].is_some() {
            n = n + 1;
        }
        i = i + 1;
    }
    assert(slots@.take(i as int) =~= slots@);
    n
}

/// The running requests of every rank.
pub fn running_counts<T>(slots: &[Vec<Option<T>>]) -> (counts: Vec<usize>)
    ensures
        counts@.len() == slots@.len(),
        forall|i: int|
            0 <= i < slots@.len() ==> #[trigger] counts@[i] == taken(slots@[i]@),
{
    let mut counts: Vec<usize> = Vec::new();
    let mut i: usize = 0;
    while i < slots.len()
        invariant
            i <= slots.len(),
            counts@.len() == i,
            forall|k: int| 0 <= k < i ==> #[trigger] counts@[k] == taken(slots@[k]@),
        decreases slots.len() - i,
    {
        counts.push(running_count(&slots[i]));
        i = i + 1;
    }
    counts
}

/// Whether no rank has a waiting request.
pub fn pending_is_empty<T>(pending: &[VecDeque<T>]) -> (r: bool)
    ensures
        r == forall|i: int| 0 <= i < pending@.len() ==> (#[trigger] pending@[i])@.len() == 0,
{
    let mut i: usize = 0;
    while i < pending.len()
        invariant
            i <= pending.len(),
            forall|k: int| 0 <= k < i ==> (#[trigger] pending@[k])@.len() == 0,
        decreases pending.len() - i,
    {
        if pending[i].len() != 0 {
            assert(pending@[i as int]@.len() != 0);
            return false;
        }
        i = i + 1;
    }
    true
}

/// The snapshot of one rank. Blocks that can be evicted count as available; the
/// padding block counts neither as used nor in the total.
pub open spec fn is_load_of(
    snapshot: LoadSnapshot,
    pool: PoolBlocks,
    running: nat,
    waiting: nat,
) -> bool {
    &&& snapshot.kv_total_blocks == pool.total_blocks - 1
    &&& snapshot.kv_used_blocks == monus(
        (pool.total_blocks - 1) as nat,
        pool.available_blocks as nat,
    )
    &&& snapshot.num_running_reqs == running
    &&& snapshot.num_waiting_reqs == waiting
    &&& snapshot.spec_decode is None
}

/// One snapshot per rank.
pub fn publish_load<S, P>(
    ranks: usize,
    pools: &[PoolBlocks],
    slots: &[Vec<Option<S>>],
    pending: &[VecDeque<P>],
) -> (snapshots: Vec<LoadSnapshot>)
    requires
        ranks <= pools@.len(),
        ranks <= slots@.len(),
        ranks <= pending@.len(),
        forall|i: int| 0 <= i < ranks ==> (#[trigger] pools@[i]).total_blocks >= 1,
    ensures
        snapshots@.len() == ranks,
        forall|i: int|
            0 <= i < ranks ==> is_load_of(
                #[trigger] snapshots@[i],
                pools@[i],
                taken(slots@[i]@),
                pending@[i]@.len(),
            ),
{
    let mut snapshots: Vec<LoadSnapshot> = Vec::new();
    let mut rank: usize = 0;
    while rank < ranks
        invariant
            rank <= ranks,
            ranks <= pools@.len(),
            ranks <= slots@.len(),
            ranks <= pending@.len(),
            forall|i: int| 0 <= i < ranks ==> (#[trigger] pools@[i]).total_blocks >= 1,
            snapshots@.len() == rank,
            forall|i: int|
                0 <= i < rank ==> is_load_of(
                    #[trigger] snapshots@[i],
                    pools@[i],
                    taken(slots@[i]@),
                    pending@[i]@.len(),
                ),
        decreases ranks - rank,
    {
        let kv_total_blocks: usize = pools[rank].total_blocks - 1;
        snapshots.push(
            LoadSnapshot {
                kv_used_blocks: kv_total_blocks.saturating_sub(
                    pools[rank].available_blocks,
                ) as u64,
                kv_total_blocks: kv_total_blocks as u64,
                num_running_reqs: running_count(&slots[rank]) as u64,
                num_waiting_reqs: pending[rank].len() as u64,
                spec_decode: None,
            },
        );
        rank = rank + 1;
    }
    snapshots
}

/// Filling a free slot adds one to the running requests, and freeing a taken one takes one
/// away; there are never more than slots.
pub proof fn lemma_slots_count_their_requests<T>(
    slots: Seq<Option<T>>,
    i: int,
    request: T,
)
    requires
        0 <= i < slots.len(),
    ensures
        taken(slots) <= slots.len(),
        slots[i] is None ==> taken(slots.update(i, Some(request))) == taken(slots) + 1,
        slots[i] is Some ==> taken(slots.update(i, None)) + 1 == taken(slots),
    decreases slots.len(),
{
    let head = slots.drop_last();
    let filled = slots.update(i, Some(request));
    let freed = slots.update(i, None);
    if i < head.len() {
        lemma_slots_count_their_requests(head, i, request);
        assert(filled.drop_last() =~= head.update(i, Some(request)));
        assert(freed.drop_last() =~= head.update(i, None));
    } else {
        lemma_taken_bound(head);
        assert(filled.drop_last() =~= head);
        assert(freed.drop_last() =~= head);
    }
}

proof fn lemma_taken_bound<T>(slots: Seq<Option<T>>)
    ensures
        taken(slots) <= slots.len(),
    decreases slots.len(),
{
    if slots.len() > 0 {
        lemma_taken_bound(slots.drop_last());
    }
}

/// The blocks of a snapshot add up: what is used and what is available are all of them but
/// the padding block, and a pool with nothing but available blocks uses none.
pub proof fn lemma_load_adds_up(
    snapshot: LoadSnapshot,
    pool: PoolBlocks,
    running: nat,
    waiting: nat,
)
    requires
        pool.total_blocks >= 1,
        is_load_of(snapshot, pool, running, waiting),
    ensures
        snapshot.kv_total_blocks + 1 == pool.total_blocks,
        pool.available_blocks < pool.total_blocks ==> snapshot.kv_used_blocks
            + pool.available_blocks == snapshot.kv_total_blocks,
        pool.available_blocks + 1 >= pool.total_blocks ==> snapshot.kv_used_blocks == 0,
        snapshot.kv_used_blocks <= snapshot.kv_total_blocks,
        snapshot.num_running_reqs == running,
        snapshot.num_waiting_reqs == waiting,
{
}

} // verus!
