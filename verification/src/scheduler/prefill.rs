//! Packing the next prefill step out of the requests still being prefilled.
use vstd::prelude::*;
use crate::arith::{min_nat, min_size};
use crate::scheduler::request::{PendingRequest, RequestId};

verus! {

/// Prompt tokens forwarded in a single step unless configured otherwise.
/// Prefill activation scratch scales with the step's total prompt tokens, so an
/// unbounded prefill batch can exhaust device memory under a request burst, and
/// every decode request in a unified step stalls for the whole step.
pub const DEFAULT_MAX_PREFILL_TOKENS: usize = 1024;

/// The chunk a request takes of a step that has `budget` tokens left, or `None`
/// when it sits this step out. Echo requests need logits for every prompt
/// position in one forward, so they run whole or not at all. Under request-local
/// chunking a request takes `min(remaining, max)` whole or skips the step.
pub open spec fn chunk_of(req: PendingRequest, budget: nat, max: nat, request_local: bool) -> Option<
    nat,
> {
    let remaining = req.remaining();
    if req.echo {
        if remaining > budget {
            None
        } else {
            Some(remaining)
        }
    } else if request_local {
        if min_nat(remaining, max) > budget {
            None
        } else {
            Some(min_nat(remaining, max))
        }
    } else {
        Some(min_nat(remaining, budget))
    }
}

/// The requests a step takes off `queue`, in queue order.
pub open spec fn taken_of(
    queue: Seq<PendingRequest>,
    budget: nat,
    max: nat,
    request_local: bool,
) -> Seq<PendingRequest>
    decreases queue.len(),
{
    if queue.len() == 0 || budget == 0 {
        Seq::empty()
    } else {
        let rest = queue.drop_first();
        match chunk_of(queue[0], budget, max, request_local) {
            Some(chunk) => seq![queue[0].with_chunk(chunk)] + taken_of(
                rest,
                (budget - chunk) as nat,
                max,
                request_local,
            ),
            None => taken_of(rest, budget, max, request_local),
        }
    }
}

/// The requests a step leaves on `queue`.
pub open spec fn left_of(
    queue: Seq<PendingRequest>,
    budget: nat,
    max: nat,
    request_local: bool,
) -> Seq<PendingRequest>
    decreases queue.len(),
{
    if queue.len() == 0 || budget == 0 {
        queue
    } else {
        let rest = queue.drop_first();
        match chunk_of(queue[0], budget, max, request_local) {
            Some(chunk) => left_of(rest, (budget - chunk) as nat, max, request_local),
            None => seq![queue[0]] + left_of(rest, budget, max, request_local),
        }
    }
}

/// The requests of `s` that carry this id, in order.
pub open spec fn with_id(s: Seq<PendingRequest>, id: RequestId) -> Seq<PendingRequest> {
    s.filter(|r: PendingRequest| r.request_id == id)
}

pub open spec fn sorted_by_id(s: Seq<PendingRequest>) -> bool {
    forall|i: int, j: int|
        0 <= i <= j < s.len() ==> (#[trigger] s[i]).request_id.0 <= (#[trigger] s[j]).request_id.0
}

/// `sorted` holds the requests of `s` ordered by id, equal ids in their order in `s`.
pub open spec fn stable_sort_of(sorted: Seq<PendingRequest>, s: Seq<PendingRequest>) -> bool {
    &&& sorted_by_id(sorted)
    &&& sorted.len() == s.len()
    &&& forall|id: RequestId| #[trigger] with_id(sorted, id) == with_id(s, id)
}

/// Total prompt tokens a step forwards.
pub open spec fn chunk_total(s: Seq<PendingRequest>) -> nat
    decreases s.len(),
{
    if s.len() == 0 {
        0
    } else {
        chunk_total(s.drop_last()) + s.last().step_chunk as nat
    }
}

proof fn lemma_chunk_total_concat(a: Seq<PendingRequest>, b: Seq<PendingRequest>)
    ensures
        chunk_total(a + b) == chunk_total(a) + chunk_total(b),
    decreases b.len(),
{
    if b.len() == 0 {
        assert(a + b =~= a);
    } else {
        assert((a + b).drop_last() =~= a + b.drop_last());
        lemma_chunk_total_concat(a, b.drop_last());
    }
}

proof fn lemma_chunk_total_insert(s: Seq<PendingRequest>, i: int, r: PendingRequest)
    requires
        0 <= i <= s.len(),
    ensures
        chunk_total(s.insert(i, r)) == chunk_total(s) + r.step_chunk as nat,
{
    let head = s.subrange(0, i);
    let tail = s.subrange(i, s.len() as int);
    assert(s =~= head + tail);
    assert(s.insert(i, r) =~= (head + seq![r]) + tail);
    assert(seq![r].drop_last() =~= Seq::<PendingRequest>::empty());
    assert(chunk_total(seq![r]) == r.step_chunk as nat) by {
        assert(chunk_total(Seq::<PendingRequest>::empty()) == 0);
    }
    lemma_chunk_total_concat(head, seq![r]);
    lemma_chunk_total_concat(head + seq![r], tail);
    lemma_chunk_total_concat(head, tail);
}

proof fn lemma_with_id_none(s: Seq<PendingRequest>, id: RequestId)
    requires
        forall|k: int| 0 <= k < s.len() ==> (#[trigger] s[k]).request_id != id,
    ensures
        with_id(s, id) == Seq::<PendingRequest>::empty(),
    decreases s.len(),
{
    reveal(Seq::filter);
    if s.len() > 0 {
        lemma_with_id_none(s.drop_last(), id);
        assert(s.last().request_id != id);
    }
}

/// Inserting behind every smaller or equal id, and before larger ids only,
/// appends to the requests of that id and leaves all others alone.
proof fn lemma_with_id_insert(s: Seq<PendingRequest>, i: int, r: PendingRequest, id: RequestId)
    requires
        0 <= i <= s.len(),
        forall|k: int| i <= k < s.len() ==> (#[trigger] s[k]).request_id.0 > r.request_id.0,
    ensures
        with_id(s.insert(i, r), id) == with_id(s.push(r), id),
{
    let head = s.subrange(0, i);
    let tail = s.subrange(i, s.len() as int);
    let p = |q: PendingRequest| q.request_id == id;
    assert(s =~= head + tail);
    assert(s.insert(i, r) =~= head.push(r) + tail);
    assert(s.push(r) =~= (head + tail).push(r));
    Seq::filter_distributes_over_add(head.push(r), tail, p);
    Seq::filter_distributes_over_add(head, tail, p);
    head.lemma_filter_push(r, p);
    s.lemma_filter_push(r, p);
    if r.request_id == id {
        lemma_with_id_none(tail, id);
        assert(with_id(s.insert(i, r), id) =~= with_id(s.push(r), id));
    } else {
        assert(with_id(s.insert(i, r), id) =~= with_id(s.push(r), id));
    }
}

/// Orders requests by id, keeping the order of equal ids.
fn sort_by_request_id(requests: Vec<PendingRequest>) -> (sorted: Vec<PendingRequest>)
    ensures
        stable_sort_of(sorted@, requests@),
        chunk_total(sorted@) == chunk_total(requests@),
{
    let ghost all = requests@;
    let mut sorted: Vec<PendingRequest> = Vec::new();
    assert(all.take(0) =~= Seq::<PendingRequest>::empty());
    for req in it: requests
        invariant
            it.seq() == all,
            stable_sort_of(sorted@, all.take(it.index() as int)),
            chunk_total(sorted@) == chunk_total(all.take(it.index() as int)),
    {
        let ghost before = sorted@;
        let ghost done = all.take(it.index() as int);
        let mut at: usize = sorted.len();
        while at > 0 && sorted[at - 1].request_id.0 > req.request_id.0
            invariant
                at <= sorted.len(),
                sorted@ == before,
                sorted_by_id(before),
                forall|k: int|
                    at <= k < before.len() ==> (#[trigger] before[k]).request_id.0
                        > req.request_id.0,
            decreases at,
        {
            at = at - 1;
        }
        let ghost i = at as int;
        sorted.insert(at, req);
        proof {
            let next = all.take(it.index() as int + 1);
            assert(next =~= done.push(req));
            assert(next.drop_last() =~= done);
            lemma_chunk_total_insert(before, i, req);
            assert forall|id: RequestId| #[trigger] with_id(sorted@, id) == with_id(next, id) by {
                let p = |q: PendingRequest| q.request_id == id;
                lemma_with_id_insert(before, i, req, id);
                before.lemma_filter_push(req, p);
                done.lemma_filter_push(req, p);
                assert(with_id(before, id) == with_id(done, id));
            }
            assert forall|a: int, b: int| 0 <= a <= b < sorted@.len() implies (
            #[trigger] sorted@[a]).request_id.0 <= (#[trigger] sorted@[b]).request_id.0 by {
                let pa = if a < i { a } else { a - 1 };
                let pb = if b < i { b } else { b - 1 };
                if a != i && b != i {
                    assert(before[pa].request_id.0 <= before[pb].request_id.0);
                } else if a == i && b != i {
                    assert(before[pb].request_id.0 > req.request_id.0);
                } else if b == i && a != i {
                    assert(before[pa].request_id.0 <= before[i - 1].request_id.0);
                }
            }
        }
    }
    assert(all.take(all.len() as int) =~= all);
    sorted
}

/// How far the numbers of a step may depend on what else is in its batch.
#[derive(Clone, Copy, Debug, PartialEq, Eq, Structural)]
pub enum NumericPolicy {
    /// Kernels are pinned.
    Pin,
    /// Every token is computed by itself.
    PerToken,
    /// Whatever is fastest.
    Free,
}

/// Whether prompts are cut by their own lengths alone. Under a policy that keeps
/// numbers independent of the batch they are; a loop that takes control commands never
/// runs under one.
pub fn request_local_chunks(policy: NumericPolicy, with_control: bool) -> (r: bool)
    ensures
        r == (!with_control && (policy is Pin || policy is PerToken)),
{
    !with_control && match policy {
        NumericPolicy::Pin => true,
        NumericPolicy::PerToken => true,
        NumericPolicy::Free => false,
    }
}

/// Pull the next prefill step set off the front of `prefilling`, capping the
/// step's total forwarded tokens at `max_prefill_tokens`. Each taken request
/// gets its per-step chunk recorded in `step_chunk`; the set comes out ordered by
/// request id.
pub fn take_prefill_chunks(
    prefilling: &mut Vec<PendingRequest>,
    max_prefill_tokens: usize,
    request_local: bool,
) -> (taken: Vec<PendingRequest>)
    requires
        forall|i: int|
            0 <= i < old(prefilling)@.len() ==> (#[trigger] old(prefilling)@[i]).well_formed(),
    ensures
        stable_sort_of(
            taken@,
            taken_of(
                old(prefilling)@,
                max_prefill_tokens as nat,
                max_prefill_tokens as nat,
                request_local,
            ),
        ),
        final(prefilling)@ == left_of(
            old(prefilling)@,
            max_prefill_tokens as nat,
            max_prefill_tokens as nat,
            request_local,
        ),
        chunk_total(taken@) <= max_prefill_tokens,
{
    let ghost queue = prefilling@;
    let ghost max = max_prefill_tokens as nat;
    let mut budget: usize = max_prefill_tokens;
    let mut taken: Vec<PendingRequest> = Vec::new();
    let mut i: usize = 0;
    assert(queue.skip(0) =~= queue);
    assert(queue.take(0) =~= Seq::<PendingRequest>::empty());
    assert(Seq::<PendingRequest>::empty() + taken_of(queue, max, max, request_local) =~= taken_of(
        queue,
        max,
        max,
        request_local,
    ));
    assert(Seq::<PendingRequest>::empty() + left_of(queue, max, max, request_local) =~= left_of(
        queue,
        max,
        max,
        request_local,
    ));
    while i < prefilling.len() && budget > 0
        invariant
            i <= prefilling.len(),
            max == max_prefill_tokens,
            budget <= max_prefill_tokens,
            forall|k: int|
                0 <= k < prefilling@.len() ==> (#[trigger] prefilling@[k]).well_formed(),
            taken_of(queue, max, max, request_local) == taken@ + taken_of(
                prefilling@.skip(i as int),
                budget as nat,
                max,
                request_local,
            ),
            left_of(queue, max, max, request_local) == prefilling@.take(i as int) + left_of(
                prefilling@.skip(i as int),
                budget as nat,
                max,
                request_local,
            ),
            chunk_total(taken@) + budget == max,
        decreases prefilling.len() - i,
    {
        let ghost before = prefilling@;
        let ghost rest = before.skip(i as int);
        assert(rest[0] == before[i as int]);
        assert(rest.drop_first() =~= before.skip(i as int + 1));
        let remaining: usize = prefilling[i].remaining_prompt_tokens();
        let chunk: usize = if prefilling[i].echo {
            if remaining > budget {
                assert(before.take(i as int) + (seq![rest[0]] + left_of(
                    rest.drop_first(),
                    budget as nat,
                    max,
                    request_local,
                )) =~= before.take(i as int + 1) + left_of(
                    rest.drop_first(),
                    budget as nat,
                    max,
                    request_local,
                ));
                i = i + 1;
                continue ;
            }
            remaining
        } else if request_local {
            let desired: usize = min_size(remaining, max_prefill_tokens);
            if desired > budget {
                assert(before.take(i as int) + (seq![rest[0]] + left_of(
                    rest.drop_first(),
                    budget as nat,
                    max,
                    request_local,
                )) =~= before.take(i as int + 1) + left_of(
                    rest.drop_first(),
                    budget as nat,
                    max,
                    request_local,
                ));
                i = i + 1;
                continue ;
            }
            desired
        } else {
            min_size(remaining, budget)
        };
        let mut req = prefilling.remove(i);
        req.step_chunk = chunk;
        let ghost taken_before = taken@;
        proof {
            assert(req == rest[0].with_chunk(chunk as nat));
            assert(prefilling@.skip(i as int) =~= rest.drop_first());
            assert(prefilling@.take(i as int) =~= before.take(i as int));
            let more = taken_of(rest.drop_first(), (budget - chunk) as nat, max, request_local);
            assert(taken_before + (seq![req] + more) =~= taken_before.push(req) + more);
            assert(taken_before.push(req).drop_last() =~= taken_before);
        }
        budget = budget - chunk;
        taken.push(req);
    }
    proof {
        let rest = prefilling@.skip(i as int);
        assert(taken@ + Seq::<PendingRequest>::empty() =~= taken@);
        assert(prefilling@.take(i as int) + rest =~= prefilling@);
        assert(taken_of(rest, budget as nat, max, request_local) == Seq::<PendingRequest>::empty());
        assert(left_of(rest, budget as nat, max, request_local) == rest);
    }
    sort_by_request_id(taken)
}

/// Under request-local chunking a request's chunk depends only on its own
/// length and the step bound, never on the requests beside it or on how much of
/// the step they left.
pub proof fn lemma_request_local_chunks_are_batch_invariant(
    queue: Seq<PendingRequest>,
    budget: nat,
    max: nat,
)
    ensures
        forall|i: int|
            0 <= i < taken_of(queue, budget, max, true).len() ==> {
                let r = #[trigger] taken_of(queue, budget, max, true)[i];
                r.step_chunk == (if r.echo {
                    r.remaining() as usize
                } else {
                    min_nat(r.remaining(), max) as usize
                })
            },
    decreases queue.len(),
{
    if queue.len() > 0 && budget > 0 {
        let rest = queue.drop_first();
        match chunk_of(queue[0], budget, max, true) {
            Some(chunk) => {
                lemma_request_local_chunks_are_batch_invariant(rest, (budget - chunk) as nat, max);
                let more = taken_of(rest, (budget - chunk) as nat, max, true);
                let all = taken_of(queue, budget, max, true);
                assert(all == seq![queue[0].with_chunk(chunk)] + more);
                assert forall|i: int| 0 <= i < all.len() implies {
                    let r = #[trigger] all[i];
                    r.step_chunk == (if r.echo {
                        r.remaining() as usize
                    } else {
                        min_nat(r.remaining(), max) as usize
                    })
                } by {
                    if i > 0 {
                        assert(all[i] == more[i - 1]);
                    }
                }
            },
            None => {
                lemma_request_local_chunks_are_batch_invariant(rest, budget, max);
            },
        }
    }
}

/// An echo request that is taken is forwarded whole.
pub proof fn lemma_echo_is_whole_or_skipped(
    queue: Seq<PendingRequest>,
    budget: nat,
    max: nat,
    request_local: bool,
)
    ensures
        forall|i: int|
            0 <= i < taken_of(queue, budget, max, request_local).len() ==> {
                let r = #[trigger] taken_of(queue, budget, max, request_local)[i];
                r.echo ==> r.step_chunk == r.remaining() as usize
            },
    decreases queue.len(),
{
    if queue.len() > 0 && budget > 0 {
        let rest = queue.drop_first();
        match chunk_of(queue[0], budget, max, request_local) {
            Some(chunk) => {
                lemma_echo_is_whole_or_skipped(rest, (budget - chunk) as nat, max, request_local);
                let more = taken_of(rest, (budget - chunk) as nat, max, request_local);
                let all = taken_of(queue, budget, max, request_local);
                assert(all == seq![queue[0].with_chunk(chunk)] + more);
                assert forall|i: int| 0 <= i < all.len() implies {
                    let r = #[trigger] all[i];
                    r.echo ==> r.step_chunk == r.remaining() as usize
                } by {
                    if i > 0 {
                        assert(all[i] == more[i - 1]);
                    }
                }
            },
            None => {
                lemma_echo_is_whole_or_skipped(rest, budget, max, request_local);
            },
        }
    }
}

/// The requests of `s`, whatever chunk each was given.
pub open spec fn without_chunks(s: Seq<PendingRequest>) -> Seq<PendingRequest> {
    s.map_values(|r: PendingRequest| r.with_chunk(0))
}

/// Taking a step loses no request and invents none: every queued request is taken
/// or left, exactly once, and nothing of it but its chunk changes.
pub proof fn lemma_step_keeps_every_request(
    queue: Seq<PendingRequest>,
    budget: nat,
    max: nat,
    request_local: bool,
)
    ensures
        without_chunks(queue).to_multiset() == without_chunks(
            taken_of(queue, budget, max, request_local),
        ).to_multiset().add(
            without_chunks(left_of(queue, budget, max, request_local)).to_multiset(),
        ),
    decreases queue.len(),
{
    broadcast use vstd::seq_lib::group_to_multiset_ensures;

    let taken = taken_of(queue, budget, max, request_local);
    let left = left_of(queue, budget, max, request_local);
    if queue.len() == 0 || budget == 0 {
        assert(without_chunks(taken) =~= Seq::<PendingRequest>::empty());
    } else {
        let rest = queue.drop_first();
        let head = seq![queue[0].with_chunk(0)];
        assert(without_chunks(queue) =~= head + without_chunks(rest));
        vstd::seq_lib::lemma_multiset_commutative(head, without_chunks(rest));
        match chunk_of(queue[0], budget, max, request_local) {
            Some(chunk) => {
                let after = (budget - chunk) as nat;
                lemma_step_keeps_every_request(rest, after, max, request_local);
                let taken_rest = without_chunks(taken_of(rest, after, max, request_local));
                assert(without_chunks(taken) =~= head + taken_rest);
                vstd::seq_lib::lemma_multiset_commutative(head, taken_rest);
            },
            None => {
                lemma_step_keeps_every_request(rest, budget, max, request_local);
                let left_rest = without_chunks(left_of(rest, budget, max, request_local));
                assert(without_chunks(left) =~= head + left_rest);
                vstd::seq_lib::lemma_multiset_commutative(head, left_rest);
            },
        }
    }
    assert(without_chunks(queue).to_multiset() =~= without_chunks(taken).to_multiset().add(
        without_chunks(left).to_multiset(),
    ));
}

/// A step with a positive bound always makes progress on a queue whose head is
/// not an echo request too long for the bound.
pub proof fn lemma_step_makes_progress(
    queue: Seq<PendingRequest>,
    max: nat,
    request_local: bool,
)
    requires
        queue.len() > 0,
        max > 0,
        queue[0].echo ==> queue[0].remaining() <= max,
    ensures
        taken_of(queue, max, max, request_local).len() > 0,
        taken_of(queue, max, max, request_local)[0].request_id == queue[0].request_id,
{
}

/// A request sits a step out exactly when it cannot be cut to what the step has left: an
/// echo request longer than that, or, where prompts are cut by their own lengths, a
/// request whose own chunk is. A request that takes part goes as far as its prompt, the
/// step, or its own cut allow, whichever comes first.
pub proof fn lemma_chunk_verdict(req: PendingRequest, budget: nat, max: nat, request_local: bool)
    ensures
        chunk_of(req, budget, max, request_local) is None <==> req.remaining() > budget && (
        req.echo || (request_local && max > budget)),
        chunk_of(req, budget, max, request_local) matches Some(chunk) ==> {
            &&& chunk <= req.remaining()
            &&& chunk <= budget
            &&& chunk == req.remaining() || (!req.echo && !request_local && chunk == budget) || (
            !req.echo && request_local && chunk == max)
        },
{
}

proof fn lemma_total_of_taken(queue: Seq<PendingRequest>, budget: nat, max: nat, local: bool)
    requires
        budget <= usize::MAX,
        queue.len() > 0,
        budget > 0,
        chunk_of(queue[0], budget, max, local) is Some,
    ensures
        ({
            let chunk = chunk_of(queue[0], budget, max, local)->Some_0;
            chunk_total(taken_of(queue, budget, max, local)) == chunk + chunk_total(
                taken_of(queue.drop_first(), (budget - chunk) as nat, max, local),
            )
        }),
{
    let chunk = chunk_of(queue[0], budget, max, local)->Some_0;
    let first = queue[0].with_chunk(chunk);
    lemma_chunk_verdict(queue[0], budget, max, local);
    lemma_chunk_total_concat(
        seq![first],
        taken_of(queue.drop_first(), (budget - chunk) as nat, max, local),
    );
    assert(seq![first].drop_last() =~= Seq::<PendingRequest>::empty());
    reveal_with_fuel(chunk_total, 2);
}

/// A step never forwards more tokens than its bound.
pub proof fn lemma_step_keeps_its_bound(
    queue: Seq<PendingRequest>,
    budget: nat,
    max: nat,
    request_local: bool,
)
    requires
        budget <= usize::MAX,
    ensures
        chunk_total(taken_of(queue, budget, max, request_local)) <= budget,
    decreases queue.len(),
{
    if queue.len() > 0 && budget > 0 {
        match chunk_of(queue[0], budget, max, request_local) {
            Some(chunk) => {
                lemma_chunk_verdict(queue[0], budget, max, request_local);
                lemma_total_of_taken(queue, budget, max, request_local);
                lemma_step_keeps_its_bound(
                    queue.drop_first(),
                    (budget - chunk) as nat,
                    max,
                    request_local,
                );
            },
            None => {
                lemma_step_keeps_its_bound(queue.drop_first(), budget, max, request_local);
            },
        }
    }
}

/// A step leaves no token of its bound unused while a request that can be cut waits: where
/// prompts are cut to the step, only echo requests too long for the rest of it are left,
/// or the bound is used up. A request that is taken without being the last of such a step
/// is taken to its end.
pub proof fn lemma_step_uses_its_bound(
    queue: Seq<PendingRequest>,
    budget: nat,
    max: nat,
    k: int,
)
    requires
        budget <= usize::MAX,
        0 <= k < left_of(queue, budget, max, false).len(),
    ensures
        ({
            let left = left_of(queue, budget, max, false);
            let used = chunk_total(taken_of(queue, budget, max, false));
            used == budget || (left[k].echo && left[k].remaining() + used > budget)
        }),
    decreases queue.len(),
{
    if queue.len() > 0 && budget > 0 {
        let rest = queue.drop_first();
        lemma_chunk_verdict(queue[0], budget, max, false);
        match chunk_of(queue[0], budget, max, false) {
            Some(chunk) => {
                lemma_total_of_taken(queue, budget, max, false);
                lemma_step_uses_its_bound(rest, (budget - chunk) as nat, max, k);
            },
            None => {
                if k > 0 {
                    lemma_step_uses_its_bound(rest, budget, max, k - 1);
                }
            },
        }
    }
}

/// Where the requests of a step stood in the queue, and where those it leaves did: both
/// keep their order, and nothing of a request changes but the chunk of one that is taken.
pub proof fn lemma_step_keeps_order(
    queue: Seq<PendingRequest>,
    budget: nat,
    max: nat,
    request_local: bool,
) -> (places: (Seq<int>, Seq<int>))
    ensures
        ({
            let taken = taken_of(queue, budget, max, request_local);
            let left = left_of(queue, budget, max, request_local);
            &&& places.0.len() == taken.len()
            &&& places.1.len() == left.len()
            &&& forall|k: int|
                0 <= k < taken.len() ==> 0 <= #[trigger] places.0[k] < queue.len()
                    && taken[k].with_chunk(0) == queue[places.0[k]].with_chunk(0)
            &&& forall|k: int|
                0 <= k < left.len() ==> 0 <= #[trigger] places.1[k] < queue.len() && left[k]
                    == queue[places.1[k]]
            &&& forall|i: int, j: int|
                0 <= i < j < taken.len() ==> #[trigger] places.0[i] < #[trigger] places.0[j]
            &&& forall|i: int, j: int|
                0 <= i < j < left.len() ==> #[trigger] places.1[i] < #[trigger] places.1[j]
        }),
    decreases queue.len(),
{
    if queue.len() == 0 || budget == 0 {
        (Seq::empty(), Seq::new(queue.len(), |k: int| k))
    } else {
        let rest = queue.drop_first();
        match chunk_of(queue[0], budget, max, request_local) {
            Some(chunk) => {
                let later = lemma_step_keeps_order(
                    rest,
                    (budget - chunk) as nat,
                    max,
                    request_local,
                );
                (
                    Seq::new(
                        later.0.len() + 1,
                        |k: int|
                            if k == 0 {
                                0
                            } else {
                                later.0[k - 1] + 1
                            },
                    ),
                    Seq::new(later.1.len(), |k: int| later.1[k] + 1),
                )
            },
            None => {
                let later = lemma_step_keeps_order(rest, budget, max, request_local);
                (
                    Seq::new(later.0.len(), |k: int| later.0[k] + 1),
                    Seq::new(
                        later.1.len() + 1,
                        |k: int|
                            if k == 0 {
                                0
                            } else {
                                later.1[k - 1] + 1
                            },
                    ),
                )
            },
        }
    }
}

} // verus!
