//! Requests parked while their KV prefetch loads, and LoRA adapter checks.
use vstd::prelude::*;
use vstd::string::*;
use crate::engine::TokenEvent;
use crate::scheduler::request::{PendingRequest, RequestId};

verus! {

/// The first request of `s` with this id.
pub open spec fn position_of(s: Seq<PendingRequest>, id: RequestId) -> Option<int>
    decreases s.len(),
{
    if s.len() == 0 {
        None
    } else if s[0].request_id == id {
        Some(0)
    } else {
        match position_of(s.drop_first(), id) {
            Some(i) => Some(i + 1),
            None => None,
        }
    }
}

/// A settled request moves from `loading` to the front of `deferred`: its KV is
/// hot, so it is admitted first. An unknown id changes nothing.
pub open spec fn promote_one(
    deferred: Seq<PendingRequest>,
    loading: Seq<PendingRequest>,
    id: RequestId,
) -> (Seq<PendingRequest>, Seq<PendingRequest>) {
    match position_of(loading, id) {
        Some(i) => (seq![loading[i]] + deferred, loading.remove(i)),
        None => (deferred, loading),
    }
}

/// `ready` settles in order.
pub open spec fn promote_all(
    deferred: Seq<PendingRequest>,
    loading: Seq<PendingRequest>,
    ready: Seq<RequestId>,
) -> (Seq<PendingRequest>, Seq<PendingRequest>)
    decreases ready.len(),
{
    if ready.len() == 0 {
        (deferred, loading)
    } else {
        let before = promote_all(deferred, loading, ready.drop_last());
        promote_one(before.0, before.1, ready.last())
    }
}

proof fn lemma_position_of(s: Seq<PendingRequest>, id: RequestId)
    ensures
        match position_of(s, id) {
            Some(i) => {
                &&& 0 <= i < s.len()
                &&& s[i].request_id == id
                &&& forall|k: int| 0 <= k < i ==> (#[trigger] s[k]).request_id != id
            },
            None => forall|k: int| 0 <= k < s.len() ==> (#[trigger] s[k]).request_id != id,
        },
    decreases s.len(),
{
    if s.len() > 0 && s[0].request_id != id {
        let rest = s.drop_first();
        lemma_position_of(rest, id);
        match position_of(rest, id) {
            Some(i) => {
                assert forall|k: int| 0 <= k < i + 1 implies (#[trigger] s[k]).request_id != id by {
                    if k > 0 {
                        assert(s[k] == rest[k - 1]);
                    }
                }
            },
            None => {
                assert forall|k: int| 0 <= k < s.len() implies (#[trigger] s[k]).request_id
                    != id by {
                    if k > 0 {
                        assert(s[k] == rest[k - 1]);
                    }
                }
            },
        }
    }
}

pub fn promote_ready(
    ready: &[RequestId],
    deferred: &mut Vec<PendingRequest>,
    loading: &mut Vec<PendingRequest>,
)
    ensures
        (final(deferred)@, final(loading)@) == promote_all(
            old(deferred)@,
            old(loading)@,
            ready@,
        ),
{
    let mut n: usize = 0;
    assert(ready@.take(0) =~= Seq::<RequestId>::empty());
    while n < ready.len()
        invariant
            n <= ready.len(),
            (deferred@, loading@) == promote_all(
                old(deferred)@,
                old(loading)@,
                ready@.take(n as int),
            ),
        decreases ready.len() - n,
    {
        let id = ready[n];
        let ghost before = loading@;
        proof {
            assert(ready@.take(n as int + 1).drop_last() =~= ready@.take(n as int));
            lemma_position_of(loading@, id);
        }
        let mut i: usize = 0;
        while i < loading.len() && loading[i].request_id != id
            invariant
                i <= loading.len(),
                loading@ == before,
                forall|k: int| 0 <= k < i ==> (#[trigger] before[k]).request_id != id,
            decreases loading.len() - i,
        {
            i = i + 1;
        }
        if i < loading.len() {
            assert(before[i as int].request_id == id);
            assert(position_of(before, id) == Some(i as int));
            let ghost waiting = deferred@;
            let req = loading.remove(i);
            deferred.insert(0, req);
            assert(deferred@ =~= seq![before[i as int]] + waiting);
        }
        n = n + 1;
    }
    assert(ready@.take(n as int) =~= ready@);
}

impl PendingRequest {
    /// Whether the request is still to be offered to KV prefetch. Echo requests
    /// never are: their prefill forwards the whole prompt, so prefetched blocks
    /// would be parked without ever being reused.
    pub open spec fn offerable(self) -> bool {
        !self.prefetch_offered && !self.echo
    }

    pub fn wants_prefetch(&self) -> (r: bool)
        ensures
            r == self.offerable(),
    {
        !self.prefetch_offered && !self.echo
    }

    /// The request after its turn in an offer pass.
    pub open spec fn after_offer(self) -> PendingRequest {
        if self.offerable() {
            PendingRequest { prefetch_offered: true, ..self }
        } else {
            self
        }
    }
}

/// The requests an offer pass parks: those that were offerable and whose load
/// started.
pub open spec fn started_of(s: Seq<PendingRequest>, started: Seq<bool>) -> Seq<PendingRequest>
    decreases s.len(),
{
    if s.len() == 0 {
        Seq::empty()
    } else {
        let before = started_of(s.drop_last(), started);
        if s.last().offerable() && started[s.len() - 1] {
            before.push(s.last().after_offer())
        } else {
            before
        }
    }
}

/// The requests an offer pass keeps waiting, flagged so that none is offered
/// twice.
pub open spec fn kept_of(s: Seq<PendingRequest>, started: Seq<bool>) -> Seq<PendingRequest>
    decreases s.len(),
{
    if s.len() == 0 {
        Seq::empty()
    } else {
        let before = kept_of(s.drop_last(), started);
        if s.last().offerable() && started[s.len() - 1] {
            before
        } else {
            before.push(s.last().after_offer())
        }
    }
}

/// Settles an offer pass. `started[i]` is the executor's answer for the `i`-th
/// deferred request; it counts only where the request was offerable.
pub fn offer_prefetch(
    deferred: &mut Vec<PendingRequest>,
    loading: &mut Vec<PendingRequest>,
    started: &[bool],
)
    requires
        started@.len() == old(deferred)@.len(),
    ensures
        final(deferred)@ == kept_of(old(deferred)@, started@),
        final(loading)@ == old(loading)@ + started_of(old(deferred)@, started@),
{
    let ghost all = deferred@;
    let ghost parked = loading@;
    let mut queue: Vec<PendingRequest> = Vec::new();
    queue.append(deferred);
    assert(queue@ =~= all);
    let mut keep: Vec<PendingRequest> = Vec::new();
    let mut i: usize = 0;
    assert(all.take(0) =~= Seq::<PendingRequest>::empty());
    assert(parked + Seq::<PendingRequest>::empty() =~= parked);
    for req in it: queue
        invariant
            it.seq() == all,
            i == it.index(),
            started@.len() == all.len(),
            keep@ == kept_of(all.take(it.index() as int), started@),
            loading@ == parked + started_of(all.take(it.index() as int), started@),
    {
        proof {
            let next = all.take(it.index() as int + 1);
            assert(next.drop_last() =~= all.take(it.index() as int));
            assert(next.last() == req);
        }
        let mut req = req;
        if req.wants_prefetch() {
            req.prefetch_offered = true;
            if started[i] {
                loading.push(req);
                assert(loading@ =~= parked + started_of(
                    all.take(it.index() as int + 1),
                    started@,
                ));
            } else {
                keep.push(req);
            }
        } else {
            keep.push(req);
        }
        i = i + 1;
    }
    assert(all.take(all.len() as int) =~= all);
    *deferred = keep;
}

/// An offer pass loses no request and invents none, and afterwards none is
/// offerable: a request is offered at most once.
pub proof fn lemma_offered_at_most_once(s: Seq<PendingRequest>, started: Seq<bool>)
    ensures
        s.map_values(|r: PendingRequest| r.after_offer()).to_multiset() == started_of(
            s,
            started,
        ).to_multiset().add(kept_of(s, started).to_multiset()),
        forall|i: int|
            0 <= i < kept_of(s, started).len() ==> !(#[trigger] kept_of(s, started)[i]).offerable(),
        forall|i: int|
            0 <= i < started_of(s, started).len() ==> !(#[trigger] started_of(
                s,
                started,
            )[i]).offerable(),
    decreases s.len(),
{
    broadcast use vstd::seq_lib::group_to_multiset_ensures;

    let offered = |r: PendingRequest| r.after_offer();
    if s.len() == 0 {
        assert(s.map_values(offered) =~= Seq::<PendingRequest>::empty());
    } else {
        lemma_offered_at_most_once(s.drop_last(), started);
        assert(s.map_values(offered) =~= s.drop_last().map_values(offered).push(
            s.last().after_offer(),
        ));
    }
    assert(s.map_values(offered).to_multiset() =~= started_of(s, started).to_multiset().add(
        kept_of(s, started).to_multiset(),
    ));
}

/// The adapter a request names is loaded, or it names none.
pub open spec fn adapter_known(req: PendingRequest, loaded: Seq<String>) -> bool {
    match req.lora_adapter {
        Some(adapter) => exists|i: int|
            0 <= i < loaded.len() && (#[trigger] loaded[i])@ == adapter@,
        None => true,
    }
}

pub struct LoraValidationOutcome {
    pub accepted: Vec<PendingRequest>,
    pub rejected: Vec<PendingRequest>,
}

/// Whether any waiting request names an adapter, so that the loaded ones have to
/// be listed.
pub fn needs_adapter_list(deferred: &[PendingRequest]) -> (r: bool)
    ensures
        r == exists|i: int|
            0 <= i < deferred@.len() && (#[trigger] deferred@[i]).lora_adapter is Some,
{
    let mut i: usize = 0;
    while i < deferred.len()
        invariant
            i <= deferred.len(),
            forall|k: int| 0 <= k < i ==> (#[trigger] deferred@[k]).lora_adapter is None,
        decreases deferred.len() - i,
    {
        if deferred[i].lora_adapter.is_some() {
            return true;
        }
        i = i + 1;
    }
    false
}

/// Separates the requests whose adapter is not loaded, keeping the order of both.
pub fn reject_unknown_lora_requests(deferred: Vec<PendingRequest>, loaded: &[String]) -> (r:
    LoraValidationOutcome)
    ensures
        r.accepted@ == deferred@.filter(|q: PendingRequest| adapter_known(q, loaded@)),
        r.rejected@ == deferred@.filter(|q: PendingRequest| !adapter_known(q, loaded@)),
{
    let ghost all = deferred@;
    let ghost known = |q: PendingRequest| adapter_known(q, loaded@);
    let ghost unknown = |q: PendingRequest| !adapter_known(q, loaded@);
    let mut accepted: Vec<PendingRequest> = Vec::new();
    let mut rejected: Vec<PendingRequest> = Vec::new();
    assert(all.take(0) =~= Seq::<PendingRequest>::empty());
    proof {
        reveal(Seq::filter);
    }
    for req in it: deferred
        invariant
            it.seq() == all,
            known == (|q: PendingRequest| adapter_known(q, loaded@)),
            unknown == (|q: PendingRequest| !adapter_known(q, loaded@)),
            accepted@ == all.take(it.index() as int).filter(known),
            rejected@ == all.take(it.index() as int).filter(unknown),
    {
        proof {
            let done = all.take(it.index() as int);
            assert(all.take(it.index() as int + 1) =~= done.push(req));
            done.lemma_filter_push(req, known);
            done.lemma_filter_push(req, unknown);
        }
        let is_known = match &req.lora_adapter {
            None => true,
            Some(adapter) => contains_text(loaded, adapter),
        };
        if is_known {
            accepted.push(req);
        } else {
            rejected.push(req);
        }
    }
    assert(all.take(all.len() as int) =~= all);
    LoraValidationOutcome { accepted, rejected }
}

fn contains_text(texts: &[String], wanted: &String) -> (r: bool)
    ensures
        r == exists|i: int| 0 <= i < texts@.len() && (#[trigger] texts@[i])@ == wanted@,
{
    let mut i: usize = 0;
    while i < texts.len()
        invariant
            i <= texts.len(),
            forall|k: int| 0 <= k < i ==> (#[trigger] texts@[k])@ != wanted@,
        decreases texts.len() - i,
    {
        if texts[i] == *wanted {
            assert(texts@[i as int]@ == wanted@);
            return true;
        }
        i = i + 1;
    }
    false
}

/// The event says that the request's adapter is unknown.
pub open spec fn says_unknown_lora(req: PendingRequest, event: TokenEvent) -> bool {
    event matches TokenEvent::Rejected { message, prompt_tokens, completion_tokens } && message@
        == "LoRA adapter is not loaded: "@ + (match req.lora_adapter {
        Some(adapter) => adapter@,
        None => "<missing>"@,
    }) && prompt_tokens == req.prompt_len() && completion_tokens == 0
}

/// The event a request with an unknown adapter is answered with.
pub fn unknown_lora_event(req: &PendingRequest) -> (event: TokenEvent)
    ensures
        says_unknown_lora(*req, event),
{
    let mut message = String::from_str("LoRA adapter is not loaded: ");
    match &req.lora_adapter {
        Some(adapter) => message.append(adapter.as_str()),
        None => message.append("<missing>"),
    }
    TokenEvent::Rejected {
        message,
        prompt_tokens: req.prompt_tokens.len(),
        completion_tokens: 0,
    }
}

/// Tells the client of an unknown adapter. A client that is gone is ignored.
pub fn send_unknown_lora_rejection(req: &PendingRequest)
    ensures
        exists|event: TokenEvent, sent: Result<(), TokenEvent>| #[trigger]
            req.token_tx.emits(event, sent) && says_unknown_lora(*req, event),
{
    let event = unknown_lora_event(req);
    let ghost said = event;
    let sent = req.token_tx.send(event);
    assert(req.token_tx.emits(said, sent));
}

/// An offer pass parks exactly the requests that were offered and whose load started, and
/// keeps all others waiting, both in their order. A request that echoes its prompt, or was
/// offered before, is never parked, whatever was answered for it.
pub proof fn lemma_offer_verdict(s: Seq<PendingRequest>, started: Seq<bool>, i: int)
    requires
        0 <= i < s.len(),
    ensures
        if !s[i].prefetch_offered && !s[i].echo && started[i] {
            let at = started_of(s.take(i), started).len() as int;
            &&& at < started_of(s, started).len()
            &&& started_of(s, started)[at] == (PendingRequest { prefetch_offered: true, ..s[i] })
        } else {
            let at = kept_of(s.take(i), started).len() as int;
            &&& at < kept_of(s, started).len()
            &&& kept_of(s, started)[at] == (PendingRequest {
                prefetch_offered: s[i].prefetch_offered || !s[i].echo,
                ..s[i]
            })
        },
        started_of(s, started).len() + kept_of(s, started).len() == s.len(),
    decreases s.len(),
{
    let head = s.drop_last();
    lemma_offers_count(head, started);
    if i < head.len() {
        assert(head.take(i) =~= s.take(i));
        lemma_offer_verdict(head, started, i);
    } else {
        assert(s.take(i) =~= head);
    }
}

proof fn lemma_offers_count(s: Seq<PendingRequest>, started: Seq<bool>)
    ensures
        started_of(s, started).len() + kept_of(s, started).len() == s.len(),
    decreases s.len(),
{
    if s.len() > 0 {
        lemma_offers_count(s.drop_last(), started);
    }
}

/// No two requests share an id.
pub open spec fn distinct_ids(s: Seq<PendingRequest>) -> bool {
    forall|i: int, j: int|
        0 <= i < j < s.len() ==> (#[trigger] s[i]).request_id != (#[trigger] s[j]).request_id
}

proof fn lemma_filter_keeps_all(s: Seq<PendingRequest>, p: spec_fn(PendingRequest) -> bool)
    requires
        forall|i: int| 0 <= i < s.len() ==> p(#[trigger] s[i]),
    ensures
        s.filter(p) == s,
    decreases s.len(),
{
    reveal(Seq::filter);
    if s.len() > 0 {
        assert forall|i: int| 0 <= i < s.drop_last().len() implies p(
            #[trigger] s.drop_last()[i],
        ) by {
            assert(s.drop_last()[i] == s[i]);
        }
        lemma_filter_keeps_all(s.drop_last(), p);
        assert(p(s[s.len() - 1]));
        assert(s.drop_last().push(s.last()) =~= s);
    } else {
        assert(s.filter(p) =~= s);
    }
}

proof fn lemma_removed_is_filtered(s: Seq<PendingRequest>, id: RequestId)
    requires
        distinct_ids(s),
    ensures
        ({
            let others = s.filter(|r: PendingRequest| r.request_id != id);
            match position_of(s, id) {
                Some(i) => 0 <= i < s.len() && s.remove(i) == others,
                None => s == others,
            }
        }),
{
    let p = |r: PendingRequest| r.request_id != id;
    lemma_position_of(s, id);
    match position_of(s, id) {
        Some(i) => {
            let head = s.take(i);
            let tail = s.skip(i + 1);
            assert(s =~= (head + seq![s[i]]) + tail);
            Seq::filter_distributes_over_add(head + seq![s[i]], tail, p);
            Seq::filter_distributes_over_add(head, seq![s[i]], p);
            assert forall|k: int| 0 <= k < head.len() implies p(#[trigger] head[k]) by {
                assert(s[k].request_id != id);
            }
            assert forall|k: int| 0 <= k < tail.len() implies p(#[trigger] tail[k]) by {
                assert(s[i].request_id != s[i + 1 + k].request_id);
            }
            lemma_filter_keeps_all(head, p);
            lemma_filter_keeps_all(tail, p);
            assert(seq![s[i]].filter(p) =~= Seq::<PendingRequest>::empty()) by {
                reveal_with_fuel(Seq::filter, 2);
                assert(seq![s[i]].drop_last() =~= Seq::<PendingRequest>::empty());
            }
            assert(s.remove(i) =~= head + tail);
            assert(s.filter(p) =~= head + tail);
        },
        None => {
            assert forall|k: int| 0 <= k < s.len() implies p(#[trigger] s[k]) by {}
            lemma_filter_keeps_all(s, p);
        },
    }
}

proof fn lemma_filter_keeps_distinct(s: Seq<PendingRequest>, p: spec_fn(PendingRequest) -> bool)
    requires
        distinct_ids(s),
    ensures
        distinct_ids(s.filter(p)),
        forall|i: int|
            0 <= i < s.filter(p).len() ==> exists|j: int|
                0 <= j < s.len() && #[trigger] s[j] == #[trigger] s.filter(p)[i],
    decreases s.len(),
{
    reveal(Seq::filter);
    if s.len() > 0 {
        let head = s.drop_last();
        assert(distinct_ids(head)) by {
            assert forall|i: int, j: int| 0 <= i < j < head.len() implies (
            #[trigger] head[i]).request_id != (#[trigger] head[j]).request_id by {
                assert(s[i].request_id != s[j].request_id);
            }
        }
        lemma_filter_keeps_distinct(head, p);
        let kept = s.filter(p);
        assert forall|i: int| 0 <= i < kept.len() implies exists|j: int|
            0 <= j < s.len() && #[trigger] s[j] == #[trigger] kept[i] by {
            if i < head.filter(p).len() {
                assert(kept[i] == head.filter(p)[i]);
                let j = choose|j: int|
                    0 <= j < head.len() && #[trigger] head[j] == head.filter(p)[i];
                assert(s[j] == kept[i]);
            } else {
                assert(s[s.len() - 1] == kept[i]);
            }
        }
        assert forall|i: int, j: int| 0 <= i < j < kept.len() implies (
        #[trigger] kept[i]).request_id != (#[trigger] kept[j]).request_id by {
            assert(kept[i] == head.filter(p)[i]);
            if j < head.filter(p).len() {
                assert(kept[j] == head.filter(p)[j]);
            } else {
                let k = choose|k: int|
                    0 <= k < head.len() && #[trigger] head[k] == head.filter(p)[i];
                assert(s[k].request_id != s[s.len() - 1].request_id);
            }
        }
    }
}

proof fn lemma_filters_join(
    s: Seq<PendingRequest>,
    ready: Seq<RequestId>,
    id: RequestId,
)
    ensures
        s.filter(|r: PendingRequest| !ready.contains(r.request_id)).filter(
            |r: PendingRequest| r.request_id != id,
        ) == s.filter(|r: PendingRequest| !ready.push(id).contains(r.request_id)),
    decreases s.len(),
{
    reveal(Seq::filter);
    let earlier = |r: PendingRequest| !ready.contains(r.request_id);
    let last = |r: PendingRequest| r.request_id != id;
    let both = |r: PendingRequest| !ready.push(id).contains(r.request_id);
    if s.len() > 0 {
        let head = s.drop_last();
        let r = s.last();
        lemma_filters_join(head, ready, id);
        assert(both(r) <==> earlier(r) && last(r)) by {
            if ready.contains(r.request_id) {
                let k = choose|k: int| 0 <= k < ready.len() && ready[k] == r.request_id;
                assert(ready.push(id)[k] == r.request_id);
            }
            if r.request_id == id {
                assert(ready.push(id)[ready.len() as int] == id);
            }
            if ready.push(id).contains(r.request_id) {
                let k = choose|k: int|
                    0 <= k < ready.push(id).len() && ready.push(id)[k] == r.request_id;
                if k < ready.len() {
                    assert(ready[k] == r.request_id);
                }
            }
        }
        if earlier(r) {
            head.filter(earlier).lemma_filter_push(r, last);
        }
    }
    assert(s.filter(earlier).filter(last) =~= s.filter(both));
}

/// Settled prefetches are taken back exactly: what still loads are the requests that did
/// not settle, in their order; those that did wait before everything that waited already,
/// which keeps its order; and no request is lost.
pub proof fn lemma_settled_prefetches_come_first(
    deferred: Seq<PendingRequest>,
    loading: Seq<PendingRequest>,
    ready: Seq<RequestId>,
)
    requires
        distinct_ids(loading),
    ensures
        ({
            let after = promote_all(deferred, loading, ready);
            let back = after.0.len() - deferred.len();
            &&& after.1 == loading.filter(|r: PendingRequest| !ready.contains(r.request_id))
            &&& back >= 0
            &&& back + after.1.len() == loading.len()
            &&& after.0.skip(back) == deferred
            &&& forall|k: int|
                0 <= k < back ==> ready.contains((#[trigger] after.0[k]).request_id)
                    && loading.contains(after.0[k])
        }),
    decreases ready.len(),
{
    let keep = |r: PendingRequest| !ready.contains(r.request_id);
    if ready.len() == 0 {
        lemma_filter_keeps_all(loading, keep);
        assert(deferred.skip(0) =~= deferred);
    } else {
        let head = ready.drop_last();
        let id = ready.last();
        let before = promote_all(deferred, loading, head);
        let after = promote_all(deferred, loading, ready);
        let keep_head = |r: PendingRequest| !head.contains(r.request_id);
        lemma_settled_prefetches_come_first(deferred, loading, head);
        lemma_filter_keeps_distinct(loading, keep_head);
        lemma_removed_is_filtered(before.1, id);
        lemma_position_of(before.1, id);
        lemma_filters_join(loading, head, id);
        assert(head.push(id) =~= ready);
        let done = before.0.len() - deferred.len();
        let back = after.0.len() - deferred.len();
        assert(ready[ready.len() - 1] == id);
        assert forall|other: RequestId| head.contains(other) implies ready.contains(other) by {
            let k = choose|k: int| 0 <= k < head.len() && head[k] == other;
            assert(ready[k] == other);
        }
        match position_of(before.1, id) {
            Some(i) => {
                let found = before.1[i];
                let j = choose|j: int|
                    0 <= j < loading.len() && #[trigger] loading[j] == loading.filter(
                        keep_head,
                    )[i];
                assert(loading.contains(found));
                assert(after.0.skip(back) =~= before.0.skip(done));
                assert forall|k: int| 0 <= k < back implies ready.contains(
                    (#[trigger] after.0[k]).request_id,
                ) && loading.contains(after.0[k]) by {
                    if k > 0 {
                        assert(after.0[k] == before.0[k - 1]);
                    }
                }
            },
            None => {},
        }
    }
}

/// A request is refused for its adapter exactly when it names one that is not loaded; one
/// that names none is never refused.
pub proof fn lemma_adapter_verdict(req: PendingRequest, loaded: Seq<String>)
    ensures
        req.lora_adapter is None ==> adapter_known(req, loaded),
        req.lora_adapter matches Some(adapter) ==> (adapter_known(req, loaded) <==> exists|i: int|
            0 <= i < loaded.len() && (#[trigger] loaded[i])@ == adapter@),
        loaded.len() == 0 ==> (adapter_known(req, loaded) <==> req.lora_adapter is None),
{
}

/// A request whose adapter is not loaded is told so by the adapter's name, with the length
/// of its own prompt, and that nothing was generated.
pub proof fn lemma_unknown_adapter_is_told(req: PendingRequest, event: TokenEvent)
    requires
        call_ensures(unknown_lora_event, (&req,), event),
    ensures
        event is Rejected,
        event->Rejected_prompt_tokens == req.prompt_tokens@.len(),
        event->Rejected_completion_tokens == 0,
        req.lora_adapter matches Some(adapter) ==> {
            let text = event->Rejected_message@;
            &&& text.len() >= adapter@.len()
            &&& text.skip(text.len() - adapter@.len()) == adapter@
        },
{
    if let Some(adapter) = req.lora_adapter {
        let text = event->Rejected_message@;
        assert(text.skip(text.len() - adapter@.len()) =~= adapter@);
    }
}

} // verus!
