//! Spans of time, in nanoseconds.
use vstd::prelude::*;

verus! {

/// The longest span: the largest number of whole seconds and all but one
/// nanosecond of another.
pub const MAX_NANOS: u128 = 18_446_744_073_709_551_615_999_999_999;

/// A span of time.
#[derive(Clone, Copy, Debug, PartialEq, Eq, Structural)]
pub struct Duration {
    nanos: u128,
}

impl Duration {
    pub closed spec fn spec_nanos(self) -> nat {
        self.nanos as nat
    }

    pub fn zero() -> (r: Self)
        ensures
            r.spec_nanos() == 0,
    {
        Duration { nanos: 0 }
    }

    pub fn from_nanos(nanos: u64) -> (r: Self)
        ensures
            r.spec_nanos() == nanos,
    {
        Duration { nanos: nanos as u128 }
    }

    pub fn from_micros(micros: u64) -> (r: Self)
        ensures
            r.spec_nanos() == 1000 * micros,
    {
        Duration { nanos: micros as u128 * 1000 }
    }

    pub fn nanos(&self) -> (r: u128)
        ensures
            r == self.spec_nanos(),
    {
        self.nanos
    }

    pub fn is_zero(&self) -> (r: bool)
        ensures
            r == (self.spec_nanos() == 0),
    {
        self.nanos == 0
    }

    /// The span since an earlier point; none where the other point is later.
    pub fn since(&self, earlier: Duration) -> (r: Self)
        ensures
            r.spec_nanos() == elapsed(*self, earlier),
    {
        if self.nanos >= earlier.nanos {
            Duration { nanos: self.nanos - earlier.nanos }
        } else {
            Duration { nanos: 0 }
        }
    }

    pub fn shorter_than(&self, other: Duration) -> (r: bool)
        ensures
            r == (self.spec_nanos() < other.spec_nanos()),
    {
        self.nanos < other.nanos
    }

    pub(crate) fn plus(&self, other: Duration) -> (r: Self)
        requires
            self.spec_nanos() + other.spec_nanos() <= MAX_NANOS,
        ensures
            r.spec_nanos() == self.spec_nanos() + other.spec_nanos(),
    {
        Duration { nanos: self.nanos + other.nanos }
    }

    pub(crate) fn split(&self, parts: u32) -> (r: Self)
        requires
            parts > 0,
        ensures
            r.spec_nanos() == self.spec_nanos() / parts as nat,
    {
        Duration { nanos: self.nanos / parts as u128 }
    }
}

/// Nanoseconds between two points, not below zero.
pub open spec fn elapsed(later: Duration, earlier: Duration) -> nat {
    if later.spec_nanos() >= earlier.spec_nanos() {
        (later.spec_nanos() - earlier.spec_nanos()) as nat
    } else {
        0
    }
}

/// Two spans of the same length are the same.
pub proof fn lemma_same_span(a: Duration, b: Duration)
    requires
        a.spec_nanos() == b.spec_nanos(),
    ensures
        a == b,
{
}

/// The sum of spans.
pub open spec fn total_of(spans: Seq<Duration>) -> nat
    decreases spans.len(),
{
    if spans.len() == 0 {
        0
    } else {
        total_of(spans.drop_last()) + spans.last().spec_nanos()
    }
}

pub(crate) proof fn lemma_total_prefix(spans: Seq<Duration>, n: int)
    requires
        0 <= n <= spans.len(),
    ensures
        total_of(spans.take(n)) <= total_of(spans),
    decreases spans.len() - n,
{
    if n == spans.len() {
        assert(spans.take(n) =~= spans);
    } else {
        assert(spans.take(n + 1).drop_last() =~= spans.take(n));
        lemma_total_prefix(spans, n + 1);
    }
}

pub fn sum(spans: &[Duration]) -> (r: Duration)
    requires
        total_of(spans@) <= MAX_NANOS,
    ensures
        r.spec_nanos() == total_of(spans@),
{
    let mut total = Duration::zero();
    let mut i: usize = 0;
    assert(spans@.take(0) =~= Seq::<Duration>::empty());
    while i < spans.len()
        invariant
            i <= spans.len(),
            total_of(spans@) <= MAX_NANOS,
            total.spec_nanos() == total_of(spans@.take(i as int)),
        decreases spans.len() - i,
    {
        proof {
            assert(spans@.take(i as int + 1).drop_last() =~= spans@.take(i as int));
            lemma_total_prefix(spans@, i as int + 1);
        }
        total = total.plus(spans[i]);
        i = i + 1;
    }
    assert(spans@.take(i as int) =~= spans@);
    total
}

/// The time elapsed is the least that, added to the earlier moment, reaches the later.
pub proof fn lemma_elapsed_is_least(later: Duration, earlier: Duration, span: nat)
    ensures
        elapsed(later, earlier) <= span <==> later.spec_nanos() <= earlier.spec_nanos() + span,
{
}

/// The sum of spans counts every one of them once, in whatever parts they are added.
pub proof fn lemma_total_counts_every_span(a: Seq<Duration>, b: Seq<Duration>, span: Duration)
    ensures
        total_of(a + b) == total_of(a) + total_of(b),
        total_of(seq![span]) == span.spec_nanos(),
        total_of(Seq::<Duration>::empty()) == 0,
    decreases b.len(),
{
    reveal_with_fuel(total_of, 2);
    assert(seq![span].drop_last() =~= Seq::<Duration>::empty());
    if b.len() == 0 {
        assert(a + b =~= a);
    } else {
        lemma_total_counts_every_span(a, b.drop_last(), span);
        assert((a + b).drop_last() =~= a + b.drop_last());
    }
}

} // verus!
