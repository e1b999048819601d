//! Order of floats, read off their bit patterns.
use vstd::prelude::*;

verus! {

/// The pattern without its sign.
pub open spec fn magnitude(bits: u32) -> int {
    bits as int % 0x8000_0000
}

pub open spec fn negative(bits: u32) -> bool {
    bits >= 0x8000_0000
}

pub open spec fn is_nan(bits: u32) -> bool {
    magnitude(bits) > 0x7f80_0000
}

/// A number that orders patterns as the floats they stand for. Both zeros have
/// the same.
pub open spec fn order_of(bits: u32) -> int {
    if negative(bits) {
        -magnitude(bits)
    } else {
        magnitude(bits)
    }
}

/// `a > b` as floats.
pub open spec fn above(a: u32, b: u32) -> bool {
    !is_nan(a) && !is_nan(b) && order_of(a) > order_of(b)
}

/// `a >= b` as floats.
pub open spec fn at_least(a: u32, b: u32) -> bool {
    !is_nan(a) && !is_nan(b) && order_of(a) >= order_of(b)
}

/// The pattern of one.
pub const ONE_BITS: u32 = 0x3f80_0000;

/// The pattern of zero.
pub const ZERO_BITS: u32 = 0;

pub fn nan_bits(bits: u32) -> (r: bool)
    ensures
        r == is_nan(bits),
{
    bits % 0x8000_0000 > 0x7f80_0000
}

fn order_bits(bits: u32) -> (r: i64)
    ensures
        r == order_of(bits),
{
    let size: i64 = (bits % 0x8000_0000) as i64;
    if bits >= 0x8000_0000 {
        -size
    } else {
        size
    }
}

pub fn above_bits(a: u32, b: u32) -> (r: bool)
    ensures
        r == above(a, b),
{
    !nan_bits(a) && !nan_bits(b) && order_bits(a) > order_bits(b)
}

pub fn at_least_bits(a: u32, b: u32) -> (r: bool)
    ensures
        r == at_least(a, b),
{
    !nan_bits(a) && !nan_bits(b) && order_bits(a) >= order_bits(b)
}

/// The place that a fold from the left ends on, where a later value takes over
/// unless the best so far is above it.
pub open spec fn last_best(values: Seq<u32>) -> int
    decreases values.len(),
{
    if values.len() <= 1 {
        0
    } else {
        let best = last_best(values.drop_last());
        if above(values[best], values.last()) {
            best
        } else {
            values.len() - 1
        }
    }
}

proof fn lemma_last_best_in_range(values: Seq<u32>)
    requires
        values.len() > 0,
    ensures
        0 <= last_best(values) < values.len(),
    decreases values.len(),
{
    if values.len() > 1 {
        lemma_last_best_in_range(values.drop_last());
    }
}

/// Where no value is a NaN, the greedy choice is the last of the greatest.
pub proof fn lemma_last_best_is_greatest(values: Seq<u32>)
    requires
        values.len() > 0,
        forall|i: int| 0 <= i < values.len() ==> !is_nan(#[trigger] values[i]),
    ensures
        0 <= last_best(values) < values.len(),
        forall|i: int|
            0 <= i < values.len() ==> order_of(#[trigger] values[i]) <= order_of(
                values[last_best(values)],
            ),
        forall|i: int|
            last_best(values) < i < values.len() ==> order_of(#[trigger] values[i]) < order_of(
                values[last_best(values)],
            ),
    decreases values.len(),
{
    if values.len() > 1 {
        let head = values.drop_last();
        assert forall|i: int| 0 <= i < head.len() implies !is_nan(#[trigger] head[i]) by {
            assert(head[i] == values[i]);
        }
        lemma_last_best_is_greatest(head);
        let best = last_best(head);
        assert forall|i: int| 0 <= i < head.len() implies (#[trigger] values[i]) == head[i] by {}
        assert(!is_nan(values[values.len() - 1]));
        assert(!is_nan(values[best]));
        assert forall|i: int| 0 <= i < values.len() implies order_of(#[trigger] values[i])
            <= order_of(values[last_best(values)]) by {
            if i < head.len() {
                assert(head[i] == values[i]);
            }
        }
        assert forall|i: int| last_best(values) < i < values.len() implies order_of(
            #[trigger] values[i],
        ) < order_of(values[last_best(values)]) by {
            if i < head.len() {
                assert(head[i] == values[i]);
            }
        }
    }
}

/// The greedy choice among values.
pub fn argmax_bits(values: &[u32]) -> (best: usize)
    requires
        values@.len() > 0,
    ensures
        best == last_best(values@),
        best < values@.len(),
{
    let mut best: usize = 0;
    let mut i: usize = 1;
    assert(values@.take(1).len() == 1);
    while i < values.len()
        invariant
            1 <= i <= values.len(),
            best == last_best(values@.take(i as int)),
            best < i,
        decreases values.len() - i,
    {
        assert(values@.take(i as int + 1).drop_last() =~= values@.take(i as int));
        if !above_bits(values[best], values[i]) {
            best = i;
        }
        i = i + 1;
    }
    assert(values@.take(i as int) =~= values@);
    best
}

/// The pattern of a double without its sign.
pub open spec fn wide_magnitude(bits: u64) -> int {
    bits as int % 0x8000_0000_0000_0000
}

/// The double is a number above zero.
pub open spec fn wide_positive(bits: u64) -> bool {
    &&& bits < 0x8000_0000_0000_0000
    &&& 0 < wide_magnitude(bits) <= 0x7ff0_0000_0000_0000
}

/// The double is at least zero and at most one. Both zeros are zero.
pub open spec fn wide_in_unit(bits: u64) -> bool {
    wide_magnitude(bits) == 0 || bits <= 0x3ff0_0000_0000_0000
}

pub fn wide_positive_bits(bits: u64) -> (r: bool)
    ensures
        r == wide_positive(bits),
{
    bits < 0x8000_0000_0000_0000 && bits > 0 && bits <= 0x7ff0_0000_0000_0000
}

pub fn wide_in_unit_bits(bits: u64) -> (r: bool)
    ensures
        r == wide_in_unit(bits),
{
    bits % 0x8000_0000_0000_0000 == 0 || bits <= 0x3ff0_0000_0000_0000
}

/// A number that orders the patterns of doubles as the doubles they stand for.
pub open spec fn wide_order_of(bits: u64) -> int {
    if bits >= 0x8000_0000_0000_0000 {
        -wide_magnitude(bits)
    } else {
        wide_magnitude(bits)
    }
}

/// `a > b` as doubles, where `b` is a number.
pub open spec fn wide_above(a: u64, b: u64) -> bool {
    wide_magnitude(a) <= 0x7ff0_0000_0000_0000 && wide_order_of(a) > wide_order_of(b)
}

pub fn wide_above_bits(a: u64, b: u64) -> (r: bool)
    requires
        wide_magnitude(b) <= 0x7ff0_0000_0000_0000,
    ensures
        r == wide_above(a, b),
{
    let size_a: u64 = a % 0x8000_0000_0000_0000;
    let size_b: u64 = b % 0x8000_0000_0000_0000;
    if size_a > 0x7ff0_0000_0000_0000 {
        false
    } else if a >= 0x8000_0000_0000_0000 {
        b >= 0x8000_0000_0000_0000 && size_a < size_b
    } else if b >= 0x8000_0000_0000_0000 {
        size_a > 0 || size_b > 0
    } else {
        size_a > size_b
    }
}

/// Patterns compare as the floats they stand for: of two numbers one is above the other or
/// they are equal; a NaN is above nothing and below nothing; without a sign the greater
/// pattern is above, with one the lesser; and any number without a sign is at least any
/// with one, the two zeros being equal.
pub proof fn lemma_float_order(a: u32, b: u32)
    ensures
        is_nan(a) ==> !above(a, b) && !above(b, a) && !at_least(a, b) && !at_least(b, a),
        !is_nan(a) && !is_nan(b) ==> (at_least(a, b) <==> !above(b, a)),
        above(a, b) ==> !above(b, a),
        !is_nan(a) && !is_nan(b) && a < 0x8000_0000 && b < 0x8000_0000 ==> (above(a, b) <==> a
            > b),
        !is_nan(a) && !is_nan(b) && a >= 0x8000_0000 && b >= 0x8000_0000 ==> (above(a, b) <==> a
            < b),
        !is_nan(a) && !is_nan(b) && a < 0x8000_0000 && b >= 0x8000_0000 ==> at_least(a, b) && (
        above(a, b) <==> !(a == 0 && b == 0x8000_0000)),
        above(ONE_BITS, ZERO_BITS),
        is_nan(a) <==> 0x7f80_0000 < a < 0x8000_0000 || a > 0xff80_0000,
{
}

/// A double is above zero, or within zero and one, exactly when its order says so and it
/// is a number.
pub proof fn lemma_wide_order(a: u64, b: u64)
    ensures
        wide_positive(a) <==> wide_magnitude(a) <= 0x7ff0_0000_0000_0000 && wide_order_of(a) > 0,
        wide_in_unit(a) <==> 0 <= wide_order_of(a) <= 0x3ff0_0000_0000_0000,
        a < 0x8000_0000_0000_0000 && b < 0x8000_0000_0000_0000 ==> (wide_order_of(a)
            > wide_order_of(b) <==> a > b),
        a >= 0x8000_0000_0000_0000 && b >= 0x8000_0000_0000_0000 ==> (wide_order_of(a)
            > wide_order_of(b) <==> a < b),
        wide_above(a, b) ==> wide_magnitude(a) <= 0x7ff0_0000_0000_0000 && !(wide_magnitude(b)
            <= 0x7ff0_0000_0000_0000 && wide_above(b, a)),
{
}

} // verus!
