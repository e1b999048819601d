//! Rounding and saturating arithmetic on sizes.
use vstd::prelude::*;

verus! {

/// `n` capped at the largest size.
pub open spec fn saturated(n: int) -> usize {
    if n > usize::MAX {
        usize::MAX
    } else {
        n as usize
    }
}

/// Difference that stops at zero.
pub open spec fn monus(a: nat, b: nat) -> nat {
    if a > b {
        (a - b) as nat
    } else {
        0
    }
}

pub open spec fn min_nat(a: nat, b: nat) -> nat {
    if a <= b {
        a
    } else {
        b
    }
}

pub open spec fn max_nat(a: nat, b: nat) -> nat {
    if a >= b {
        a
    } else {
        b
    }
}

/// The least number of groups of `d` that hold `n`.
pub open spec fn ceil_div(n: nat, d: nat) -> nat {
    ((n + d - 1) / d as int) as nat
}

pub fn saturating_mul(a: usize, b: usize) -> (r: usize)
    ensures
        r == saturated(a * b),
{
    match a.checked_mul(b) {
        Some(product) => product,
        None => usize::MAX,
    }
}

pub fn min_size(a: usize, b: usize) -> (r: usize)
    ensures
        r == min_nat(a as nat, b as nat),
{
    if a <= b {
        a
    } else {
        b
    }
}

pub fn max_size(a: usize, b: usize) -> (r: usize)
    ensures
        r == max_nat(a as nat, b as nat),
{
    if a >= b {
        a
    } else {
        b
    }
}

/// Division that rounds up.
pub fn div_ceil(n: usize, d: usize) -> (r: usize)
    requires
        d > 0,
    ensures
        r == ceil_div(n as nat, d as nat),
        r <= n,
{
    let q: usize = n / d;
    let rest: usize = n % d;
    proof {
        let (n, d, q, rest) = (n as int, d as int, q as int, rest as int);
        assert(n == d * q + rest && 0 <= rest < d) by {
            vstd::arithmetic::div_mod::lemma_fundamental_div_mod(n, d);
        }
        if rest > 0 {
            assert(n + d - 1 == (q + 1) * d + (rest - 1)) by (nonlinear_arith)
                requires
                    n == d * q + rest,
            ;
            vstd::arithmetic::div_mod::lemma_fundamental_div_mod_converse(
                n + d - 1,
                d,
                q + 1,
                rest - 1,
            );
            assert(q + 1 <= n) by (nonlinear_arith)
                requires
                    n == d * q + rest,
                    rest > 0,
                    d > 0,
                    q >= 0,
            ;
        } else {
            assert(n + d - 1 == q * d + (d - 1)) by (nonlinear_arith)
                requires
                    n == d * q,
            ;
            vstd::arithmetic::div_mod::lemma_fundamental_div_mod_converse(
                n + d - 1,
                d,
                q,
                d - 1,
            );
            assert(q <= n) by (nonlinear_arith)
                requires
                    n == d * q,
                    d > 0,
                    q >= 0,
            ;
        }
    }
    if rest > 0 {
        q + 1
    } else {
        q
    }
}

/// `ceil_div` is the least `k` with `k * d >= n`.
pub proof fn lemma_ceil_div_bounds(n: nat, d: nat)
    requires
        d > 0,
    ensures
        ceil_div(n, d) * d >= n,
        (ceil_div(n, d) - 1) * d < n,
        ceil_div(n, d) <= n,
{
    let q = (n + d - 1) / d as int;
    vstd::arithmetic::div_mod::lemma_fundamental_div_mod(n + d - 1, d as int);
    let rest = (n + d - 1) % d as int;
    assert(q * d >= n && (q - 1) * d < n && q <= n && q >= 0) by (nonlinear_arith)
        requires
            n + d - 1 == d * q + rest,
            0 <= rest < d,
            d > 0,
            n >= 0,
    ;
}

/// A group count reaches `ceil_div` exactly when its groups hold everything.
pub proof fn lemma_ceil_div_is_least(n: nat, d: nat, k: nat)
    requires
        d > 0,
    ensures
        ceil_div(n, d) <= k <==> n <= k * d,
{
    lemma_ceil_div_bounds(n, d);
    let c = ceil_div(n, d);
    if c <= k {
        assert(c * d <= k * d) by (nonlinear_arith)
            requires
                c <= k,
        ;
    } else {
        assert(k * d <= (c - 1) * d) by (nonlinear_arith)
            requires
                k <= c - 1,
        ;
    }
}

/// The cut-off difference is the least addition that brings `b` up to `a`.
pub proof fn lemma_monus_is_least(a: nat, b: nat, more: nat)
    ensures
        monus(a, b) <= more <==> a <= b + more,
{
}

/// The lesser of two is reached by what reaches neither bound, the greater bounds what
/// is bounded by both.
pub proof fn lemma_min_max_bounds(a: nat, b: nat, n: nat)
    ensures
        n <= min_nat(a, b) <==> n <= a && n <= b,
        max_nat(a, b) <= n <==> a <= n && b <= n,
{
}

/// A capped number lies above the same sizes as the number itself.
pub proof fn lemma_saturated_keeps_sizes(n: int, size: usize)
    requires
        n >= 0,
    ensures
        size <= saturated(n) <==> size <= n,
        n <= usize::MAX ==> saturated(n) == n,
{
}

} // verus!
