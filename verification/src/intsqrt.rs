//! Integer square root: specification and verified executable form.

use vstd::prelude::*;

verus! {

/// The floor of the square root of `n`, defined by counting up.
pub open spec fn sqrt_floor(n: nat) -> nat
    decreases n,
{
    if n == 0 {
        0
    } else {
        let r = sqrt_floor((n - 1) as nat);
        if (r + 1) * (r + 1) <= n {
            (r + 1) as nat
        } else {
            r
        }
    }
}

/// `sqrt_floor(n)` is the unique `r` with `r * r <= n < (r + 1) * (r + 1)`.
pub proof fn lemma_sqrt_floor_bracket(n: nat)
    ensures
        sqrt_floor(n) * sqrt_floor(n) <= n,
        n < (sqrt_floor(n) + 1) * (sqrt_floor(n) + 1),
    decreases n,
{
    if n == 0 {
        assert(sqrt_floor(0) == 0);
        assert(n < (sqrt_floor(n) + 1) * (sqrt_floor(n) + 1)) by (nonlinear_arith)
            requires
                n == 0,
                sqrt_floor(n) == 0,
        ;
    } else {
        lemma_sqrt_floor_bracket((n - 1) as nat);
        let r = sqrt_floor((n - 1) as nat);
        if (r + 1) * (r + 1) <= n {
            let s = sqrt_floor(n);
            assert(s == r + 1);
            assert(n < (s + 1) * (s + 1)) by (nonlinear_arith)
                requires
                    n - 1 < (r + 1) * (r + 1),
                    s == r + 1,
                    0 <= r,
            ;
        } else {
            assert(sqrt_floor(n) == r);
        }
    }
}

pub proof fn lemma_sqrt_floor_unique(n: nat, r: nat)
    requires
        r * r <= n,
        n < (r + 1) * (r + 1),
    ensures
        r == sqrt_floor(n),
{
    lemma_sqrt_floor_bracket(n);
    let s = sqrt_floor(n);
    if r < s {
        assert((r + 1) * (r + 1) <= s * s) by (nonlinear_arith)
            requires
                r < s,
                0 <= r,
        ;
    }
    if s < r {
        assert((s + 1) * (s + 1) <= r * r) by (nonlinear_arith)
            requires
                s < r,
                0 <= s,
        ;
    }
}

/// Bundled facts about a computed root of a positive square: the bracket in
/// `int` arithmetic, and positivity.
pub proof fn lemma_root_facts(d2: int, root: int)
    requires
        1 <= d2,
        0 <= root,
        root == sqrt_floor(d2 as nat),
    ensures
        1 <= root,
        root * root <= d2,
        d2 < (root + 1) * (root + 1),
{
    lemma_sqrt_floor_bracket(d2 as nat);
    assert(root >= 1) by (nonlinear_arith)
        requires
            1 <= d2,
            0 <= root,
            d2 < (root + 1) * (root + 1),
    ;
}

/// Binary-search integer square root.
pub fn isqrt128(n: u128) -> (r: u128)
    ensures
        r as nat == sqrt_floor(n as nat),
        r * r <= n,
        (r + 1) * (r + 1) > n,
{
    let mut lo: u128 = 0;
    let mut hi: u128 = 18446744073709551616;
    assert(n < hi * hi) by (nonlinear_arith)
        requires
            hi == 18446744073709551616u128,
            n <= u128::MAX,
    ;
    while lo + 1 < hi
        invariant
            lo < hi,
            hi <= 18446744073709551616,
            lo * lo <= n,
            n < hi * hi,
        decreases hi - lo,
    {
        let mid: u128 = lo + (hi - lo) / 2;
        assert(mid * mid < 340282366920938463463374607431768211455u128) by (nonlinear_arith)
            requires
                mid < 18446744073709551616u128,
        ;
        if mid * mid <= n {
            lo = mid;
        } else {
            hi = mid;
        }
    }
    proof {
        lemma_sqrt_floor_unique(n as nat, lo as nat);
    }
    lo
}

} // verus!
