//! Small exact integer helpers shared by the signal pipeline: division that
//! truncates toward zero (the behaviour of Rust's `/` on signed integers,
//! stated over mathematical integers), and an integer square root.

use vstd::prelude::*;

verus! {

/// Quotient of `a / d` truncated toward zero, as Rust's signed `/` computes it.
pub open spec fn div_trunc(a: int, d: int) -> int
    recommends
        d > 0,
{
    if a >= 0 {
        a / d
    } else {
        -((-a) / d)
    }
}

/// `div_trunc` never increases magnitude beyond the exact quotient's bound.
pub proof fn lemma_div_trunc_bound(a: int, d: int, b: int)
    requires
        d > 0,
        -b <= a <= b,
        0 <= b,
    ensures
        -(b / d) <= div_trunc(a, d) <= b / d,
{
    if a >= 0 {
        vstd::arithmetic::div_mod::lemma_div_is_ordered(a, b, d);
        vstd::arithmetic::div_mod::lemma_div_pos_is_pos(a, d);
    } else {
        vstd::arithmetic::div_mod::lemma_div_is_ordered(-a, b, d);
        vstd::arithmetic::div_mod::lemma_div_pos_is_pos(-a, d);
    }
}

/// Computes `div_trunc(a * num, den)` without overflow, for bounded inputs.
pub fn mul_div_trunc(a: i64, num: u64, den: u64) -> (r: i64)
    requires
        den > 0,
        num > 0,
        -0x1000_0000_0000 <= a <= 0x1000_0000_0000,
        num <= 0x10000,
    ensures
        r == div_trunc(a * num, den as int),
{
    if a >= 0 {
        proof {
            assert(0 <= a * num <= 0x1000_0000_0000int * 0x10000int) by (nonlinear_arith)
                requires
                    0 <= a <= 0x1000_0000_0000,
                    0 <= num <= 0x10000,
            ;
            vstd::arithmetic::div_mod::lemma_div_is_ordered(a * num, 0x1000_0000_0000int * 0x10000int, den as int);
            vstd::arithmetic::div_mod::lemma_div_pos_is_pos(a * num, den as int);
        }
        let q = (a as u64 * num) / den;
        q as i64
    } else {
        proof {
            assert(0 <= (-a) * num <= 0x1000_0000_0000int * 0x10000int && (-a) * num == -(a * num))
                by (nonlinear_arith)
                requires
                    0 <= -a <= 0x1000_0000_0000,
                    0 <= num <= 0x10000,
            ;
            vstd::arithmetic::div_mod::lemma_div_is_ordered((-a) * num, 0x1000_0000_0000int * 0x10000int, den as int);
            vstd::arithmetic::div_mod::lemma_div_pos_is_pos((-a) * num, den as int);
        }
        let m = ((-a) as u64 * num) / den;
        -(m as i64)
    }
}

/// `r` is the integer square root of `x`.
pub open spec fn is_isqrt(r: nat, x: nat) -> bool {
    r * r <= x < (r + 1) * (r + 1)
}

/// The integer square root: the greatest `r` with `r * r <= x`.
pub closed spec fn spec_isqrt(x: nat) -> nat {
    choose|r: nat| is_isqrt(r, x)
}

/// Any two integer square roots of the same number coincide.
pub proof fn lemma_isqrt_unique(r1: nat, r2: nat, x: nat)
    requires
        is_isqrt(r1, x),
        is_isqrt(r2, x),
    ensures
        r1 == r2,
{
    assert(r1 == r2) by (nonlinear_arith)
        requires
            r1 * r1 <= x < (r1 + 1) * (r1 + 1),
            r2 * r2 <= x < (r2 + 1) * (r2 + 1),
    ;
}

/// A witness pins down `spec_isqrt`.
pub proof fn lemma_isqrt_is(r: nat, x: nat)
    requires
        is_isqrt(r, x),
    ensures
        spec_isqrt(x) == r,
{
    assert(is_isqrt(spec_isqrt(x), x)) by {
        assert(exists|q: nat| is_isqrt(q, x));
    }
    lemma_isqrt_unique(spec_isqrt(x), r, x);
}

/// Integer square root: the greatest `r` with `r * r <= x`.
pub fn isqrt(x: u64) -> (r: u64)
    ensures
        r * r <= x,
        x < (r + 1) * (r + 1),
        r == spec_isqrt(x as nat),
{
    let mut lo: u64 = 0;
    let mut hi: u64 = 0x1_0000_0000;
    while lo + 1 < hi
        invariant
            lo < hi <= 0x1_0000_0000,
            lo * lo <= x,
            x < hi * hi,
        decreases hi - lo,
    {
        let mid = lo + (hi - lo) / 2;
        proof {
            assert(mid * mid < 0x1_0000_0000_0000_0000int) by (nonlinear_arith)
                requires
                    0 <= mid < 0x1_0000_0000,
            ;
        }
        if mid * mid <= x {
            lo = mid;
        } else {
            hi = mid;
        }
    }
    proof {
        lemma_isqrt_is(lo as nat, x as nat);
    }
    lo
}

} // verus!
