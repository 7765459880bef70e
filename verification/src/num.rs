//! Integer helpers for the fixed-point arithmetic of the simulation:
//! truncating and away-from-zero division with a positive divisor, and the
//! floor of a square root.

use vstd::prelude::*;

verus! {

/// Absolute value of a mathematical integer.
pub open spec fn iabs(x: int) -> int {
    if x < 0 {
        -x
    } else {
        x
    }
}

/// Division by a positive divisor, rounding toward zero (as the hardware
/// signed division does).
pub open spec fn qdiv(a: int, b: int) -> int {
    if a >= 0 {
        a / b
    } else {
        -((-a) / b)
    }
}

/// Division by a positive divisor, rounding away from zero.
pub open spec fn qdiv_away(a: int, b: int) -> int {
    if a >= 0 {
        (a + b - 1) / b
    } else {
        -((-a + b - 1) / b)
    }
}

/// The floor of the square root of a natural number.
pub open spec fn sqrt_floor(s: nat) -> nat
    decreases s,
{
    if s == 0 {
        0
    } else {
        let p = sqrt_floor((s - 1) as nat);
        if (p + 1) * (p + 1) <= s {
            p + 1
        } else {
            p
        }
    }
}

/// `sqrt_floor` is characterised by `r * r <= s < (r + 1) * (r + 1)`.
pub proof fn lemma_sqrt_floor(s: nat)
    ensures
        sqrt_floor(s) * sqrt_floor(s) <= s,
        s < (sqrt_floor(s) + 1) * (sqrt_floor(s) + 1),
    decreases s,
{
    if s > 0 {
        lemma_sqrt_floor((s - 1) as nat);
        let p = sqrt_floor((s - 1) as nat);
        if (p + 1) * (p + 1) <= s {
            assert(sqrt_floor(s) == p + 1);
            assert(s - 1 < (p + 1) * (p + 1));
            assert(s < (sqrt_floor(s) + 1) * (sqrt_floor(s) + 1)) by (nonlinear_arith)
                requires
                    sqrt_floor(s) == p + 1 && s <= (p + 1) * (p + 1) && p >= 0,
            ;
        } else {
            assert(sqrt_floor(s) == p);
            assert(s < (sqrt_floor(s) + 1) * (sqrt_floor(s) + 1)) by (nonlinear_arith)
                requires
                    sqrt_floor(s) == p && s < (p + 1) * (p + 1),
            ;
        }
    } else {
        assert(sqrt_floor(s) == 0);
        assert(s < (sqrt_floor(s) + 1) * (sqrt_floor(s) + 1)) by (nonlinear_arith)
            requires
                sqrt_floor(s) == 0 && s == 0,
        ;
    }
}

/// At most one natural number satisfies the square-root characterisation.
pub proof fn lemma_sqrt_unique(s: nat, r: nat)
    requires
        r * r <= s,
        s < (r + 1) * (r + 1),
    ensures
        r == sqrt_floor(s),
{
    lemma_sqrt_floor(s);
    let q = sqrt_floor(s);
    assert(r == q) by (nonlinear_arith)
        requires
            r * r <= s && s < (r + 1) * (r + 1) && q * q <= s && s < (q + 1) * (q + 1) && r >= 0
                && q >= 0,
    ;
}

/// An integer whose square is at most `s` is at most `sqrt_floor(s)`.
pub proof fn lemma_sqrt_dominates(s: nat, x: int)
    requires
        x * x <= s,
        x >= 0,
    ensures
        x <= sqrt_floor(s),
{
    lemma_sqrt_floor(s);
    let q = sqrt_floor(s);
    assert(x <= q) by (nonlinear_arith)
        requires
            x * x <= s && s < (q + 1) * (q + 1) && x >= 0 && q >= 0,
    ;
}

/// Truncating division keeps the quotient within any slope bound on the
/// dividend: if `|a| <= c * b` then `|qdiv(a, b)| <= c`.
pub proof fn lemma_qdiv_bound(a: int, b: int, c: int)
    requires
        b >= 1,
        c >= 0,
        iabs(a) <= c * b,
    ensures
        iabs(qdiv(a, b)) <= c,
{
    if a >= 0 {
        vstd::arithmetic::div_mod::lemma_fundamental_div_mod(a, b);
        vstd::arithmetic::div_mod::lemma_mod_bound(a, b);
        assert(a / b <= c) by (nonlinear_arith)
            requires
                b * (a / b) <= a && a <= c * b && b >= 1,
        ;
        assert(a / b >= 0) by (nonlinear_arith)
            requires
                b * (a / b) == a - a % b && 0 <= a % b < b && a >= 0 && b >= 1,
        ;
    } else {
        let m = -a;
        vstd::arithmetic::div_mod::lemma_fundamental_div_mod(m, b);
        vstd::arithmetic::div_mod::lemma_mod_bound(m, b);
        assert(m / b <= c) by (nonlinear_arith)
            requires
                b * (m / b) <= m && m <= c * b && b >= 1,
        ;
        assert(m / b >= 0) by (nonlinear_arith)
            requires
                b * (m / b) == m - m % b && 0 <= m % b < b && m >= 0 && b >= 1,
        ;
    }
}

/// Away-from-zero division keeps the quotient within any slope bound on the
/// dividend: if `|a| <= c * b` then `|qdiv_away(a, b)| <= c`.
pub proof fn lemma_qdiv_away_bound(a: int, b: int, c: int)
    requires
        b >= 1,
        c >= 0,
        iabs(a) <= c * b,
    ensures
        iabs(qdiv_away(a, b)) <= c,
{
    let m = if a >= 0 {
        a
    } else {
        -a
    };
    vstd::arithmetic::div_mod::lemma_fundamental_div_mod(m + b - 1, b);
    vstd::arithmetic::div_mod::lemma_mod_bound(m + b - 1, b);
    assert(0 <= (m + b - 1) / b <= c) by (nonlinear_arith)
        requires
            b * ((m + b - 1) / b) == m + b - 1 - ((m + b - 1) % b) && 0 <= (m + b - 1) % b < b && 0
                <= m <= c * b && b >= 1 && c >= 0,
    ;
}

/// Away-from-zero division never undershoots: the quotient times the divisor
/// covers the dividend (from above for a non-negative dividend, from below
/// for a negative one).
pub proof fn lemma_qdiv_away_covers(a: int, b: int)
    requires
        b >= 1,
    ensures
        a >= 0 ==> qdiv_away(a, b) * b >= a,
        a < 0 ==> qdiv_away(a, b) * b <= a,
{
    if a >= 0 {
        vstd::arithmetic::div_mod::lemma_fundamental_div_mod(a + b - 1, b);
        vstd::arithmetic::div_mod::lemma_mod_bound(a + b - 1, b);
        assert(qdiv_away(a, b) * b >= a) by (nonlinear_arith)
            requires
                b * ((a + b - 1) / b) == a + b - 1 - ((a + b - 1) % b) && 0 <= (a + b - 1) % b < b
                    && qdiv_away(a, b) == (a + b - 1) / b && b >= 1,
        ;
    } else {
        let m = -a;
        vstd::arithmetic::div_mod::lemma_fundamental_div_mod(m + b - 1, b);
        vstd::arithmetic::div_mod::lemma_mod_bound(m + b - 1, b);
        assert(qdiv_away(a, b) * b <= a) by (nonlinear_arith)
            requires
                b * ((m + b - 1) / b) == m + b - 1 - ((m + b - 1) % b) && 0 <= (m + b - 1) % b < b
                    && qdiv_away(a, b) == -((m + b - 1) / b) && m == -a && b >= 1,
        ;
    }
}

/// A product is bounded by the product of the factors' bounds.
pub proof fn lemma_mul_bound(x: int, y: int, c: int, d: int)
    requires
        iabs(x) <= c,
        iabs(y) <= d,
    ensures
        iabs(x * y) <= c * d,
{
    assert(-(c * d) <= x * y <= c * d) by (nonlinear_arith)
        requires
            -c <= x <= c && -d <= y <= d && c >= 0 && d >= 0,
    ;
}

/// When the divisor divides the dividend exactly, truncating division
/// recovers the exact quotient.
pub proof fn lemma_qdiv_exact(a: int, b: int)
    requires
        b >= 1,
        a % b == 0,
    ensures
        qdiv(a, b) * b == a,
        qdiv_away(a, b) == qdiv(a, b),
{
    vstd::arithmetic::div_mod::lemma_fundamental_div_mod(a, b);
    if a >= 0 {
        assert(b * (a / b) == a);
        assert(qdiv(a, b) * b == a) by (nonlinear_arith)
            requires
                b * (a / b) == a && qdiv(a, b) == a / b,
        ;
        vstd::arithmetic::div_mod::lemma_fundamental_div_mod(a + b - 1, b);
        vstd::arithmetic::div_mod::lemma_mod_bound(a + b - 1, b);
        assert((a + b - 1) / b == a / b) by (nonlinear_arith)
            requires
                b * (a / b) == a && b * ((a + b - 1) / b) == a + b - 1 - ((a + b - 1) % b) && 0 <= (
                a + b - 1) % b < b && b >= 1,
        ;
    } else {
        let m = -a;
        vstd::arithmetic::div_mod::lemma_fundamental_div_mod(m, b);
        vstd::arithmetic::div_mod::lemma_mod_bound(m, b);
        assert(m % b == 0) by (nonlinear_arith)
            requires
                b * (a / b) == a && b * (m / b) == m - m % b && 0 <= m % b < b && m == -a && b >= 1,
        ;
        assert(b * (m / b) == m);
        assert(qdiv(a, b) * b == a) by (nonlinear_arith)
            requires
                b * (m / b) == m && qdiv(a, b) == -(m / b) && m == -a,
        ;
        vstd::arithmetic::div_mod::lemma_fundamental_div_mod(m + b - 1, b);
        vstd::arithmetic::div_mod::lemma_mod_bound(m + b - 1, b);
        assert((m + b - 1) / b == m / b) by (nonlinear_arith)
            requires
                b * (m / b) == m && b * ((m + b - 1) / b) == m + b - 1 - ((m + b - 1) % b) && 0 <= (
                m + b - 1) % b < b && b >= 1,
        ;
    }
}

/// Division by a positive divisor, rounding toward zero, on wide integers.
pub fn div_trunc(a: i128, b: i128) -> (q: i128)
    requires
        1 <= b,
        -0x40000000000000000000000000000000 <= a <= 0x40000000000000000000000000000000,
    ensures
        q == qdiv(a as int, b as int),
        iabs(q as int) <= iabs(a as int),
{
    proof {
        vstd::arithmetic::div_mod::lemma_fundamental_div_mod(a as int, b as int);
        vstd::arithmetic::div_mod::lemma_mod_bound(a as int, b as int);
        vstd::arithmetic::div_mod::lemma_fundamental_div_mod(-(a as int), b as int);
        vstd::arithmetic::div_mod::lemma_mod_bound(-(a as int), b as int);
        assert(iabs(a as int) <= iabs(a as int) * (b as int)) by (nonlinear_arith)
            requires
                b >= 1 && iabs(a as int) >= 0,
        ;
        lemma_qdiv_bound(a as int, b as int, iabs(a as int));
    }
    if a >= 0 {
        ((a as u128) / (b as u128)) as i128
    } else {
        -((((-a) as u128) / (b as u128)) as i128)
    }
}

/// Division by a positive divisor, rounding away from zero, on wide integers.
pub fn div_away(a: i128, b: i128) -> (q: i128)
    requires
        1 <= b <= 0x1000000000000000000000000000000,
        -0x1000000000000000000000000000000 <= a <= 0x1000000000000000000000000000000,
    ensures
        q == qdiv_away(a as int, b as int),
        iabs(q as int) <= iabs(a as int) + 1,
{
    proof {
        let m = if a >= 0 {
            a as int
        } else {
            -(a as int)
        };
        vstd::arithmetic::div_mod::lemma_fundamental_div_mod(m + b - 1, b as int);
        vstd::arithmetic::div_mod::lemma_mod_bound(m + b - 1, b as int);
        assert((m + b - 1) / (b as int) <= m + 1 && (m + b - 1) / (b as int) >= 0)
            by (nonlinear_arith)
            requires
                (b as int) * ((m + b - 1) / (b as int)) == m + b - 1 - ((m + b - 1) % (b as int))
                    && 0 <= (m + b - 1) % (b as int) < b && m >= 0 && b >= 1,
        ;
    }
    if a >= 0 {
        (((a as u128) + (b as u128) - 1) / (b as u128)) as i128
    } else {
        -
        ((((-a) as u128 + (b as u128) - 1) / (b as u128)) as i128)
    }
}

/// The floor of the square root, by binary search.
pub fn isqrt(s: u128) -> (r: u128)
    requires
        s < 0x40000000000000000000000000000000,
    ensures
        r == sqrt_floor(s as nat),
        r * r <= s,
        s < (r + 1) * (r + 1),
{
    let mut lo: u128 = 0;
    let mut hi: u128 = 0x8000000000000000;
    proof {
        assert((hi as int) * (hi as int) > s);
    }
    while lo + 1 < hi
        invariant
            lo < hi <= 0x8000000000000000,
            (lo as int) * (lo as int) <= s as int,
            (s as int) < (hi as int) * (hi as int),
        decreases hi - lo,
    {
        let mid = lo + (hi - lo) / 2;
        proof {
            assert(mid < hi);
            assert((mid as int) * (mid as int) < 0x40000000000000000000000000000000int)
                by (nonlinear_arith)
                requires
                    mid < 0x8000000000000000,
            ;
        }
        if mid * mid <= s {
            lo = mid;
        } else {
            hi = mid;
        }
    }
    proof {
        lemma_sqrt_unique(s as nat, lo as nat);
    }
    lo
}

} // verus!
