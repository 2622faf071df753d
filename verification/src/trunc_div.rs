//! Integer division truncated toward zero, as a cast from a real-valued
//! quotient to an integer computes it, together with the facts the line
//! rasterizer needs: the quotient is monotone in the dividend and moves by at
//! most one when the dividend moves by at most the divisor.

use vstd::prelude::*;
use vstd::arithmetic::div_mod::lemma_div_pos_is_pos;
use vstd::arithmetic::div_mod::lemma_div_is_ordered;
use vstd::arithmetic::div_mod::lemma_div_plus_one;
use vstd::arithmetic::div_mod::lemma_fundamental_div_mod;
use vstd::arithmetic::div_mod::lemma_remainder_lower;
use vstd::arithmetic::div_mod::lemma_remainder_upper;

verus! {

/// The quotient `n / d` truncated toward zero, for a positive divisor.
pub open spec fn div_trunc(n: int, d: int) -> int
    recommends
        d > 0,
{
    if n >= 0 {
        n / d
    } else {
        -((-n) / d)
    }
}

/// The truncated quotient differs from the exact quotient by less than one,
/// toward zero: `d * q` lands within `d - 1` of `n`, on the side of zero.
pub proof fn lemma_div_trunc_bounds(n: int, d: int)
    requires
        d > 0,
    ensures
        n >= 0 ==> div_trunc(n, d) >= 0 && d * div_trunc(n, d) <= n <= d * div_trunc(n, d) + d
            - 1,
        n < 0 ==> div_trunc(n, d) <= 0 && d * div_trunc(n, d) - d + 1 <= n <= d * div_trunc(
            n,
            d,
        ),
{
    if n >= 0 {
        lemma_div_pos_is_pos(n, d);
        lemma_fundamental_div_mod(n, d);
        lemma_remainder_lower(n, d);
        lemma_remainder_upper(n, d);
    } else {
        let m = -n;
        let q = m / d;
        lemma_div_pos_is_pos(m, d);
        lemma_fundamental_div_mod(m, d);
        lemma_remainder_lower(m, d);
        lemma_remainder_upper(m, d);
        assert(d * q <= m <= d * q + d - 1);
        assert(div_trunc(n, d) == -q);
        assert(d * (-q) == -(d * q)) by (nonlinear_arith);
        assert(-(d * q) - d + 1 <= n <= -(d * q));
    }
}

/// Truncated division is monotone in the dividend.
pub proof fn lemma_div_trunc_ordered(a: int, b: int, d: int)
    requires
        d > 0,
        a <= b,
    ensures
        div_trunc(a, d) <= div_trunc(b, d),
{
    if a >= 0 {
        lemma_div_is_ordered(a, b, d);
    } else if b < 0 {
        lemma_div_is_ordered(-b, -a, d);
    } else {
        lemma_div_pos_is_pos(-a, d);
        lemma_div_pos_is_pos(b, d);
    }
}

/// Adding the divisor to the dividend raises the truncated quotient by at
/// most one, and never lowers it.
pub proof fn lemma_div_trunc_step(a: int, d: int)
    requires
        d > 0,
    ensures
        div_trunc(a, d) <= div_trunc(a + d, d) <= div_trunc(a, d) + 1,
{
    if a >= 0 {
        lemma_div_plus_one(a, d);
    } else if a + d <= 0 {
        lemma_div_plus_one(-(a + d), d);
    } else {
        // Here -d < a < 0 <= a + d < d: both quotients are zero or -1 + 1.
        lemma_div_trunc_bounds(a, d);
        lemma_div_trunc_bounds(a + d, d);
        lemma_div_trunc_ordered(a, a + d, d);
        assert(div_trunc(a + d, d) <= div_trunc(a, d) + 1) by {
            if div_trunc(a + d, d) > div_trunc(a, d) + 1 {
                assert(d * div_trunc(a + d, d) >= d * (div_trunc(a, d) + 2)) by (
                nonlinear_arith)
                    requires
                        d > 0,
                        div_trunc(a + d, d) >= div_trunc(a, d) + 2,
                ;
                assert(d * (div_trunc(a, d) + 2) == d * div_trunc(a, d) + 2 * d) by (
                nonlinear_arith);
                assert(false);
            }
        }
    }
}

/// Dividends at most a divisor apart give truncated quotients at most one
/// apart, in order.
pub proof fn lemma_div_trunc_close(a: int, b: int, d: int)
    requires
        d > 0,
        a <= b <= a + d,
    ensures
        div_trunc(a, d) <= div_trunc(b, d) <= div_trunc(a, d) + 1,
{
    lemma_div_trunc_ordered(a, b, d);
    lemma_div_trunc_ordered(b, a + d, d);
    lemma_div_trunc_step(a, d);
}

/// A multiple of the divisor divides exactly.
pub proof fn lemma_div_trunc_exact(k: int, d: int)
    requires
        d > 0,
    ensures
        div_trunc(k * d, d) == k,
    decreases (if k >= 0 {
        0int
    } else {
        1int
    }),
{
    if k >= 0 {
        lemma_fundamental_div_mod(k * d, d);
        lemma_remainder_lower(k * d, d);
        lemma_remainder_upper(k * d, d);
        assert(k * d >= 0) by (nonlinear_arith)
            requires
                k >= 0,
                d > 0,
        ;
        let q = (k * d) / d;
        lemma_div_pos_is_pos(k * d, d);
        assert(k * d == d * q + (k * d) % d);
        assert(d * q <= k * d <= d * q + d - 1);
        assert(q == k) by (nonlinear_arith)
            requires
                d > 0,
                d * q <= k * d <= d * q + d - 1,
        ;
    } else {
        assert(-(k * d) == (-k) * d) by (nonlinear_arith);
        lemma_div_trunc_exact(-k, d);
        assert(div_trunc(k * d, d) == -div_trunc((-k) * d, d)) by {
            assert(k * d < 0) by (nonlinear_arith)
                requires
                    k < 0,
                    d > 0,
            ;
        }
    }
}

/// Runs truncated division on machine integers.
pub fn div_trunc_i64(n: i64, d: i64) -> (q: i64)
    requires
        0 < d,
        i64::MIN < n,
    ensures
        q == div_trunc(n as int, d as int),
{
    if n >= 0 {
        let un: u64 = n as u64;
        let ud: u64 = d as u64;
        let uq: u64 = un / ud;
        proof {
            lemma_div_pos_is_pos(n as int, d as int);
            vstd::arithmetic::div_mod::lemma_div_nonincreasing(n as int, d as int);
        }
        uq as i64
    } else {
        let un: u64 = (-n) as u64;
        let ud: u64 = d as u64;
        let uq: u64 = un / ud;
        proof {
            lemma_div_pos_is_pos(-n as int, d as int);
            vstd::arithmetic::div_mod::lemma_div_nonincreasing(-n as int, d as int);
        }
        -(uq as i64)
    }
}

} // verus!
