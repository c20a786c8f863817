//! Integer helpers shared by the other modules: floor division, remainders
//! and absolute values on machine integers, each tied to its mathematical
//! meaning.

use vstd::prelude::*;
use vstd::arithmetic::div_mod::lemma_fundamental_div_mod_converse;
use vstd::arithmetic::div_mod::lemma_fundamental_div_mod;
use vstd::arithmetic::div_mod::lemma_mod_bound;

verus! {

/// The absolute value of an integer.
pub open spec fn magnitude(v: int) -> int {
    if v >= 0 {
        v
    } else {
        -v
    }
}

/// The quotient of `v` by `d` rounded toward zero.
pub open spec fn trunc_div(v: int, d: int) -> int {
    if v >= 0 {
        v / d
    } else {
        -((-v) / d)
    }
}

/// `v` restricted to the closed range from `lo` to `hi`.
pub open spec fn clamp(v: int, lo: int, hi: int) -> int {
    if v < lo {
        lo
    } else if v > hi {
        hi
    } else {
        v
    }
}

/// Any way of writing `x` as a multiple of `d` plus a remainder below `d`
/// gives the floor quotient and the non-negative remainder.
pub proof fn lemma_quotient_unique(x: int, d: int, q: int, r: int)
    requires
        d > 0,
        0 <= r < d,
        x == q * d + r,
    ensures
        q == x / d,
        r == x % d,
{
    lemma_fundamental_div_mod_converse(x, d, q, r);
}

/// `x` is its floor quotient times `d` plus its remainder, and the remainder
/// lies below `d`.
pub proof fn lemma_quotient_parts(x: int, d: int)
    requires
        d > 0,
    ensures
        x == (x / d) * d + x % d,
        0 <= x % d < d,
{
    lemma_fundamental_div_mod(x, d);
    lemma_mod_bound(x, d);
    assert(d * (x / d) == (x / d) * d) by (nonlinear_arith);
}

/// The absolute value of `v`, widened so that the smallest `i32` has one.
pub fn abs_i32(v: i32) -> (r: i64)
    ensures
        r == magnitude(v as int),
        0 <= r <= 0x8000_0000,
{
    let wide: i64 = v as i64;
    if wide >= 0 {
        wide
    } else {
        -wide
    }
}

/// Floor division of `x` by a positive `d`: the largest `q` with
/// `q * d <= x`.
pub fn floor_div(x: i64, d: i64) -> (q: i64)
    requires
        d > 0,
    ensures
        q == x / d,
{
    if x >= 0 {
        x / d
    } else {
        let n: i64 = -(x + 1);
        let m: i64 = n / d;
        proof {
            lemma_quotient_parts(n as int, d as int);
            let t: int = (n % d) as int;
            assert(x == (-m - 1) * d + (d - 1 - t)) by (nonlinear_arith)
                requires
                    n == m * d + t,
                    x == -n - 1,
            ;
            lemma_quotient_unique(x as int, d as int, -m - 1, d - 1 - t);
        }
        -m - 1
    }
}

/// The non-negative remainder of `x` by a positive `d`.
pub fn floor_mod(x: i64, d: i64) -> (r: i64)
    requires
        d > 0,
    ensures
        r == x % d,
        0 <= r < d,
{
    if x >= 0 {
        proof {
            lemma_quotient_parts(x as int, d as int);
        }
        x % d
    } else {
        let n: i64 = -(x + 1);
        let t: i64 = n % d;
        proof {
            lemma_quotient_parts(n as int, d as int);
            let m: int = (n / d) as int;
            assert(x == (-m - 1) * d + (d - 1 - t)) by (nonlinear_arith)
                requires
                    n == m * d + t,
                    x == -n - 1,
            ;
            lemma_quotient_unique(x as int, d as int, -m - 1, d - 1 - t);
        }
        d - 1 - t
    }
}

/// Division of `v` by a positive `d`, rounded toward zero.
pub fn div_toward_zero(v: i64, d: i64) -> (q: i64)
    requires
        d > 0,
        v > i64::MIN,
    ensures
        q == trunc_div(v as int, d as int),
{
    if v >= 0 {
        v / d
    } else {
        let n: i64 = -v;
        let m: i64 = n / d;
        proof {
            lemma_quotient_parts(n as int, d as int);
            let t: int = (n % d) as int;
            assert(0 <= m) by (nonlinear_arith)
                requires
                    n == m * d + t,
                    0 <= t < d,
                    n >= 0,
            ;
        }
        -m
    }
}

} // verus!
