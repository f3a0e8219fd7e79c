//! Flooring division on machine integers, matching the mathematical `/`
//! that the contracts of the resampler and downmixer are stated with.

use vstd::prelude::*;
use vstd::arithmetic::div_mod::lemma_fundamental_div_mod;
use vstd::arithmetic::div_mod::lemma_fundamental_div_mod_converse;
use vstd::arithmetic::div_mod::lemma_div_is_ordered;
use vstd::arithmetic::div_mod::lemma_div_nonincreasing;
use vstd::arithmetic::mul::lemma_mul_inequality;

verus! {

/// Quotient of the (possibly negative) numerator `n` by the positive
/// divisor `d`, rounding toward negative infinity; for a positive divisor
/// this is exactly the mathematical division of the specification language.
pub fn floor_div_i64(n: i64, d: u64) -> (q: i64)
    requires
        0 < d <= 0xffff_ffff,
        n > i64::MIN,
    ensures
        q == n as int / d as int,
{
    if n >= 0 {
        let un: u64 = n as u64;
        let uq: u64 = un / d;
        proof {
            lemma_div_nonincreasing(un as int, d as int);
        }
        uq as i64
    } else {
        let m: u64 = (-n) as u64;
        let q0: u64 = (m + (d - 1)) / d;
        proof {
            let mi = m as int;
            let di = d as int;
            // q0 is the exact upward-rounded quotient of m by d.
            lemma_fundamental_div_mod(mi + di - 1, di);
            let q0i = (mi + di - 1) / di;
            let r0 = (mi + di - 1) % di;
            assert(mi + di - 1 == q0i * di + r0);
            // The remainder q0*d - m of the negated numerator lies in [0, d).
            let r = q0i * di - mi;
            assert(r == di - 1 - r0);
            assert(0 <= r < di);
            assert(n as int == (-q0i) * di + r) by {
                assert((-q0i) * di == -(q0i * di)) by (nonlinear_arith);
            }
            lemma_fundamental_div_mod_converse(n as int, di, -q0i, r);
            // q0 <= m, so negating it stays within i64.
            assert(mi <= mi * di) by (nonlinear_arith)
                requires 1 <= mi && 1 <= di;
            assert(mi + di - 1 <= mi * di + (di - 1));
            lemma_fundamental_div_mod_converse(mi * di + (di - 1), di, mi, di - 1);
            lemma_div_is_ordered(mi + di - 1, mi * di + (di - 1), di);
            assert(q0i <= mi);
        }
        -(q0 as i64)
    }
}

/// The quotient of a sum of values, each between `lo` and `hi`, by the
/// count of values stays between `lo` and `hi`: flooring division cannot
/// leave the interval the numerator's average lies in.
pub proof fn lemma_div_stays_in_range(numer: int, den: int, lo: int, hi: int)
    requires
        0 < den,
        lo * den <= numer <= hi * den,
    ensures
        lo <= numer / den <= hi,
{
    lemma_fundamental_div_mod_converse(lo * den, den, lo, 0);
    lemma_fundamental_div_mod_converse(hi * den, den, hi, 0);
    lemma_div_is_ordered(lo * den, numer, den);
    lemma_div_is_ordered(numer, hi * den, den);
}

/// A product divided by one of its factors gives back the other factor.
pub proof fn lemma_mul_div_exact(v: int, den: int)
    requires
        0 < den,
    ensures
        (v * den) / den == v,
{
    lemma_fundamental_div_mod_converse(v * den, den, v, 0);
}

/// Division by a positive divisor is monotone in the numerator.
pub proof fn lemma_div_mono(a: int, b: int, den: int)
    requires
        0 < den,
        a <= b,
    ensures
        a / den <= b / den,
{
    lemma_div_is_ordered(a, b, den);
}

/// Bounding a numerator by a multiple of the divisor bounds the quotient.
pub proof fn lemma_div_below_multiple(a: int, k: int, den: int)
    requires
        0 < den,
        a <= k * den,
    ensures
        a / den <= k,
{
    lemma_div_is_ordered(a, k * den, den);
    lemma_mul_div_exact(k, den);
}

} // verus!
