//! Shared exact-integer helpers: floor and truncating division with
//! possibly negative numerators, and machine-word powers of two.

use vstd::prelude::*;
use vstd::arithmetic::power2::pow2;

verus! {

/// Truncating (round-toward-zero) division, as performed by Rust's `/` on
/// signed integers; `b` must be positive.
pub open spec fn div_trunc(a: int, b: int) -> int
    recommends
        b >= 1,
{
    if a >= 0 {
        a / b
    } else {
        -((-a) / b)
    }
}

/// The truncated quotient of a sum of `n` values in `[lo, hi]` stays in
/// `[lo, hi]` when that interval spans zero.
pub proof fn lemma_div_trunc_bounds(s: int, n: int, lo: int, hi: int)
    requires
        n >= 1,
        lo <= 0,
        0 <= hi,
        n * lo <= s <= n * hi,
    ensures
        lo <= div_trunc(s, n) <= hi,
{
    if s >= 0 {
        vstd::arithmetic::div_mod::lemma_div_pos_is_pos(s, n);
        vstd::arithmetic::div_mod::lemma_multiply_divide_le(s, n, hi);
    } else {
        assert(-s <= n * (-lo)) by (nonlinear_arith)
            requires n * lo <= s;
        vstd::arithmetic::div_mod::lemma_div_pos_is_pos(-s, n);
        vstd::arithmetic::div_mod::lemma_multiply_divide_le(-s, n, -lo);
    }
}

/// Floor division of a possibly negative numerator by a positive divisor,
/// matching the mathematical (Euclidean) quotient.
pub fn div_floor_i64(num: i64, den: u64) -> (q: i64)
    requires
        den >= 1,
        num > i64::MIN,
        den <= i64::MAX,
    ensures
        q == num as int / den as int,
{
    if num >= 0 {
        let qq = (num as u64) / den;
        proof {
            assert(qq == num as int / den as int);
        }
        qq as i64
    } else {
        let m = (-num) as u64;
        let qq = m / den;
        let rr = m % den;
        proof {
            vstd::arithmetic::div_mod::lemma_fundamental_div_mod(m as int, den as int);
            if rr == 0 {
                assert(num as int == (-(qq as int)) * den as int + 0) by (nonlinear_arith)
                    requires den >= 1 && m == qq * den && num == -(m as int);
                assert(num as int / den as int == -(qq as int)) by {
                    vstd::arithmetic::div_mod::lemma_fundamental_div_mod_converse(
                        num as int, den as int, -(qq as int), 0);
                };
            } else {
                let q2 = -(qq as int) - 1;
                assert(num as int == q2 * den as int + (den as int - rr as int)) by (nonlinear_arith)
                    requires den >= 1 && m == qq * den + rr && num == -(m as int)
                        && q2 == -(qq as int) - 1;
                assert(num as int / den as int == q2) by {
                    vstd::arithmetic::div_mod::lemma_fundamental_div_mod_converse(
                        num as int, den as int, q2, den as int - rr as int);
                };
            }
        }
        if rr == 0 {
            -(qq as i64)
        } else {
            -(qq as i64) - 1
        }
    }
}

/// Truncating division of a wide signed accumulator by a positive count.
pub fn div_trunc_i128(a: i128, b: u64) -> (q: i128)
    requires
        b >= 1,
        a > i128::MIN,
    ensures
        q == div_trunc(a as int, b as int),
{
    if a >= 0 {
        let qq = (a as u128) / (b as u128);
        proof {
            vstd::arithmetic::div_mod::lemma_div_nonincreasing(a as int, b as int);
        }
        qq as i128
    } else {
        let m = (-a) as u128;
        let qq = m / (b as u128);
        proof {
            vstd::arithmetic::div_mod::lemma_div_nonincreasing(m as int, b as int);
            vstd::arithmetic::div_mod::lemma_div_pos_is_pos(m as int, b as int);
        }
        -(qq as i128)
    }
}

/// `pow2(e)` as a machine word, for exponents that fit in a `u64`.
pub fn pow2_u64(e: u32) -> (r: u64)
    requires
        e <= 63,
    ensures
        r == pow2(e as nat),
        r >= 1,
{
    let mut r: u64 = 1;
    let mut i: u32 = 0;
    proof {
        vstd::arithmetic::power2::lemma2_to64();
    }
    while i < e
        invariant
            i <= e,
            e <= 63,
            r == pow2(i as nat),
            r >= 1,
        decreases e - i,
    {
        proof {
            vstd::arithmetic::power2::lemma_pow2_strictly_increases(i as nat, 63);
            vstd::arithmetic::power2::lemma2_to64_rest();
            vstd::arithmetic::power2::lemma_pow2_unfold((i + 1) as nat);
        }
        r = r * 2;
        i = i + 1;
    }
    r
}

} // verus!
