//! Linear-interpolation rate conversion from a source rate `rs` to the
//! device's native rate `rd`, carried out exactly in integer arithmetic on
//! Q15 samples. This is intentionally a cheap resampler (no anti-aliasing
//! filter); the quality trade-off is documented, not a defect.

use vstd::prelude::*;
use crate::arith::div_floor_i64;

verus! {

/// Output length of resampling `n` samples from rate `rs` to rate `rd`:
/// `n` itself when the rates agree, else `n * rd / rs` rounded to the
/// nearest integer (halves round up), and 0 for empty input.
pub open spec fn spec_out_len(n: nat, rs: nat, rd: nat) -> nat
    recommends
        rs >= 1,
{
    if rs == rd {
        n
    } else if n == 0 {
        0
    } else {
        (2 * n * rd + rs) / (2 * rs)
    }
}

/// The interpolated sample at output index `k`: with source position
/// `pos = k * rs / rd`, let `i = floor(pos)` and `frac = pos - i`; the value
/// is `src[i] + (src[i+1] - src[i]) * frac`, with both indices clamped to
/// the last available sample (no extrapolation), and the fractional product
/// rounded down.
pub open spec fn spec_interp(src: Seq<i16>, rs: nat, rd: nat, k: nat) -> int
    recommends
        rd >= 1,
        src.len() >= 1,
{
    let pn = k * rs;
    let i = pn / rd;
    let rem = pn % rd;
    let last = src.len() - 1;
    let i0 = if i <= last { i as int } else { last };
    let i1 = if i + 1 <= last { (i + 1) as int } else { last };
    let s0 = src[i0] as int;
    let s1 = src[i1] as int;
    s0 + ((s1 - s0) * rem) / (rd as int)
}

/// The resampled sequence: the input itself when the rates agree, empty for
/// empty input, else `spec_out_len` interpolated samples.
pub open spec fn spec_resample(src: Seq<i16>, rs: nat, rd: nat) -> Seq<i16>
    recommends
        rs >= 1,
        rd >= 1,
{
    if rs == rd {
        src
    } else if src.len() == 0 {
        Seq::<i16>::empty()
    } else {
        Seq::new(spec_out_len(src.len(), rs, rd), |k: int| spec_interp(src, rs, rd, k as nat) as i16)
    }
}

/// The rounded-down fractional increment lies between 0 and the full step
/// `d`, so interpolation never leaves the interval spanned by its two
/// source samples.
proof fn lemma_scaled_frac_bounds(d: int, rem: int, rd: int)
    requires
        rd >= 1,
        0 <= rem < rd,
    ensures
        d >= 0 ==> 0 <= (d * rem) / rd <= d,
        d < 0 ==> d <= (d * rem) / rd <= 0,
{
    if d >= 0 {
        assert(0 <= d * rem <= d * rd) by (nonlinear_arith)
            requires rd >= 1 && 0 <= rem < rd && d >= 0;
        assert(0 <= (d * rem) / rd) by (nonlinear_arith)
            requires rd >= 1 && 0 <= d * rem;
        assert((d * rem) / rd <= d) by (nonlinear_arith)
            requires rd >= 1 && 0 <= d * rem <= d * rd;
    } else {
        assert(d * rd <= d * rem <= 0) by (nonlinear_arith)
            requires rd >= 1 && 0 <= rem < rd && d < 0;
        assert((d * rem) / rd <= 0) by (nonlinear_arith)
            requires rd >= 1 && d * rem <= 0;
        assert(d <= (d * rem) / rd) by (nonlinear_arith)
            requires rd >= 1 && d * rd <= d * rem;
    }
}

/// Interpolated values stay within the Q15 sample range.
proof fn lemma_interp_in_range(src: Seq<i16>, rs: nat, rd: nat, k: nat)
    requires
        rd >= 1,
        src.len() >= 1,
    ensures
        -32768 <= spec_interp(src, rs, rd, k) <= 32767,
{
    let pn = k * rs;
    let rem = pn % rd;
    let last = src.len() - 1;
    let i = pn / rd;
    let i0 = if i <= last { i as int } else { last as int };
    let i1 = if i + 1 <= last { (i + 1) as int } else { last as int };
    let s0 = src[i0] as int;
    let s1 = src[i1] as int;
    lemma_scaled_frac_bounds(s1 - s0, rem as int, rd as int);
}

/// Resamples a Q15 mono sequence from rate `rs` to rate `rd` by linear
/// interpolation. When the rates agree the output equals the input, and an
/// empty input yields an empty output for any rate pair.
pub fn resample(src: &Vec<i16>, rs: u32, rd: u32) -> (out: Vec<i16>)
    requires
        rs >= 1,
        rd >= 1,
        spec_out_len(src@.len(), rs as nat, rd as nat) <= usize::MAX,
    ensures
        out@ == spec_resample(src@, rs as nat, rd as nat),
        rs == rd ==> out@ == src@,
        src@.len() == 0 ==> out@.len() == 0,
        out@.len() == spec_out_len(src@.len(), rs as nat, rd as nat),
{
    let n = src.len();
    if rs == rd {
        let mut out: Vec<i16> = Vec::new();
        let mut j: usize = 0;
        while j < n
            invariant
                j <= n,
                n == src@.len(),
                out@ == src@.take(j as int),
            decreases n - j,
        {
            out.push(src[j]);
            proof {
                assert(out@ =~= src@.take(j + 1 as int));
            }
            j = j + 1;
        }
        proof {
            assert(src@.take(n as int) =~= src@);
        }
        return out;
    }
    if n == 0 {
        let out: Vec<i16> = Vec::new();
        proof {
            assert(out@ =~= spec_resample(src@, rs as nat, rd as nat));
        }
        return out;
    }

    proof {
        assert((2 * (n as int)) * (rd as int) + (rs as int) < u128::MAX) by (nonlinear_arith)
            requires
                0 <= n as int <= 0xFFFF_FFFF_FFFF_FFFFu64 as int,
                0 <= rd as int <= 0xFFFF_FFFFu32 as int,
                0 <= rs as int <= 0xFFFF_FFFFu32 as int;
    }
    let num128: u128 = 2u128 * (n as u128) * (rd as u128) + (rs as u128);
    let den128: u128 = 2u128 * (rs as u128);
    let out_len128: u128 = num128 / den128;
    proof {
        assert(out_len128 == spec_out_len(src@.len(), rs as nat, rd as nat));
    }
    let out_len: usize = out_len128 as usize;

    let mut out: Vec<i16> = Vec::new();
    let mut k: usize = 0;
    while k < out_len
        invariant
            k <= out_len,
            n == src@.len(),
            n >= 1,
            rs >= 1,
            rd >= 1,
            rs != rd,
            out_len == spec_out_len(src@.len(), rs as nat, rd as nat),
            out@.len() == k,
            forall|j: int| 0 <= j < k ==> out@[j] == spec_interp(src@, rs as nat, rd as nat, j as nat) as i16,
        decreases out_len - k,
    {
        proof {
            assert((k as int) * (rs as int) < u128::MAX) by (nonlinear_arith)
                requires
                    0 <= k as int <= 0xFFFF_FFFF_FFFF_FFFFu64 as int,
                    0 <= rs as int <= 0xFFFF_FFFFu32 as int;
        }
        let pn: u128 = (k as u128) * (rs as u128);
        proof {
            vstd::arithmetic::div_mod::lemma_div_nonincreasing(pn as int, rd as int);
        }
        let i_full: u128 = pn / (rd as u128);
        let rem: u128 = pn % (rd as u128);
        proof {
            assert(i_full == (k as nat * rs as nat) / rd as nat);
            assert(rem == (k as nat * rs as nat) % rd as nat);
            assert(rem < rd);
        }
        let last: usize = n - 1;
        let i0: usize = if i_full <= last as u128 { i_full as usize } else { last };
        let i1: usize = if i_full + 1 <= last as u128 { (i_full + 1) as usize } else { last };
        let s0: i64 = src[i0] as i64;
        let s1: i64 = src[i1] as i64;
        let rem64: i64 = rem as i64;
        proof {
            assert(-65535 <= s1 - s0 <= 65535);
            let d: int = s1 - s0;
            assert(i64::MIN < d * (rem64 as int) < i64::MAX) by (nonlinear_arith)
                requires
                    -65535 <= d <= 65535,
                    0 <= rem64 as int <= 0xFFFF_FFFFu32 as int;
        }
        let numer: i64 = (s1 - s0) * rem64;
        let inc: i64 = div_floor_i64(numer, rd as u64);
        proof {
            lemma_scaled_frac_bounds((s1 - s0) as int, rem as int, rd as int);
            lemma_interp_in_range(src@, rs as nat, rd as nat, k as nat);
            assert(s0 + inc == spec_interp(src@, rs as nat, rd as nat, k as nat));
        }
        let v: i64 = s0 + inc;
        out.push(v as i16);
        k = k + 1;
    }
    proof {
        assert(out@ =~= spec_resample(src@, rs as nat, rd as nat));
    }
    out
}

} // verus!
