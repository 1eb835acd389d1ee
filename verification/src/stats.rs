//! Integer statistics over a packet's samples: minimum, maximum, sum,
//! sum of squares, and zero crossings, computed exactly in wide integers.
//! The floating-point finishing steps (mean and root-mean-square) are a
//! division and a square root over these exact sums and belong to the
//! caller.

use vstd::prelude::*;
use crate::decode::{spec_s16_of_le, spec_s32_of_u32, spec_u32_of_le, spec_s8_of_u8};
use crate::format::SampleFormat;

verus! {

/// The smallest element of a non-empty sample sequence.
pub open spec fn spec_seq_min(s: Seq<i64>) -> int
    recommends
        s.len() >= 1,
    decreases s.len(),
{
    if s.len() <= 1 {
        s[0] as int
    } else {
        let m = spec_seq_min(s.drop_last());
        if (s.last() as int) < m {
            s.last() as int
        } else {
            m
        }
    }
}

/// The largest element of a non-empty sample sequence.
pub open spec fn spec_seq_max(s: Seq<i64>) -> int
    recommends
        s.len() >= 1,
    decreases s.len(),
{
    if s.len() <= 1 {
        s[0] as int
    } else {
        let m = spec_seq_max(s.drop_last());
        if (s.last() as int) > m {
            s.last() as int
        } else {
            m
        }
    }
}

/// The sum of a sample sequence.
pub open spec fn spec_seq_sum(s: Seq<i64>) -> int
    decreases s.len(),
{
    if s.len() == 0 {
        0
    } else {
        spec_seq_sum(s.drop_last()) + s.last()
    }
}

/// The sum of the squares of a sample sequence.
pub open spec fn spec_seq_sum_sq(s: Seq<i64>) -> int
    decreases s.len(),
{
    if s.len() == 0 {
        0
    } else {
        spec_seq_sum_sq(s.drop_last()) + (s.last() as int) * (s.last() as int)
    }
}

/// Whether a pair of consecutive samples crosses zero.
pub open spec fn spec_is_crossing(prev: i64, curr: i64) -> bool {
    (prev < 0 && curr >= 0) || (prev > 0 && curr <= 0)
}

/// The number of zero crossings in a sample sequence.
pub open spec fn spec_crossings(s: Seq<i64>) -> int
    decreases s.len(),
{
    if s.len() <= 1 {
        0
    } else {
        spec_crossings(s.drop_last()) + if spec_is_crossing(
            s[s.len() - 2],
            s[s.len() - 1],
        ) {
            1int
        } else {
            0int
        }
    }
}

/// A 16-bit wrapping reinterpretation of a wide value, as Rust's lossy
/// integer cast performs it.
pub open spec fn spec_wrap_i16(v: int) -> int {
    ((v + 32768) % 65536) - 32768
}

/// Exact integer statistics over one packet's samples.
#[derive(Clone, Copy, PartialEq, Eq, Structural, Debug)]
pub struct SampleStats {
    /// The smallest sample, reinterpreted as 16 bits.
    pub min_value: i16,
    /// The largest sample, reinterpreted as 16 bits.
    pub max_value: i16,
    /// The exact sum of all samples.
    pub sum: i128,
    /// The number of samples.
    pub count: usize,
    /// The exact sum of the squares of all samples.
    pub sum_squares: u128,
    /// The number of sign changes between consecutive samples.
    pub zero_crossings: usize,
}

/// The all-zero statistics reported for input too short to hold a sample.
pub open spec fn spec_zero_stats() -> SampleStats {
    SampleStats {
        min_value: 0,
        max_value: 0,
        sum: 0,
        count: 0,
        sum_squares: 0,
        zero_crossings: 0,
    }
}

/// The statistics of a non-empty sample sequence.
pub open spec fn spec_stats_of(s: Seq<i64>) -> SampleStats
    recommends
        s.len() >= 1,
{
    SampleStats {
        min_value: spec_wrap_i16(spec_seq_min(s)) as i16,
        max_value: spec_wrap_i16(spec_seq_max(s)) as i16,
        sum: spec_seq_sum(s) as i128,
        count: s.len() as usize,
        sum_squares: spec_seq_sum_sq(s) as u128,
        zero_crossings: spec_crossings(s) as usize,
    }
}

/// The signed 16-bit samples of a byte sequence, two bytes each; a
/// trailing lone byte reads as 0.
pub open spec fn spec_samples_s16(bytes: Seq<u8>) -> Seq<i64> {
    Seq::new(
        (bytes.len() + 1) / 2,
        |i: int| if 2 * i + 1 < bytes.len() {
            spec_s16_of_le(bytes[2 * i], bytes[2 * i + 1]) as i64
        } else {
            0i64
        },
    )
}

/// The signed 32-bit samples of a byte sequence, four bytes each; a
/// trailing partial group reads as 0.
pub open spec fn spec_samples_s32(bytes: Seq<u8>) -> Seq<i64> {
    Seq::new(
        (bytes.len() + 3) / 4,
        |i: int| if 4 * i + 3 < bytes.len() {
            spec_s32_of_u32(
                spec_u32_of_le(bytes[4 * i], bytes[4 * i + 1], bytes[4 * i + 2], bytes[4 * i + 3]),
            ) as i64
        } else {
            0i64
        },
    )
}

/// The signed 8-bit samples of a byte sequence.
pub open spec fn spec_samples_s8(bytes: Seq<u8>) -> Seq<i64> {
    Seq::new(bytes.len(), |i: int| spec_s8_of_u8(bytes[i]) as i64)
}

/// The unsigned 8-bit samples of a byte sequence, centered at 128.
pub open spec fn spec_samples_u8(bytes: Seq<u8>) -> Seq<i64> {
    Seq::new(bytes.len(), |i: int| (bytes[i] - 128) as i64)
}

/// Reinterprets the low 16 bits of a bounded wide value as a signed
/// 16-bit number.
fn wrap_i16(v: i64) -> (r: i16)
    requires
        -0x8000_0000 <= v <= 0x8000_0000,
    ensures
        r == spec_wrap_i16(v as int),
{
    let u: u64 = (v + 32768 + 0x1_0000_0000) as u64;
    let m: u64 = u % 65536;
    proof {
        vstd::arithmetic::div_mod::lemma_mod_multiples_vanish(
            65536, (v as int) + 32768, 65536);
    }
    (m as i64 - 32768) as i16
}

/// Computes the exact integer statistics of a non-empty sample sequence
/// whose values fit comfortably in 32 bits.
pub fn compute_stats(samples: &Vec<i64>) -> (r: SampleStats)
    requires
        samples@.len() >= 1,
        forall|i: int| 0 <= i < samples@.len()
            ==> (-0x8000_0000 <= #[trigger] samples@[i] <= 0x8000_0000),
    ensures
        r == spec_stats_of(samples@),
{
    let n = samples.len();
    let first = samples[0];
    proof {
        assert(0 <= (first as int) * (first as int) <= 0x4000_0000_0000_0000)
            by (nonlinear_arith)
            requires -0x8000_0000 <= first as int <= 0x8000_0000;
    }
    let mut cur_min: i64 = first;
    let mut cur_max: i64 = first;
    let mut sum: i128 = first as i128;
    let mut sum_sq: u128 = ((first * first) as u64) as u128;
    let mut crossings: usize = 0;
    let mut prev: i64 = first;
    let mut i: usize = 1;
    proof {
        assert(samples@.take(1).drop_last() =~= Seq::<i64>::empty());
        assert(samples@.take(1).last() == first);
        assert(spec_seq_sum(Seq::<i64>::empty()) == 0);
        assert(spec_seq_sum_sq(Seq::<i64>::empty()) == 0);
    }
    while i < n
        invariant
            1 <= i <= n,
            n == samples@.len(),
            forall|j: int| 0 <= j < samples@.len()
                ==> (-0x8000_0000 <= #[trigger] samples@[j] <= 0x8000_0000),
            cur_min == spec_seq_min(samples@.take(i as int)),
            cur_max == spec_seq_max(samples@.take(i as int)),
            sum == spec_seq_sum(samples@.take(i as int)),
            sum_sq == spec_seq_sum_sq(samples@.take(i as int)),
            crossings == spec_crossings(samples@.take(i as int)),
            crossings < i,
            prev == samples@[i - 1],
            -0x8000_0000 <= cur_min <= 0x8000_0000,
            -0x8000_0000 <= cur_max <= 0x8000_0000,
            (-(i as int)) * 0x8000_0000 <= sum <= (i as int) * 0x8000_0000,
            sum_sq <= (i as int) * 0x4000_0000_0000_0000,
        decreases n - i,
    {
        let v = samples[i];
        proof {
            assert(samples@.take(i + 1 as int).drop_last() =~= samples@.take(i as int));
            assert(samples@.take(i + 1 as int).last() == v);
            assert(samples@.take(i + 1 as int).len() == i + 1);
            assert(samples@.take(i + 1 as int)[i as int - 1] == prev);
            let ii = i as int;
            assert((-(ii + 1)) * 0x8000_0000 <= sum + v <= (ii + 1) * 0x8000_0000)
                by (nonlinear_arith)
                requires
                    (-(ii)) * 0x8000_0000 <= sum <= ii * 0x8000_0000,
                    -0x8000_0000 <= v <= 0x8000_0000;
            assert(0 <= (v as int) * (v as int) <= 0x4000_0000_0000_0000) by (nonlinear_arith)
                requires -0x8000_0000 <= v as int <= 0x8000_0000;
            assert(sum_sq + (v as int) * (v as int) <= (ii + 1) * 0x4000_0000_0000_0000)
                by (nonlinear_arith)
                requires
                    sum_sq <= ii * 0x4000_0000_0000_0000,
                    0 <= (v as int) * (v as int) <= 0x4000_0000_0000_0000;
            assert((ii + 1) * 0x4000_0000_0000_0000 < u128::MAX) by (nonlinear_arith)
                requires 0 <= ii + 1 <= 0x1_0000_0000_0000_0000;
            assert((ii + 1) * 0x8000_0000 < i128::MAX) by (nonlinear_arith)
                requires 0 <= ii + 1 <= 0x1_0000_0000_0000_0000;
        }
        if v < cur_min {
            cur_min = v;
        }
        if v > cur_max {
            cur_max = v;
        }
        sum = sum + v as i128;
        let sq: i64 = v * v;
        sum_sq = sum_sq + (sq as u64) as u128;
        let crossed = (prev < 0 && v >= 0) || (prev > 0 && v <= 0);
        if crossed {
            crossings = crossings + 1;
        }
        prev = v;
        i = i + 1;
    }
    proof {
        assert(samples@.take(n as int) =~= samples@);
    }
    let min_w = wrap_i16(cur_min);
    let max_w = wrap_i16(cur_max);
    SampleStats {
        min_value: min_w,
        max_value: max_w,
        sum,
        count: n,
        sum_squares: sum_sq,
        zero_crossings: crossings,
    }
}

/// Reads the signed 16-bit samples of a packet; a trailing lone byte
/// reads as 0.
fn extract_s16(bytes: &Vec<u8>) -> (out: Vec<i64>)
    ensures
        out@ == spec_samples_s16(bytes@),
{
    let len = bytes.len();
    let total: usize = (len / 2) + (len % 2);
    proof {
        vstd::arithmetic::div_mod::lemma_fundamental_div_mod(len as int, 2);
        vstd::arithmetic::div_mod::lemma_fundamental_div_mod(len as int + 1, 2);
    }
    let mut out: Vec<i64> = Vec::new();
    let mut i: usize = 0;
    while i < total
        invariant
            i <= total,
            len == bytes@.len(),
            total == (bytes@.len() + 1) / 2,
            out@.len() == i,
            forall|j: int| 0 <= j < i ==> out@[j] == spec_samples_s16(bytes@)[j],
        decreases total - i,
    {
        let v: i64 = if 2 * i + 1 < len {
            let b0 = bytes[2 * i];
            let b1 = bytes[2 * i + 1];
            let u: u32 = b0 as u32 + 256 * (b1 as u32);
            if u >= 32768 {
                u as i64 - 65536
            } else {
                u as i64
            }
        } else {
            0
        };
        out.push(v);
        i = i + 1;
    }
    proof {
        assert(out@ =~= spec_samples_s16(bytes@));
    }
    out
}

/// Reads the signed 32-bit samples of a packet; a trailing partial group
/// reads as 0.
fn extract_s32(bytes: &Vec<u8>) -> (out: Vec<i64>)
    ensures
        out@ == spec_samples_s32(bytes@),
{
    let len = bytes.len();
    let total: usize = (len / 4) + (if len % 4 == 0 { 0 } else { 1 });
    proof {
        vstd::arithmetic::div_mod::lemma_fundamental_div_mod(len as int, 4);
        vstd::arithmetic::div_mod::lemma_fundamental_div_mod(len as int + 3, 4);
    }
    let mut out: Vec<i64> = Vec::new();
    let mut i: usize = 0;
    while i < total
        invariant
            i <= total,
            len == bytes@.len(),
            total == (bytes@.len() + 3) / 4,
            out@.len() == i,
            forall|j: int| 0 <= j < i ==> out@[j] == spec_samples_s32(bytes@)[j],
        decreases total - i,
    {
        let v: i64 = if 4 * i + 3 < len {
            let b0 = bytes[4 * i] as u64;
            let b1 = bytes[4 * i + 1] as u64;
            let b2 = bytes[4 * i + 2] as u64;
            let b3 = bytes[4 * i + 3] as u64;
            let u: u64 = b0 + 256 * b1 + 65536 * b2 + 16777216 * b3;
            if u >= 0x8000_0000 {
                u as i64 - 0x1_0000_0000
            } else {
                u as i64
            }
        } else {
            0
        };
        out.push(v);
        i = i + 1;
    }
    proof {
        assert(out@ =~= spec_samples_s32(bytes@));
    }
    out
}

/// Reads the signed 8-bit samples of a packet.
fn extract_s8(bytes: &Vec<u8>) -> (out: Vec<i64>)
    ensures
        out@ == spec_samples_s8(bytes@),
{
    let len = bytes.len();
    let mut out: Vec<i64> = Vec::new();
    let mut i: usize = 0;
    while i < len
        invariant
            i <= len,
            len == bytes@.len(),
            out@.len() == i,
            forall|j: int| 0 <= j < i ==> out@[j] == spec_samples_s8(bytes@)[j],
        decreases len - i,
    {
        let b = bytes[i];
        let v: i64 = if b >= 128 {
            b as i64 - 256
        } else {
            b as i64
        };
        out.push(v);
        i = i + 1;
    }
    proof {
        assert(out@ =~= spec_samples_s8(bytes@));
    }
    out
}

/// Reads the unsigned 8-bit samples of a packet, centered at 128.
fn extract_u8(bytes: &Vec<u8>) -> (out: Vec<i64>)
    ensures
        out@ == spec_samples_u8(bytes@),
{
    let len = bytes.len();
    let mut out: Vec<i64> = Vec::new();
    let mut i: usize = 0;
    while i < len
        invariant
            i <= len,
            len == bytes@.len(),
            out@.len() == i,
            forall|j: int| 0 <= j < i ==> out@[j] == spec_samples_u8(bytes@)[j],
        decreases len - i,
    {
        let b = bytes[i];
        out.push(b as i64 - 128);
        i = i + 1;
    }
    proof {
        assert(out@ =~= spec_samples_u8(bytes@));
    }
    out
}

/// The statistics of a packet read as signed 16-bit samples; input shorter
/// than one sample reports all zeros.
pub open spec fn spec_analyze_s16(bytes: Seq<u8>) -> SampleStats {
    if bytes.len() < 2 {
        spec_zero_stats()
    } else {
        spec_stats_of(spec_samples_s16(bytes))
    }
}

/// The statistics of a packet read as signed 32-bit samples; input shorter
/// than one sample reports all zeros.
pub open spec fn spec_analyze_s32(bytes: Seq<u8>) -> SampleStats {
    if bytes.len() < 4 {
        spec_zero_stats()
    } else {
        spec_stats_of(spec_samples_s32(bytes))
    }
}

/// The statistics of a packet read as signed 8-bit samples.
pub open spec fn spec_analyze_s8(bytes: Seq<u8>) -> SampleStats {
    if bytes.len() == 0 {
        spec_zero_stats()
    } else {
        spec_stats_of(spec_samples_s8(bytes))
    }
}

/// The statistics of a packet read as unsigned 8-bit samples centered at
/// 128.
pub open spec fn spec_analyze_u8(bytes: Seq<u8>) -> SampleStats {
    if bytes.len() == 0 {
        spec_zero_stats()
    } else {
        spec_stats_of(spec_samples_u8(bytes))
    }
}

/// Builds the all-zero statistics value.
fn zero_stats() -> (r: SampleStats)
    ensures
        r == spec_zero_stats(),
{
    SampleStats {
        min_value: 0,
        max_value: 0,
        sum: 0,
        count: 0,
        sum_squares: 0,
        zero_crossings: 0,
    }
}

/// Integer statistics of a packet of signed 16-bit samples.
pub fn analyze_s16le_core(bytes: &Vec<u8>) -> (r: SampleStats)
    ensures
        r == spec_analyze_s16(bytes@),
{
    if bytes.len() < 2 {
        zero_stats()
    } else {
        let samples = extract_s16(bytes);
        proof {
            assert forall|i: int| 0 <= i < samples@.len()
                implies (-0x8000_0000 <= #[trigger] samples@[i] <= 0x8000_0000) by {
                assert(samples@[i] == spec_samples_s16(bytes@)[i]);
            }
        }
        compute_stats(&samples)
    }
}

/// Integer statistics of a packet of signed 32-bit samples.
pub fn analyze_s32le_core(bytes: &Vec<u8>) -> (r: SampleStats)
    ensures
        r == spec_analyze_s32(bytes@),
{
    if bytes.len() < 4 {
        zero_stats()
    } else {
        let samples = extract_s32(bytes);
        proof {
            assert forall|i: int| 0 <= i < samples@.len()
                implies (-0x8000_0000 <= #[trigger] samples@[i] <= 0x8000_0000) by {
                assert(samples@[i] == spec_samples_s32(bytes@)[i]);
            }
        }
        compute_stats(&samples)
    }
}

/// Integer statistics of a packet of signed 8-bit samples.
pub fn analyze_s8_core(bytes: &Vec<u8>) -> (r: SampleStats)
    ensures
        r == spec_analyze_s8(bytes@),
{
    if bytes.len() == 0 {
        zero_stats()
    } else {
        let samples = extract_s8(bytes);
        proof {
            assert forall|i: int| 0 <= i < samples@.len()
                implies (-0x8000_0000 <= #[trigger] samples@[i] <= 0x8000_0000) by {
                assert(samples@[i] == spec_samples_s8(bytes@)[i]);
            }
        }
        compute_stats(&samples)
    }
}

/// Integer statistics of a packet of unsigned 8-bit samples, centered at
/// 128.
pub fn analyze_u8_core(bytes: &Vec<u8>) -> (r: SampleStats)
    ensures
        r == spec_analyze_u8(bytes@),
{
    if bytes.len() == 0 {
        zero_stats()
    } else {
        let samples = extract_u8(bytes);
        proof {
            assert forall|i: int| 0 <= i < samples@.len()
                implies (-0x8000_0000 <= #[trigger] samples@[i] <= 0x8000_0000) by {
                assert(samples@[i] == spec_samples_u8(bytes@)[i]);
            }
        }
        compute_stats(&samples)
    }
}

/// The statistics reported for a packet under a textual format label.
/// Float input has no integer statistics and reports nothing; an unknown
/// label falls back to signed 16-bit.
pub open spec fn spec_analyze(bytes: Seq<u8>, label: Seq<char>) -> Option<SampleStats> {
    match SampleFormat::spec_from_label(label) {
        Some(SampleFormat::F32le) => None,
        Some(SampleFormat::S32le) => Some(spec_analyze_s32(bytes)),
        Some(SampleFormat::S8) => Some(spec_analyze_s8(bytes)),
        Some(SampleFormat::U8) => Some(spec_analyze_u8(bytes)),
        _ => Some(spec_analyze_s16(bytes)),
    }
}

/// Integer statistics of a packet, dispatched on its textual format label.
pub fn analyze_audio_core(bytes: &Vec<u8>, format: &str) -> (r: Option<SampleStats>)
    ensures
        r == spec_analyze(bytes@, format@),
{
    match SampleFormat::from_label(format) {
        Some(SampleFormat::F32le) => None,
        Some(SampleFormat::S32le) => Some(analyze_s32le_core(bytes)),
        Some(SampleFormat::S8) => Some(analyze_s8_core(bytes)),
        Some(SampleFormat::U8) => Some(analyze_u8_core(bytes)),
        _ => Some(analyze_s16le_core(bytes)),
    }
}

} // verus!
