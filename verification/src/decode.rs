//! The sample decoder: turns a raw byte packet, given its sample format and
//! channel count, into a mono sequence of normalized Q15 samples. Trailing
//! bytes that do not form a complete multi-channel frame are discarded, and
//! for more than one channel each output sample is the arithmetic mean of
//! the per-channel samples of that frame, computed in a wider type.
//!
//! IEEE-754 `f32` input is decoded exactly, by integer arithmetic on its
//! bit pattern: the Q15 value of a float `v` is `trunc(clamp(v, -1, 1) *
//! 32767)`, with NaN mapping to 0.

use vstd::prelude::*;
use vstd::arithmetic::power2::pow2;
use crate::format::SampleFormat;
use crate::arith::{div_trunc, pow2_u64};

verus! {

/// The signed 16-bit little-endian sample held by two bytes.
pub open spec fn spec_s16_of_le(b0: u8, b1: u8) -> int {
    let u = b0 + 256 * b1;
    if u < 32768 {
        u as int
    } else {
        u - 65536
    }
}

/// The unsigned 32-bit little-endian word held by four bytes.
pub open spec fn spec_u32_of_le(b0: u8, b1: u8, b2: u8, b3: u8) -> nat {
    (b0 + 256 * b1 + 65536 * b2 + 16777216 * b3) as nat
}

/// The signed value of an unsigned 32-bit word.
pub open spec fn spec_s32_of_u32(u: nat) -> int
    recommends
        u < 0x1_0000_0000,
{
    if u < 0x8000_0000 {
        u as int
    } else {
        u - 0x1_0000_0000
    }
}

/// The signed value of an unsigned 8-bit byte.
pub open spec fn spec_s8_of_u8(b: u8) -> int {
    if b < 128 {
        b as int
    } else {
        b - 256
    }
}

/// The Q15 value of an IEEE-754 single-precision float given as its 32-bit
/// pattern: `trunc(clamp(v, -1, 1) * 32767)`, exactly; NaN yields 0.
pub open spec fn spec_q15_of_f32_bits(u: nat) -> int
    recommends
        u < 0x1_0000_0000,
{
    let sign = u / 0x8000_0000;
    let e = (u / 0x80_0000) % 256;
    let m = u % 0x80_0000;
    let mag = if e == 255 {
        if m == 0 {
            32767int
        } else {
            0int
        }
    } else if e >= 127 {
        32767int
    } else if e == 0 {
        0int
    } else {
        (((0x80_0000 + m) * 32767) as int) / (pow2((150 - e) as nat) as int)
    };
    if sign == 1 {
        -mag
    } else {
        mag
    }
}

/// The finite-float magnitude computation stays within the Q15 range.
pub proof fn lemma_q15_of_f32_bits_in_range(u: nat)
    requires
        u < 0x1_0000_0000,
    ensures
        -32767 <= spec_q15_of_f32_bits(u) <= 32767,
{
    let e = (u / 0x80_0000) % 256;
    let m = u % 0x80_0000;
    if 1 <= e < 127 {
        let sh = (150 - e) as nat;
        assert(24 <= sh <= 149);
        vstd::arithmetic::power2::lemma2_to64();
        vstd::arithmetic::power2::lemma_pow2_pos(sh);
        if sh > 24 {
            vstd::arithmetic::power2::lemma_pow2_strictly_increases(24, sh);
        }
        assert(pow2(24) == 0x100_0000);
        assert(pow2(sh) >= 0x100_0000);
        assert((0x80_0000 + m) * 32767 <= 0xFF_FFFF * 32767) by (nonlinear_arith)
            requires 0 <= m < 0x80_0000;
        vstd::arithmetic::div_mod::lemma_multiply_divide_le(
            ((0x80_0000 + m) * 32767) as int,
            pow2(sh) as int,
            32767,
        );
        assert(pow2(sh) as int * 32767 >= 0x100_0000 * 32767) by (nonlinear_arith)
            requires pow2(sh) >= 0x100_0000;
        vstd::arithmetic::div_mod::lemma_div_pos_is_pos(
            ((0x80_0000 + m) * 32767) as int,
            pow2(sh) as int,
        );
    }
}

/// Decodes one IEEE-754 single-precision little-endian float, given as its
/// bit pattern, to its exact Q15 value.
fn q15_of_f32_bits(u: u32) -> (r: i32)
    ensures
        r == spec_q15_of_f32_bits(u as nat),
        -32767 <= r <= 32767,
{
    let sign: u32 = u / 0x8000_0000;
    let e: u32 = (u / 0x80_0000) % 256;
    let m: u32 = u % 0x80_0000;
    let mag: i32 = if e == 255 {
        if m == 0 {
            32767
        } else {
            0
        }
    } else if e >= 127 {
        32767
    } else if e == 0 {
        0
    } else if e >= 111 {
        let num: u64 = (0x80_0000u64 + m as u64) * 32767;
        let sh: u32 = 150 - e;
        let den: u64 = pow2_u64(sh);
        let q: u64 = num / den;
        proof {
            vstd::arithmetic::power2::lemma2_to64();
            vstd::arithmetic::power2::lemma_pow2_pos(sh as nat);
            if sh > 24 {
                vstd::arithmetic::power2::lemma_pow2_strictly_increases(24, sh as nat);
            }
            assert(num <= 0xFF_FFFF * 32767) by (nonlinear_arith)
                requires num == (0x80_0000 + m as int) * 32767 && 0 <= m < 0x80_0000;
            assert(den as int * 32767 >= 0x100_0000 * 32767) by (nonlinear_arith)
                requires den >= 0x100_0000;
            vstd::arithmetic::div_mod::lemma_multiply_divide_le(num as int, den as int, 32767);
        }
        q as i32
    } else {
        proof {
            let sh = (150 - e) as nat;
            vstd::arithmetic::power2::lemma2_to64();
            vstd::arithmetic::power2::lemma2_to64_rest();
            vstd::arithmetic::power2::lemma_pow2_pos(sh);
            if sh > 40 {
                vstd::arithmetic::power2::lemma_pow2_strictly_increases(40, sh);
            }
            assert(pow2(40) == 0x100_0000_0000);
            assert((0x80_0000 + m as int) * 32767 < 0x100_0000_0000) by (nonlinear_arith)
                requires 0 <= m < 0x80_0000;
            vstd::arithmetic::div_mod::lemma_basic_div(
                ((0x80_0000 + m as nat) * 32767) as int,
                pow2(sh) as int,
            );
        }
        0
    };
    if sign == 1 {
        -mag
    } else {
        mag
    }
}

/// The wide (pre-average, pre-normalization) integer value of per-channel
/// sample `idx`.
pub open spec fn spec_chan_val(bytes: Seq<u8>, fmt: SampleFormat, idx: nat) -> int
    recommends
        (idx + 1) * fmt.spec_bytes_per_sample() <= bytes.len(),
{
    match fmt {
        SampleFormat::S16le => spec_s16_of_le(bytes[2 * idx as int], bytes[(2 * idx + 1) as int]),
        SampleFormat::S32le => spec_s32_of_u32(
            spec_u32_of_le(
                bytes[4 * idx as int],
                bytes[(4 * idx + 1) as int],
                bytes[(4 * idx + 2) as int],
                bytes[(4 * idx + 3) as int],
            ),
        ),
        SampleFormat::F32le => spec_q15_of_f32_bits(
            spec_u32_of_le(
                bytes[4 * idx as int],
                bytes[(4 * idx + 1) as int],
                bytes[(4 * idx + 2) as int],
                bytes[(4 * idx + 3) as int],
            ),
        ),
        SampleFormat::S8 => spec_s8_of_u8(bytes[idx as int]),
        SampleFormat::U8 => bytes[idx as int] as int,
    }
}

/// Smallest wide value a per-channel sample of this format can take.
pub open spec fn spec_val_lo(fmt: SampleFormat) -> int {
    match fmt {
        SampleFormat::S16le => -32768,
        SampleFormat::S32le => -0x8000_0000,
        SampleFormat::F32le => -32767,
        SampleFormat::S8 => -128,
        SampleFormat::U8 => 0,
    }
}

/// Largest wide value a per-channel sample of this format can take.
pub open spec fn spec_val_hi(fmt: SampleFormat) -> int {
    match fmt {
        SampleFormat::S16le => 32767,
        SampleFormat::S32le => 0x7FFF_FFFF,
        SampleFormat::F32le => 32767,
        SampleFormat::S8 => 127,
        SampleFormat::U8 => 255,
    }
}

/// Every per-channel wide value lies in its format's range.
pub proof fn lemma_chan_val_in_range(bytes: Seq<u8>, fmt: SampleFormat, idx: nat)
    requires
        (idx + 1) * fmt.spec_bytes_per_sample() <= bytes.len(),
    ensures
        spec_val_lo(fmt) <= spec_chan_val(bytes, fmt, idx) <= spec_val_hi(fmt),
{
    match fmt {
        SampleFormat::F32le => {
            lemma_q15_of_f32_bits_in_range(
                spec_u32_of_le(
                    bytes[4 * idx as int],
                    bytes[(4 * idx + 1) as int],
                    bytes[(4 * idx + 2) as int],
                    bytes[(4 * idx + 3) as int],
                ),
            );
        },
        _ => {},
    }
}

/// Sum of the first `k` per-channel wide values of output frame `f`, for
/// channel count `ch`.
pub open spec fn spec_frame_sum(bytes: Seq<u8>, fmt: SampleFormat, ch: nat, f: nat, k: nat) -> int
    decreases k,
{
    if k == 0 {
        0
    } else {
        spec_frame_sum(bytes, fmt, ch, f, (k - 1) as nat)
            + spec_chan_val(bytes, fmt, f * ch + (k - 1) as nat)
    }
}

/// A frame sum of `k` in-range values is bounded by `k` times the range.
pub proof fn lemma_frame_sum_bounds(bytes: Seq<u8>, fmt: SampleFormat, ch: nat, f: nat, k: nat)
    requires
        k <= ch,
        (f * ch + ch) * fmt.spec_bytes_per_sample() <= bytes.len(),
    ensures
        k * spec_val_lo(fmt) <= spec_frame_sum(bytes, fmt, ch, f, k) <= k * spec_val_hi(fmt),
    decreases k,
{
    if k == 0 {
    } else {
        let k1 = (k - 1) as nat;
        lemma_frame_sum_bounds(bytes, fmt, ch, f, k1);
        let idx = f * ch + k1;
        assert((idx + 1) * fmt.spec_bytes_per_sample() <= bytes.len()) by (nonlinear_arith)
            requires
                idx + 1 <= f * ch + ch,
                (f * ch + ch) * fmt.spec_bytes_per_sample() <= bytes.len(),
                fmt.spec_bytes_per_sample() >= 1;
        lemma_chan_val_in_range(bytes, fmt, idx);
        let lo = spec_val_lo(fmt);
        let hi = spec_val_hi(fmt);
        assert(k * lo == k1 * lo + lo && k * hi == k1 * hi + hi) by (nonlinear_arith)
            requires k >= 1 && k1 == k - 1;
    }
}

/// The normalized Q15 value of output frame `f`: the truncated mean of the
/// frame's per-channel wide values, normalized as the format prescribes.
pub open spec fn spec_frame_q15(bytes: Seq<u8>, fmt: SampleFormat, ch: nat, f: nat) -> int
    recommends
        ch >= 1,
{
    let avg = div_trunc(spec_frame_sum(bytes, fmt, ch, f, ch), ch as int);
    match fmt {
        SampleFormat::S16le => avg,
        SampleFormat::S32le => avg / 65536,
        SampleFormat::F32le => avg,
        SampleFormat::S8 => avg * 256,
        SampleFormat::U8 => (avg - 128) * 256,
    }
}

/// Every decoded frame value lies in the Q15 sample range.
pub proof fn lemma_frame_q15_in_range(bytes: Seq<u8>, fmt: SampleFormat, ch: nat, f: nat)
    requires
        ch >= 1,
        (f * ch + ch) * fmt.spec_bytes_per_sample() <= bytes.len(),
    ensures
        -32768 <= spec_frame_q15(bytes, fmt, ch, f) <= 32767,
{
    lemma_frame_sum_bounds(bytes, fmt, ch, f, ch);
    let s = spec_frame_sum(bytes, fmt, ch, f, ch);
    crate::arith::lemma_div_trunc_bounds(s, ch as int, spec_val_lo(fmt), spec_val_hi(fmt));
    let avg = div_trunc(s, ch as int);
    match fmt {
        SampleFormat::S32le => {
            vstd::arithmetic::div_mod::lemma_div_is_ordered(-0x8000_0000, avg, 65536);
            vstd::arithmetic::div_mod::lemma_div_is_ordered(avg, 0x7FFF_FFFF, 65536);
        },
        _ => {},
    }
}

/// The full decode of a packet: one Q15 mono sample per complete
/// multi-channel frame; trailing bytes that do not complete a frame are
/// discarded.
pub open spec fn spec_decode(bytes: Seq<u8>, fmt: SampleFormat, ch: nat) -> Seq<i16>
    recommends
        ch >= 1,
{
    let frames = bytes.len() / (fmt.spec_bytes_per_sample() * ch);
    Seq::new(frames, |f: int| spec_frame_q15(bytes, fmt, ch, f as nat) as i16)
}

/// Reads the wide value of per-channel sample `idx` from the packet bytes.
fn chan_val(bytes: &Vec<u8>, fmt: SampleFormat, idx: usize) -> (v: i64)
    requires
        (idx + 1) * fmt.spec_bytes_per_sample() <= bytes@.len(),
    ensures
        v == spec_chan_val(bytes@, fmt, idx as nat),
        spec_val_lo(fmt) <= v <= spec_val_hi(fmt),
{
    proof {
        vstd::std_specs::vec::axiom_spec_len(bytes);
        lemma_chan_val_in_range(bytes@, fmt, idx as nat);
    }
    match fmt {
        SampleFormat::S16le => {
            let b0 = bytes[2 * idx];
            let b1 = bytes[2 * idx + 1];
            let u: u32 = b0 as u32 + 256 * (b1 as u32);
            if u >= 32768 {
                u as i64 - 65536
            } else {
                u as i64
            }
        },
        SampleFormat::S32le => {
            let u = read_u32_le(bytes, 4 * idx);
            if u >= 0x8000_0000 {
                u as i64 - 0x1_0000_0000
            } else {
                u as i64
            }
        },
        SampleFormat::F32le => {
            let u = read_u32_le(bytes, 4 * idx);
            q15_of_f32_bits(u) as i64
        },
        SampleFormat::S8 => {
            let b = bytes[idx];
            if b >= 128 {
                b as i64 - 256
            } else {
                b as i64
            }
        },
        SampleFormat::U8 => bytes[idx] as i64,
    }
}

/// Reads a 32-bit little-endian word starting at byte offset `off`.
fn read_u32_le(bytes: &Vec<u8>, off: usize) -> (u: u32)
    requires
        off + 4 <= bytes@.len(),
    ensures
        u == spec_u32_of_le(
            bytes@[off as int],
            bytes@[off + 1],
            bytes@[off + 2],
            bytes@[off + 3],
        ),
{
    proof {
        vstd::std_specs::vec::axiom_spec_len(bytes);
    }
    let b0 = bytes[off];
    let b1 = bytes[off + 1];
    let b2 = bytes[off + 2];
    let b3 = bytes[off + 3];
    b0 as u32 + 256 * (b1 as u32) + 65536 * (b2 as u32) + 16777216 * (b3 as u32)
}

/// Decodes a raw byte packet into a mono Q15 sample sequence, given its
/// sample format and channel count. Malformed or zero-length input yields
/// an empty sequence, never an error.
pub fn decode_packet(bytes: &Vec<u8>, fmt: SampleFormat, channels: usize) -> (out: Vec<i16>)
    requires
        channels >= 1,
    ensures
        (out@ == spec_decode(bytes@, fmt, channels as nat)),
        (out@.len() == bytes@.len() / (fmt.spec_bytes_per_sample() * channels as nat)),
{
    let bps: usize = fmt.bytes_per_sample();
    proof {
        assert(1 <= (bps as int) * (channels as int) < u128::MAX) by (nonlinear_arith)
            requires
                1 <= bps as int <= 4,
                1 <= channels as int <= 0xFFFF_FFFF_FFFF_FFFFu64 as int;
    }
    let fb128: u128 = (bps as u128) * (channels as u128);
    let len = bytes.len();
    let frames128: u128 = (len as u128) / fb128;
    proof {
        vstd::arithmetic::div_mod::lemma_div_nonincreasing(len as int, fb128 as int);
    }
    let frames: usize = frames128 as usize;
    let ghost gch: nat = channels as nat;
    let ghost gfb: nat = fmt.spec_bytes_per_sample() * gch;
    proof {
        assert(gfb == fb128);
        assert(frames == bytes@.len() as nat / gfb);
    }

    let mut out: Vec<i16> = Vec::new();
    let mut f: usize = 0;
    while f < frames
        invariant
            f <= frames,
            channels >= 1,
            bps == fmt.spec_bytes_per_sample(),
            1 <= bps <= 4,
            gch == (channels as nat),
            gfb == fmt.spec_bytes_per_sample() * gch,
            frames == (bytes@.len() / gfb),
            out@.len() == f,
            forall|j: int| 0 <= j < f ==> (out@[j] == spec_frame_q15(bytes@, fmt, gch, j as nat) as i16),
        decreases frames - f,
    {
        proof {
            vstd::arithmetic::div_mod::lemma_fundamental_div_mod(
                bytes@.len() as int, gfb as int);
            assert((f * gch + gch) * fmt.spec_bytes_per_sample() <= bytes@.len())
                by (nonlinear_arith)
                requires
                    f + 1 <= frames,
                    gfb == fmt.spec_bytes_per_sample() * gch,
                    frames * gfb <= bytes@.len(),
                    fmt.spec_bytes_per_sample() >= 1,
                    gch >= 1;
        }
        let mut sum: i128 = 0;
        let mut k: usize = 0;
        while k < channels
            invariant
                k <= channels,
                channels >= 1,
                bps == fmt.spec_bytes_per_sample(),
                1 <= bps <= 4,
                gch == (channels as nat),
                (f * gch + gch) * fmt.spec_bytes_per_sample() <= bytes@.len(),
                sum == spec_frame_sum(bytes@, fmt, gch, f as nat, k as nat),
                k * spec_val_lo(fmt) <= sum <= k * spec_val_hi(fmt),
            decreases channels - k,
        {
            proof {
                assert((f * gch + k) + 1 <= f * gch + gch);
                assert(f * gch + gch <= bytes@.len()) by (nonlinear_arith)
                    requires
                        (f * gch + gch) * fmt.spec_bytes_per_sample() <= bytes@.len(),
                        fmt.spec_bytes_per_sample() >= 1,
                        f * gch + gch >= 0;
            }
            proof {
                vstd::std_specs::vec::axiom_spec_len(bytes);
            }
            let idx: usize = f * channels + k;
            proof {
                assert((idx + 1) * fmt.spec_bytes_per_sample() <= bytes@.len())
                    by (nonlinear_arith)
                    requires
                        idx + 1 <= f * gch + gch,
                        (f * gch + gch) * fmt.spec_bytes_per_sample() <= bytes@.len(),
                        fmt.spec_bytes_per_sample() >= 1;
            }
            let v = chan_val(bytes, fmt, idx);
            proof {
                let lo = spec_val_lo(fmt);
                let hi = spec_val_hi(fmt);
                assert((k + 1) * lo <= sum + v <= (k + 1) * hi) by (nonlinear_arith)
                    requires
                        k * lo <= sum <= k * hi,
                        lo <= v <= hi;
                assert((k as int + 1) * lo > i128::MIN && (k as int + 1) * hi < i128::MAX)
                    by (nonlinear_arith)
                    requires
                        0 <= k as int + 1 <= 0x1_0000_0000_0000_0000,
                        -0x8000_0000 <= lo <= 0,
                        0 <= hi <= 0x8000_0000;
            }
            sum = sum + v as i128;
            k = k + 1;
        }
        proof {
            assert(channels as int * spec_val_lo(fmt) >= -0x8000_0000_0000_0000_0000_0000i128)
                by (nonlinear_arith)
                requires
                    0 <= channels as int <= 0x1_0000_0000_0000_0000,
                    -0x8000_0000 <= spec_val_lo(fmt) <= 0;
        }
        let avg128: i128 = crate::arith::div_trunc_i128(sum, channels as u64);
        proof {
            crate::arith::lemma_div_trunc_bounds(
                sum as int, channels as int, spec_val_lo(fmt), spec_val_hi(fmt));
            lemma_frame_q15_in_range(bytes@, fmt, gch, f as nat);
        }
        let avg: i64 = avg128 as i64;
        let q: i64 = match fmt {
            SampleFormat::S16le => avg,
            SampleFormat::S32le => crate::arith::div_floor_i64(avg, 65536),
            SampleFormat::F32le => avg,
            SampleFormat::S8 => avg * 256,
            SampleFormat::U8 => (avg - 128) * 256,
        };
        out.push(q as i16);
        f = f + 1;
    }
    proof {
        assert(out@ =~= spec_decode(bytes@, fmt, channels as nat));
    }
    out
}

/// The low byte of the little-endian encoding of a Q15 sample.
pub open spec fn spec_s16_low_byte(v: i16) -> u8 {
    let u = if v < 0 { v + 65536 } else { v as int };
    (u % 256) as u8
}

/// The high byte of the little-endian encoding of a Q15 sample.
pub open spec fn spec_s16_high_byte(v: i16) -> u8 {
    let u = if v < 0 { v + 65536 } else { v as int };
    (u / 256) as u8
}

/// The S16LE byte encoding of a mono Q15 sequence: two bytes per sample,
/// low byte first.
pub open spec fn spec_encode_s16le(samples: Seq<i16>) -> Seq<u8> {
    Seq::new(
        2 * samples.len(),
        |i: int| if i % 2 == 0 {
            spec_s16_low_byte(samples[i / 2])
        } else {
            spec_s16_high_byte(samples[i / 2])
        },
    )
}

/// Encodes a mono Q15 sequence as S16LE bytes, two per sample.
pub fn encode_s16le(samples: &Vec<i16>) -> (out: Vec<u8>)
    ensures
        out@ == spec_encode_s16le(samples@),
{
    let n = samples.len();
    proof {
        assert(2 * (n as int) <= 2 * usize::MAX as int);
    }
    let mut out: Vec<u8> = Vec::new();
    let mut j: usize = 0;
    while j < n
        invariant
            j <= n,
            n == samples@.len(),
            out@.len() == 2 * j,
            forall|i: int| 0 <= i < 2 * j ==> out@[i] == spec_encode_s16le(samples@)[i],
        decreases n - j,
    {
        let v = samples[j];
        let u: u32 = if v < 0 {
            (v as i32 + 65536) as u32
        } else {
            v as u32
        };
        out.push((u % 256) as u8);
        out.push((u / 256) as u8);
        j = j + 1;
    }
    proof {
        assert(out@ =~= spec_encode_s16le(samples@));
    }
    out
}

/// The channel count actually used for downmixing: a count of zero is
/// treated as mono.
pub open spec fn spec_mono_channels(channels: nat) -> nat {
    if channels == 0 {
        1nat
    } else {
        channels
    }
}

/// What converting a packet to S16LE mono yields, given the textual format
/// label the packet arrived with: any recognized format is decoded — with
/// multi-channel downmixing, offset-centering for unsigned 8-bit, scaling
/// for the narrow and wide widths, and trailing partial frames discarded —
/// and re-encoded as S16LE. Unrecognized labels pass through unchanged.
pub open spec fn spec_to_s16le_mono(bytes: Seq<u8>, label: Seq<char>, channels: nat) -> Seq<u8> {
    match SampleFormat::spec_from_label(label) {
        Some(fmt) => spec_encode_s16le(spec_decode(bytes, fmt, spec_mono_channels(channels))),
        None => bytes,
    }
}

/// Copies a byte vector.
fn copy_bytes(input: &Vec<u8>) -> (out: Vec<u8>)
    ensures
        out@ == input@,
{
    let n = input.len();
    let mut out: Vec<u8> = Vec::new();
    let mut j: usize = 0;
    while j < n
        invariant
            j <= n,
            n == input@.len(),
            out@ == input@.take(j as int),
        decreases n - j,
    {
        out.push(input[j]);
        proof {
            assert(out@ =~= input@.take(j + 1 as int));
        }
        j = j + 1;
    }
    proof {
        assert(input@.take(n as int) =~= input@);
    }
    out
}

/// Converts a raw packet to signed 16-bit little-endian mono bytes, given
/// the textual format label and channel count it arrived with. Recognized
/// formats are decoded — downmixed, centered and scaled as the format
/// prescribes, with trailing partial frames discarded — and re-encoded;
/// an unrecognized label passes through unchanged.
pub fn to_s16le_mono(input: &Vec<u8>, format: &str, channels: usize) -> (out: Vec<u8>)
    ensures
        out@ == spec_to_s16le_mono(input@, format@, channels as nat),
{
    match SampleFormat::from_label(format) {
        Some(fmt) => {
            let ch: usize = if channels == 0 { 1 } else { channels };
            let decoded = decode_packet(input, fmt, ch);
            encode_s16le(&decoded)
        },
        None => copy_bytes(input),
    }
}

/// All-zero bytes give a zero wide value in every format but unsigned
/// 8-bit.
proof fn lemma_zero_chan_val(bytes: Seq<u8>, fmt: SampleFormat, idx: nat)
    requires
        (idx + 1) * fmt.spec_bytes_per_sample() <= bytes.len(),
        forall|i: int| 0 <= i < bytes.len() ==> bytes[i] == 0u8,
        fmt != SampleFormat::U8,
    ensures
        spec_chan_val(bytes, fmt, idx) == 0,
{
    match fmt {
        SampleFormat::S16le => {
            assert(bytes[2 * idx as int] == 0u8);
        },
        SampleFormat::S32le => {
            assert(bytes[4 * idx as int] == 0u8);
        },
        SampleFormat::F32le => {
            assert(bytes[4 * idx as int] == 0u8);
            assert(spec_u32_of_le(0u8, 0u8, 0u8, 0u8) == 0);
        },
        SampleFormat::S8 => {
            assert(bytes[idx as int] == 0u8);
        },
        SampleFormat::U8 => {},
    }
}

/// A frame sum over all-zero bytes is zero.
proof fn lemma_zero_frame_sum(bytes: Seq<u8>, fmt: SampleFormat, ch: nat, f: nat, k: nat)
    requires
        k <= ch,
        (f * ch + ch) * fmt.spec_bytes_per_sample() <= bytes.len(),
        forall|i: int| 0 <= i < bytes.len() ==> bytes[i] == 0u8,
        fmt != SampleFormat::U8,
    ensures
        spec_frame_sum(bytes, fmt, ch, f, k) == 0,
    decreases k,
{
    if k == 0 {
    } else {
        let k1 = (k - 1) as nat;
        lemma_zero_frame_sum(bytes, fmt, ch, f, k1);
        let idx = f * ch + k1;
        assert((idx + 1) * fmt.spec_bytes_per_sample() <= bytes.len()) by (nonlinear_arith)
            requires
                idx + 1 <= f * ch + ch,
                (f * ch + ch) * fmt.spec_bytes_per_sample() <= bytes.len(),
                fmt.spec_bytes_per_sample() >= 1;
        lemma_zero_chan_val(bytes, fmt, idx);
    }
}

/// Decoding a packet of all-zero bytes yields all-zero samples, for every
/// channel count and every format except unsigned 8-bit — whose zero byte
/// is full negative amplitude, since that encoding is centered at 128.
pub proof fn lemma_decode_zero_packet(bytes: Seq<u8>, fmt: SampleFormat, ch: nat)
    requires
        ch >= 1,
        forall|i: int| 0 <= i < bytes.len() ==> bytes[i] == 0u8,
        fmt != SampleFormat::U8,
    ensures
        forall|k: int| 0 <= k < spec_decode(bytes, fmt, ch).len()
            ==> spec_decode(bytes, fmt, ch)[k] == 0i16,
{
    let gfb = fmt.spec_bytes_per_sample() * ch;
    let frames = bytes.len() / gfb;
    assert forall|k: int| 0 <= k < spec_decode(bytes, fmt, ch).len()
        implies spec_decode(bytes, fmt, ch)[k] == 0i16 by {
        vstd::arithmetic::div_mod::lemma_fundamental_div_mod(bytes.len() as int, gfb as int);
        assert((k * ch + ch) * fmt.spec_bytes_per_sample() <= bytes.len()) by (nonlinear_arith)
            requires
                k + 1 <= frames as int,
                gfb == fmt.spec_bytes_per_sample() * ch,
                frames * gfb <= bytes.len(),
                fmt.spec_bytes_per_sample() >= 1,
                ch >= 1,
                k >= 0;
        lemma_zero_frame_sum(bytes, fmt, ch, k as nat, ch);
        vstd::arithmetic::div_mod::lemma_div_of0(ch as int);
        vstd::arithmetic::div_mod::lemma_div_of0(65536);
        assert(spec_frame_q15(bytes, fmt, ch, k as nat) == 0);
    }
}

} // verus!
