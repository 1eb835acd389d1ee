//! The real-time output path: when the backend asks for `frames_needed`
//! interleaved frames, the engine first refills the ring buffer from queued
//! packets (decoding and resampling just enough to satisfy this callback),
//! then either emits pure silence — when the buffer holds fewer samples
//! than both the request and the prefill threshold — or emits the buffered
//! samples, duplicating each mono sample across every output channel.

use vstd::prelude::*;
use crate::arith::div_trunc;
use crate::decode::spec_decode;
use crate::format::SampleFormat;
use crate::queue::PacketQueue;
use crate::resample::{spec_out_len, spec_resample, resample};
use crate::ring::{bounded_append, RingBuffer};
use crate::decode::decode_packet;

verus! {

/// The prefill threshold: a tenth of a second of samples at the device
/// rate. Below it, underruns are answered with silence rather than a
/// partial frame.
pub open spec fn spec_min_prefill(device_rate: nat) -> nat {
    device_rate / 10
}

/// The prefill threshold in samples for a device rate.
pub fn min_prefill(device_rate: u32) -> (r: u32)
    ensures
        r == spec_min_prefill(device_rate as nat),
{
    device_rate / 10
}

/// The queue and ring contents after the refill step: while the ring holds
/// fewer than `frames_needed` samples and the queue is non-empty, one
/// packet is popped, decoded as S16LE mono, resampled from `rs` to `rd`,
/// and appended to the ring under its capacity bound.
pub open spec fn spec_refill(
    qc: Seq<Seq<u8>>,
    rc: Seq<i16>,
    frames_needed: nat,
    rs: nat,
    rd: nat,
    cap: nat,
) -> (Seq<Seq<u8>>, Seq<i16>)
    decreases qc.len(),
{
    if rc.len() >= frames_needed || qc.len() == 0 {
        (qc, rc)
    } else {
        let decoded = spec_decode(qc[0], SampleFormat::S16le, 1);
        let resampled = spec_resample(decoded, rs, rd);
        spec_refill(qc.skip(1), bounded_append(rc, resampled, cap), frames_needed, rs, rd, cap)
    }
}

/// The interleaved samples emitted for `frames_needed` frames over
/// `channels` output channels: frame `f` repeats `avail[f]` in every
/// channel slot, or 0 where no sample is available.
pub open spec fn spec_emit(avail: Seq<i16>, frames_needed: nat, channels: nat) -> Seq<i16>
    recommends
        channels >= 1,
{
    Seq::new(
        frames_needed * channels,
        |i: int| if i / (channels as int) < avail.len() {
            avail[i / (channels as int)]
        } else {
            0i16
        },
    )
}

/// Whether the underrun policy applies: the ring holds fewer samples than
/// both the request and the prefill threshold.
pub open spec fn spec_underrun(avail: nat, frames_needed: nat, device_rate: nat) -> bool {
    avail < frames_needed && avail < spec_min_prefill(device_rate)
}

/// Renders one output-callback invocation: refills the ring buffer from the
/// packet queue, then produces exactly `frames_needed * channels`
/// interleaved Q15 samples — entirely silence if the post-refill buffer is
/// below both the request and the prefill threshold, otherwise the buffered
/// samples duplicated across all channels (with silence for any shortfall
/// past the prefill rule), consuming them from the ring's front.
pub fn render(
    queue: &mut PacketQueue,
    ring: &mut RingBuffer,
    frames_needed: usize,
    channels: usize,
    source_rate: u32,
    device_rate: u32,
) -> (out: Vec<i16>)
    requires
        old(queue).inv(),
        old(ring).inv(),
        channels >= 1,
        source_rate >= 1,
        device_rate >= 1,
        frames_needed * channels <= usize::MAX,
        forall|i: int| 0 <= i < old(queue).contents().len() ==> spec_out_len(
            (old(queue).contents()[i].len() / 2) as nat,
            source_rate as nat,
            device_rate as nat,
        ) <= usize::MAX,
    ensures
        final(queue).inv(),
        final(ring).inv(),
        final(queue).capacity() == old(queue).capacity(),
        final(ring).capacity() == old(ring).capacity(),
        out@.len() == frames_needed * channels,
        ({
            let (q2, r2) = spec_refill(
                old(queue).contents(),
                old(ring).contents(),
                frames_needed as nat,
                source_rate as nat,
                device_rate as nat,
                old(ring).capacity() as nat,
            );
            &&& final(queue).contents() == q2
            &&& (if spec_underrun(r2.len(), frames_needed as nat, device_rate as nat) {
                &&& out@ == spec_emit(Seq::<i16>::empty(), frames_needed as nat, channels as nat)
                &&& (forall|i: int| 0 <= i < out@.len() ==> out@[i] == 0i16)
                &&& final(ring).contents() == r2
            } else {
                &&& out@ == spec_emit(r2, frames_needed as nat, channels as nat)
                &&& final(ring).contents() == r2.skip(
                    vstd::math::min(frames_needed as int, r2.len() as int),
                )
            })
        }),
        (forall|i: int, j: int|
            0 <= i < out@.len() && 0 <= j < out@.len() && i / (channels as int) == j / (channels as int)
                ==> (out@[i] == out@[j])),
{
    let ghost orig_q = queue.contents();
    let ghost orig_r = ring.contents();
    let ghost gframes: nat = frames_needed as nat;
    let ghost grs: nat = source_rate as nat;
    let ghost grd: nat = device_rate as nat;
    let ghost gcap: nat = ring.capacity() as nat;

    // Refill step: decode and resample just enough queued packets to cover
    // this callback.
    while ring.available_len() < frames_needed && !queue.is_empty()
        invariant
            queue.inv(),
            ring.inv(),
            source_rate >= 1,
            device_rate >= 1,
            queue.capacity() == old(queue).capacity(),
            ring.capacity() == old(ring).capacity(),
            gcap == (ring.capacity() as nat),
            gframes == (frames_needed as nat),
            grs == (source_rate as nat),
            grd == (device_rate as nat),
            (forall|i: int| 0 <= i < queue.contents().len() ==> spec_out_len(
                (queue.contents()[i].len() / 2) as nat,
                grs,
                grd,
            ) <= usize::MAX),
            spec_refill(queue.contents(), ring.contents(), gframes, grs, grd, gcap)
                == spec_refill(orig_q, orig_r, gframes, grs, grd, gcap),
        decreases queue.contents().len(),
    {
        let packet = queue.try_dequeue_one();
        match packet {
            Some(p) => {
                let decoded = decode_packet(&p, SampleFormat::S16le, 1);
                let resampled = resample(&decoded, source_rate, device_rate);
                ring.refill_from(&resampled);
            },
            None => {
                // unreachable: the loop condition guarantees a non-empty queue
            },
        }
    }
    let ghost pair = spec_refill(orig_q, orig_r, gframes, grs, grd, gcap);
    proof {
        assert(queue.contents() == pair.0 && ring.contents() == pair.1);
    }

    // Underrun policy: emit pure silence rather than a partial frame.
    let avail_len = ring.available_len();
    let prefill = min_prefill(device_rate);
    let underrun = avail_len < frames_needed && (avail_len as u64) < (prefill as u64);
    let avail: Vec<i16> = if underrun {
        Vec::new()
    } else {
        ring.take_front(frames_needed)
    };
    proof {
        if !underrun {
            assert(avail@ == pair.1.take(vstd::math::min(frames_needed as int, pair.1.len() as int)));
        }
    }

    // Emission step: duplicate each mono sample into every channel slot.
    let total = frames_needed * channels;
    let mut out: Vec<i16> = Vec::new();
    let mut i: usize = 0;
    while i < total
        invariant
            i <= total,
            channels >= 1,
            total == frames_needed * channels,
            out@.len() == i,
            forall|j: int| 0 <= j < i ==> out@[j] == spec_emit(
                avail@,
                frames_needed as nat,
                channels as nat,
            )[j],
        decreases total - i,
    {
        proof {
            assert((channels as int) * (frames_needed as int) == (frames_needed as int) * (channels as int)) by (nonlinear_arith);
            vstd::arithmetic::div_mod::lemma_multiply_divide_lt(
                i as int, channels as int, frames_needed as int);
            vstd::arithmetic::div_mod::lemma_div_pos_is_pos(i as int, channels as int);
            vstd::arithmetic::div_mod::lemma_div_nonincreasing(i as int, channels as int);
        }
        let f: usize = i / channels;
        let s: i16 = if f < avail.len() {
            avail[f]
        } else {
            0
        };
        out.push(s);
        i = i + 1;
    }
    proof {
        assert(out@ =~= spec_emit(avail@, gframes, channels as nat));
        if underrun {
            assert(out@ =~= spec_emit(Seq::<i16>::empty(), gframes, channels as nat));
            assert(forall|j: int| 0 <= j < out@.len() ==> out@[j] == 0i16);
        } else {
            assert forall|j: int| 0 <= j < out@.len() implies out@[j] == spec_emit(
                pair.1, gframes, channels as nat)[j] by {
                vstd::arithmetic::div_mod::lemma_multiply_divide_lt(
                    j, channels as int, frames_needed as int);
                vstd::arithmetic::div_mod::lemma_div_pos_is_pos(j, channels as int);
            }
            assert(out@ =~= spec_emit(pair.1, gframes, channels as nat));
        }
    }
    out
}

/// A Q15 sample adapted to an integer 16-bit backend: the normalized value
/// clamped to `[-1, 1]` and scaled by 32767, i.e. `v * 32767 / 32768`
/// truncated toward zero.
pub open spec fn spec_adapt_i16(v: i16) -> int {
    div_trunc(v * 32767, 32768)
}

/// Adapts one Q15 sample to the backend's signed 16-bit range.
pub fn adapt_i16(v: i16) -> (r: i16)
    ensures
        r == spec_adapt_i16(v),
{
    if v >= 0 {
        let u: u32 = (v as u32) * 32767 / 32768;
        proof {
            vstd::arithmetic::div_mod::lemma_multiply_divide_lt(
                (v as int) * 32767, 32768, 32767);
            vstd::arithmetic::div_mod::lemma_div_pos_is_pos((v as int) * 32767, 32768);
        }
        u as i16
    } else {
        let m: u32 = (-(v as i32)) as u32;
        let q: u32 = m * 32767 / 32768;
        proof {
            vstd::arithmetic::div_mod::lemma_multiply_divide_le(
                (m as int) * 32767, 32768, 32767);
            vstd::arithmetic::div_mod::lemma_div_pos_is_pos((m as int) * 32767, 32768);
        }
        -(q as i16)
    }
}

/// Adapts a whole emitted buffer to the backend's signed 16-bit range.
pub fn adapt_frame_i16(samples: &Vec<i16>) -> (out: Vec<i16>)
    ensures
        out@.len() == samples@.len(),
        forall|i: int| 0 <= i < out@.len() ==> out@[i] == spec_adapt_i16(samples@[i]),
{
    let n = samples.len();
    let mut out: Vec<i16> = Vec::new();
    let mut j: usize = 0;
    while j < n
        invariant
            j <= n,
            n == samples@.len(),
            out@.len() == j,
            forall|i: int| 0 <= i < j ==> out@[i] == spec_adapt_i16(samples@[i]),
        decreases n - j,
    {
        let r = adapt_i16(samples[j]);
        out.push(r);
        j = j + 1;
    }
    out
}

/// The ring-buffer capacity used by the engine: five seconds of samples at
/// the device rate.
pub fn ring_capacity(device_rate: u32) -> (r: usize)
    requires
        device_rate >= 1,
        device_rate * 5 <= usize::MAX,
    ensures
        r == device_rate * 5,
        r >= 1,
{
    (device_rate as usize) * 5
}

} // verus!
