use common_audio_playback::engine::{adapt_frame_i16, adapt_i16, min_prefill, render, ring_capacity};
use common_audio_playback::decode::decode_packet;
use common_audio_playback::format::SampleFormat;
use common_audio_playback::lifecycle::{LifecycleController, LifecycleState};
use common_audio_playback::{PacketQueue, RingBuffer};

fn ramp_packet(n: usize) -> Vec<u8> {
    let mut bytes = Vec::new();
    for k in 0..n {
        bytes.extend_from_slice(&(k as i16).to_le_bytes());
    }
    bytes
}

#[test]
fn one_packet_at_device_rate_plays_back_unchanged() {
    // A 16-bit mono packet of 960 samples (1920 bytes) at 48000 Hz into a
    // device negotiated at 48000 Hz mono.
    let mut queue = PacketQueue::new(100);
    let mut ring = RingBuffer::new(ring_capacity(48000));
    let packet = ramp_packet(960);
    assert_eq!(packet.len(), 1920);
    queue.enqueue(packet);

    let out = render(&mut queue, &mut ring, 960, 1, 48000, 48000);
    let expected: Vec<i16> = (0..960).map(|k| k as i16).collect();
    assert_eq!(out, expected);
    assert!(queue.is_empty());
    assert_eq!(ring.available_len(), 0);
}

#[test]
fn refill_grows_the_ring_by_the_decoded_length() {
    let mut ring = RingBuffer::new(ring_capacity(48000));
    let packet = ramp_packet(960);
    let decoded = decode_packet(&packet, SampleFormat::S16le, 1);
    assert_eq!(decoded.len(), 960);
    ring.refill_from(&decoded);
    assert_eq!(ring.available_len(), 960);
    let front = ring.take_front(960);
    let expected: Vec<i16> = (0..960).map(|k| k as i16).collect();
    assert_eq!(front, expected);
}

#[test]
fn underrun_below_prefill_emits_pure_silence() {
    // The ring holds fewer samples than both the request and the prefill
    // threshold, and the queue is empty: the whole callback is silence and
    // the buffered samples stay untouched.
    let mut queue = PacketQueue::new(10);
    let mut ring = RingBuffer::new(ring_capacity(48000));
    ring.refill_from(&vec![11, 22, 33]);

    let out = render(&mut queue, &mut ring, 960, 2, 48000, 48000);
    assert_eq!(out.len(), 960 * 2);
    assert!(out.iter().all(|&s| s == 0));
    assert_eq!(ring.available_len(), 3);
}

#[test]
fn emitted_frames_duplicate_the_mono_sample_across_channels() {
    let mut queue = PacketQueue::new(10);
    let mut ring = RingBuffer::new(ring_capacity(48000));
    let samples: Vec<i16> = (0..8).map(|k| (k * 111) as i16).collect();
    ring.refill_from(&samples);

    let out = render(&mut queue, &mut ring, 8, 3, 48000, 48000);
    assert_eq!(out.len(), 24);
    for f in 0..8 {
        assert_eq!(out[3 * f], samples[f]);
        assert_eq!(out[3 * f + 1], samples[f]);
        assert_eq!(out[3 * f + 2], samples[f]);
    }
    assert_eq!(ring.available_len(), 0);
}

#[test]
fn shortfall_above_prefill_pads_with_silence() {
    // Enough buffered to pass the prefill rule (>= 100 ms at 40 Hz is 4
    // samples) but fewer than requested: real samples first, silence after.
    let mut queue = PacketQueue::new(10);
    let mut ring = RingBuffer::new(200);
    ring.refill_from(&vec![5, 6, 7, 8]);

    let out = render(&mut queue, &mut ring, 6, 1, 40, 40);
    assert_eq!(out, vec![5, 6, 7, 8, 0, 0]);
    assert_eq!(ring.available_len(), 0);
}

#[test]
fn render_resamples_between_source_and_device_rates() {
    let mut queue = PacketQueue::new(10);
    let mut ring = RingBuffer::new(ring_capacity(44100));
    queue.enqueue(ramp_packet(960));

    // 960 samples at 48000 Hz resample to round(960 * 44100 / 48000) = 882
    // at the device rate; that is under both the request and the prefill
    // threshold (4410), so this callback is silence, but the resampled
    // samples stay buffered.
    let out = render(&mut queue, &mut ring, 960, 1, 48000, 44100);
    assert!(out.iter().all(|&s| s == 0));
    assert_eq!(ring.available_len(), 882);
}

#[test]
fn min_prefill_is_a_tenth_of_the_device_rate() {
    assert_eq!(min_prefill(48000), 4800);
    assert_eq!(min_prefill(44100), 4410);
    assert_eq!(min_prefill(9), 0);
}

#[test]
fn ring_capacity_is_five_seconds_of_samples() {
    assert_eq!(ring_capacity(48000), 240000);
    assert_eq!(ring_capacity(1), 5);
}

#[test]
fn adapt_i16_scales_q15_to_the_backend_range() {
    assert_eq!(adapt_i16(0), 0);
    assert_eq!(adapt_i16(1), 0);
    assert_eq!(adapt_i16(-1), 0);
    assert_eq!(adapt_i16(32767), 32766);
    assert_eq!(adapt_i16(-32768), -32767);
    assert_eq!(adapt_i16(16384), 16383);
    let frame = vec![0i16, 32767, -32768];
    assert_eq!(adapt_frame_i16(&frame), vec![0, 32766, -32767]);
}

#[test]
fn lifecycle_moves_only_forward() {
    let mut ctl = LifecycleController::new();
    assert!(!ctl.shutdown_requested());
    assert!(!ctl.should_continue());

    ctl.start();
    assert!(ctl.should_continue());
    assert!(!ctl.shutdown_requested());

    ctl.request_shutdown();
    assert!(!ctl.should_continue());
    assert!(ctl.shutdown_requested());

    ctl.confirm_stopped();
    assert!(!ctl.should_continue());
    assert!(ctl.shutdown_requested());
    let _ = LifecycleState::Stopped;
}
