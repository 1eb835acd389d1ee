use common_audio_playback::decode::{decode_packet, to_s16le_mono};
use common_audio_playback::format::SampleFormat;

fn le16(v: i16) -> [u8; 2] {
    v.to_le_bytes()
}

#[test]
fn zero_bytes_decode_to_zero_s16_mono() {
    let bytes = vec![0u8; 64];
    let out = decode_packet(&bytes, SampleFormat::S16le, 1);
    assert_eq!(out.len(), 32);
    assert!(out.iter().all(|&s| s == 0));
}

#[test]
fn zero_bytes_decode_to_zero_s16_stereo() {
    let bytes = vec![0u8; 64];
    let out = decode_packet(&bytes, SampleFormat::S16le, 2);
    assert_eq!(out.len(), 16);
    assert!(out.iter().all(|&s| s == 0));
}

#[test]
fn zero_bytes_decode_to_zero_s32_and_f32_and_s8() {
    let bytes = vec![0u8; 48];
    assert!(decode_packet(&bytes, SampleFormat::S32le, 1).iter().all(|&s| s == 0));
    assert!(decode_packet(&bytes, SampleFormat::S32le, 3).iter().all(|&s| s == 0));
    assert!(decode_packet(&bytes, SampleFormat::F32le, 1).iter().all(|&s| s == 0));
    assert!(decode_packet(&bytes, SampleFormat::F32le, 2).iter().all(|&s| s == 0));
    assert!(decode_packet(&bytes, SampleFormat::S8, 1).iter().all(|&s| s == 0));
    assert!(decode_packet(&bytes, SampleFormat::S8, 4).iter().all(|&s| s == 0));
}

#[test]
fn zero_bytes_decode_to_full_negative_u8() {
    // Unsigned 8-bit is centered at 128, so a zero byte is full negative
    // amplitude, not silence.
    let bytes = vec![0u8; 4];
    let out = decode_packet(&bytes, SampleFormat::U8, 1);
    assert_eq!(out, vec![-32768i16; 4]);
}

#[test]
fn s16_mono_decode_is_identity_on_samples() {
    let mut bytes = Vec::new();
    for v in [1i16, -1, 32767, -32768, 12345] {
        bytes.extend_from_slice(&le16(v));
    }
    let out = decode_packet(&bytes, SampleFormat::S16le, 1);
    assert_eq!(out, vec![1, -1, 32767, -32768, 12345]);
}

#[test]
fn s16_trailing_partial_frame_is_discarded() {
    let bytes = vec![0x01, 0x00, 0xFF];
    let out = decode_packet(&bytes, SampleFormat::S16le, 1);
    assert_eq!(out, vec![1]);
}

#[test]
fn stereo_constant_opposites_average_to_zero() {
    // Two interleaved channels holding +100 and -100 at every frame decode
    // to an exactly zero mono signal.
    let mut bytes = Vec::new();
    for _ in 0..8 {
        bytes.extend_from_slice(&le16(100));
        bytes.extend_from_slice(&le16(-100));
    }
    let out = decode_packet(&bytes, SampleFormat::S16le, 2);
    assert_eq!(out, vec![0i16; 8]);
}

#[test]
fn s32_decode_keeps_the_high_sixteen_bits() {
    let mut bytes = Vec::new();
    bytes.extend_from_slice(&(65536i32).to_le_bytes());
    bytes.extend_from_slice(&(-65536i32).to_le_bytes());
    bytes.extend_from_slice(&(0x7FFF_FFFFi32).to_le_bytes());
    bytes.extend_from_slice(&(1i32).to_le_bytes());
    let out = decode_packet(&bytes, SampleFormat::S32le, 1);
    assert_eq!(out, vec![1, -1, 32767, 0]);
}

#[test]
fn f32_decode_is_exact_truncating_q15() {
    let mut bytes = Vec::new();
    for v in [0.5f32, -0.25, 1.5, -2.0, 0.0, -0.0, 1.0, -1.0] {
        bytes.extend_from_slice(&v.to_le_bytes());
    }
    let out = decode_packet(&bytes, SampleFormat::F32le, 1);
    // trunc(clamp(v, -1, 1) * 32767)
    assert_eq!(out, vec![16383, -8191, 32767, -32767, 0, 0, 32767, -32767]);
}

#[test]
fn f32_nan_and_subnormal_decode_to_zero() {
    let mut bytes = Vec::new();
    bytes.extend_from_slice(&f32::NAN.to_le_bytes());
    bytes.extend_from_slice(&1.0e-40f32.to_le_bytes());
    bytes.extend_from_slice(&f32::INFINITY.to_le_bytes());
    bytes.extend_from_slice(&f32::NEG_INFINITY.to_le_bytes());
    let out = decode_packet(&bytes, SampleFormat::F32le, 1);
    assert_eq!(out, vec![0, 0, 32767, -32767]);
}

#[test]
fn u8_decode_centers_at_128() {
    let bytes = vec![128u8, 0, 255, 129];
    let out = decode_packet(&bytes, SampleFormat::U8, 1);
    assert_eq!(out, vec![0, -32768, 32512, 256]);
}

#[test]
fn s8_decode_scales_by_256() {
    let bytes = vec![1u8, 0xFF, 0x80, 0x7F];
    let out = decode_packet(&bytes, SampleFormat::S8, 1);
    assert_eq!(out, vec![256, -256, -32768, 32512]);
}

#[test]
fn to_s16le_mono_keeps_mono_s16_values_and_drops_the_partial_sample() {
    let bytes = vec![1, 2, 3, 4, 5];
    // The four complete bytes pass through; the trailing lone byte does not
    // form a sample and is discarded.
    assert_eq!(to_s16le_mono(&bytes, "S16LE", 1), vec![1, 2, 3, 4]);
    assert_eq!(to_s16le_mono(&bytes, "S16LE", 0), vec![1, 2, 3, 4]);
    let even = vec![7, 8, 9, 10];
    assert_eq!(to_s16le_mono(&even, "S16LE", 1), even);
}

#[test]
fn to_s16le_mono_downmixes_stereo_s16() {
    let mut bytes = Vec::new();
    bytes.extend_from_slice(&le16(100));
    bytes.extend_from_slice(&le16(-100));
    bytes.extend_from_slice(&le16(1000));
    bytes.extend_from_slice(&le16(3000));
    let out = to_s16le_mono(&bytes, "S16LE", 2);
    let mut expected = Vec::new();
    expected.extend_from_slice(&le16(0));
    expected.extend_from_slice(&le16(2000));
    assert_eq!(out, expected);
}

#[test]
fn to_s16le_mono_converts_f32_input() {
    let mut bytes = Vec::new();
    bytes.extend_from_slice(&0.5f32.to_le_bytes());
    bytes.extend_from_slice(&(-1.0f32).to_le_bytes());
    let out = to_s16le_mono(&bytes, "F32LE", 1);
    let mut expected = Vec::new();
    expected.extend_from_slice(&le16(16383));
    expected.extend_from_slice(&le16(-32767));
    assert_eq!(out, expected);
}

#[test]
fn to_s16le_mono_converts_s32_input() {
    let mut bytes = Vec::new();
    bytes.extend_from_slice(&(65536i32).to_le_bytes());
    bytes.extend_from_slice(&(-131072i32).to_le_bytes());
    let out = to_s16le_mono(&bytes, "S32LE", 1);
    let mut expected = Vec::new();
    expected.extend_from_slice(&le16(1));
    expected.extend_from_slice(&le16(-2));
    assert_eq!(out, expected);
}

#[test]
fn to_s16le_mono_scales_s8_input() {
    let bytes = vec![1u8, 0xFF];
    // 1 scales to 256 and -1 to -256.
    let mut expected = Vec::new();
    expected.extend_from_slice(&le16(256));
    expected.extend_from_slice(&le16(-256));
    assert_eq!(to_s16le_mono(&bytes, "S8", 1), expected);
}

#[test]
fn to_s16le_mono_centers_u8_input() {
    let bytes = vec![128u8, 0];
    // 128 is the midpoint and 0 is full negative amplitude.
    let mut expected = Vec::new();
    expected.extend_from_slice(&le16(0));
    expected.extend_from_slice(&le16(-32768));
    assert_eq!(to_s16le_mono(&bytes, "U8", 1), expected);
}

#[test]
fn to_s16le_mono_of_a_short_packet_is_empty() {
    // Input shorter than one complete frame yields an empty frame, never
    // an error.
    assert_eq!(to_s16le_mono(&vec![9], "S16LE", 1), Vec::<u8>::new());
    assert_eq!(to_s16le_mono(&vec![5], "U8", 2), Vec::<u8>::new());
    assert_eq!(to_s16le_mono(&Vec::new(), "F32LE", 1), Vec::<u8>::new());
}

#[test]
fn to_s16le_mono_passes_unknown_formats_through() {
    let bytes = vec![9, 8, 7];
    assert_eq!(to_s16le_mono(&bytes, "weird", 2), bytes);
    assert_eq!(to_s16le_mono(&bytes, "", 1), bytes);
}

#[test]
fn format_labels_parse_to_the_right_variant() {
    assert_eq!(SampleFormat::from_label("S16LE"), Some(SampleFormat::S16le));
    assert_eq!(SampleFormat::from_label("S32LE"), Some(SampleFormat::S32le));
    assert_eq!(SampleFormat::from_label("F32LE"), Some(SampleFormat::F32le));
    assert_eq!(SampleFormat::from_label("S8"), Some(SampleFormat::S8));
    assert_eq!(SampleFormat::from_label("U8"), Some(SampleFormat::U8));
    assert_eq!(SampleFormat::from_label("s16le"), None);
    assert_eq!(SampleFormat::from_label(""), None);
    assert_eq!(SampleFormat::S16le.bytes_per_sample(), 2);
    assert_eq!(SampleFormat::F32le.bytes_per_sample(), 4);
    assert_eq!(SampleFormat::U8.bytes_per_sample(), 1);
}
