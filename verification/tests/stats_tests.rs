use common_audio_playback::stats::{
    analyze_audio_core, analyze_s16le_core, analyze_s32le_core, analyze_s8_core, analyze_u8_core,
    compute_stats,
};

#[test]
fn s16_statistics_are_exact() {
    let mut bytes = Vec::new();
    for v in [1000i16, -1000, 2000] {
        bytes.extend_from_slice(&v.to_le_bytes());
    }
    let stats = analyze_s16le_core(&bytes);
    assert_eq!(stats.min_value, -1000);
    assert_eq!(stats.max_value, 2000);
    assert_eq!(stats.sum, 2000);
    assert_eq!(stats.count, 3);
    assert_eq!(stats.sum_squares, 1_000_000 + 1_000_000 + 4_000_000);
    assert_eq!(stats.zero_crossings, 2);
    // The mean and RMS finish in floating point from the exact sums.
    let avg = stats.sum as f64 / stats.count as f64;
    assert!((avg - 666.666).abs() < 0.001);
    let rms = (stats.sum_squares as f64 / stats.count as f64).sqrt();
    assert!((rms - 1414.21356).abs() < 0.001);
}

#[test]
fn s16_input_shorter_than_a_sample_reports_zeros() {
    let stats = analyze_s16le_core(&vec![7]);
    assert_eq!(stats.count, 0);
    assert_eq!(stats.min_value, 0);
    assert_eq!(stats.max_value, 0);
    assert_eq!(stats.zero_crossings, 0);
}

#[test]
fn s16_trailing_lone_byte_reads_as_zero() {
    let mut bytes = Vec::new();
    bytes.extend_from_slice(&(500i16).to_le_bytes());
    bytes.push(0xFF);
    let stats = analyze_s16le_core(&bytes);
    assert_eq!(stats.count, 2);
    assert_eq!(stats.min_value, 0);
    assert_eq!(stats.max_value, 500);
}

#[test]
fn s32_minimum_and_maximum_wrap_to_sixteen_bits() {
    let mut bytes = Vec::new();
    for v in [74565i32, 74565] {
        bytes.extend_from_slice(&v.to_le_bytes());
    }
    let stats = analyze_s32le_core(&bytes);
    // 74565 mod 65536 = 9029: the 16-bit reinterpretation of the wide value.
    assert_eq!(stats.min_value, 9029);
    assert_eq!(stats.max_value, 9029);
    assert_eq!(stats.sum, 2 * 74565);
    assert_eq!(stats.zero_crossings, 0);
}

#[test]
fn u8_statistics_center_at_128() {
    let bytes = vec![0u8, 255, 128];
    let stats = analyze_u8_core(&bytes);
    assert_eq!(stats.min_value, -128);
    assert_eq!(stats.max_value, 127);
    assert_eq!(stats.sum, -1);
    assert_eq!(stats.zero_crossings, 2);
}

#[test]
fn s8_statistics_are_exact() {
    let bytes = vec![0x80u8, 0x7F, 0x00];
    let stats = analyze_s8_core(&bytes);
    assert_eq!(stats.min_value, -128);
    assert_eq!(stats.max_value, 127);
    assert_eq!(stats.sum, -1);
    assert_eq!(stats.sum_squares, 128 * 128 + 127 * 127);
    assert_eq!(stats.zero_crossings, 2);
}

#[test]
fn compute_stats_counts_sign_changes_once_per_pair() {
    let samples: Vec<i64> = vec![5, 5, -5, -5, 5, 0, -1];
    let stats = compute_stats(&samples);
    // Pairs: (5,-5) crosses, (-5,5) crosses, (5,0) crosses, (0,-1) does not
    // (a zero current counts, a zero previous does not).
    assert_eq!(stats.zero_crossings, 3);
    assert_eq!(stats.min_value, -5);
    assert_eq!(stats.max_value, 5);
}

#[test]
fn analysis_dispatches_on_the_format_label() {
    let bytes = vec![0u8, 1, 2, 3];
    assert!(analyze_audio_core(&bytes, "F32LE").is_none());
    assert_eq!(analyze_audio_core(&bytes, "S32LE"), Some(analyze_s32le_core(&bytes)));
    assert_eq!(analyze_audio_core(&bytes, "S8"), Some(analyze_s8_core(&bytes)));
    assert_eq!(analyze_audio_core(&bytes, "U8"), Some(analyze_u8_core(&bytes)));
    assert_eq!(analyze_audio_core(&bytes, "S16LE"), Some(analyze_s16le_core(&bytes)));
    // Unknown labels fall back to signed 16-bit.
    assert_eq!(analyze_audio_core(&bytes, "mystery"), Some(analyze_s16le_core(&bytes)));
}
