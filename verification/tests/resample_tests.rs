use common_audio_playback::resample::resample;

#[test]
fn equal_rates_are_the_identity() {
    let src: Vec<i16> = vec![5, -3, 32767, -32768, 0, 17];
    let out = resample(&src, 48000, 48000);
    assert_eq!(out, src);
}

#[test]
fn empty_input_yields_empty_output_for_any_rate_pair() {
    let src: Vec<i16> = Vec::new();
    assert_eq!(resample(&src, 48000, 44100).len(), 0);
    assert_eq!(resample(&src, 44100, 48000).len(), 0);
    assert_eq!(resample(&src, 8000, 192000).len(), 0);
    assert_eq!(resample(&src, 1, 1).len(), 0);
}

#[test]
fn downsample_960_from_48000_to_44100_gives_882() {
    let src: Vec<i16> = vec![0; 960];
    let out = resample(&src, 48000, 44100);
    assert_eq!(out.len(), 882);
}

#[test]
fn upsample_960_from_44100_to_48000_gives_1045() {
    let src: Vec<i16> = vec![0; 960];
    let out = resample(&src, 44100, 48000);
    assert_eq!(out.len(), 1045);
}

#[test]
fn doubling_the_rate_interpolates_midpoints() {
    let src: Vec<i16> = vec![0, 100];
    let out = resample(&src, 1, 2);
    // Output length is round(2 * 2) = 4; positions 0, 1/2, 1, 3/2 with the
    // last clamped to the final sample.
    assert_eq!(out, vec![0, 50, 100, 100]);
}

#[test]
fn halving_the_rate_keeps_every_other_sample() {
    let src: Vec<i16> = vec![0, 10, 20, 30, 40, 50];
    let out = resample(&src, 2, 1);
    // Output length is round(6 / 2) = 3; positions 0, 2, 4.
    assert_eq!(out, vec![0, 20, 40]);
}

#[test]
fn interpolation_rounds_the_fraction_down() {
    let src: Vec<i16> = vec![0, 1];
    let out = resample(&src, 1, 3);
    // Six outputs at positions k/3: the fractional products 1/3 and 2/3 of
    // the unit step round down to 0, and positions past the last sample
    // clamp to it.
    assert_eq!(out, vec![0, 0, 0, 1, 1, 1]);
}

#[test]
fn negative_steps_interpolate_toward_the_lower_value() {
    let src: Vec<i16> = vec![100, -100];
    let out = resample(&src, 1, 2);
    // Midpoint of 100 and -100 with the increment rounded down: 100 +
    // floor(-200 * 1 / 2) = 0.
    assert_eq!(out, vec![100, 0, -100, -100]);
}
