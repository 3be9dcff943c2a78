use voice_capture::processor::{convert_to_mono, convert_to_whisper_format, resample};

#[test]
fn downmix_even_buffer_means() {
    // A length divisible by the channel count: one mean per frame.
    let samples = vec![1, 2, 3, 4, 5, 6];
    assert_eq!(convert_to_mono(&samples, 3), vec![2, 5]);
}

#[test]
fn downmix_ragged_buffer_truncates() {
    // Five samples in two channels: the last frame is short and is
    // averaged over its single element.
    let samples = vec![1, 2, 3, 4, 5];
    assert_eq!(convert_to_mono(&samples, 2), vec![1, 3, 5]);
}

#[test]
fn downmix_rounds_toward_negative_infinity() {
    let samples = vec![-1, -2];
    assert_eq!(convert_to_mono(&samples, 2), vec![-2]);
}

#[test]
fn downmix_single_channel_is_identity() {
    let samples = vec![5, -7, 11];
    assert_eq!(convert_to_mono(&samples, 1), vec![5, -7, 11]);
}

#[test]
fn downmix_empty_buffer_is_empty() {
    let samples: Vec<i32> = Vec::new();
    assert!(convert_to_mono(&samples, 2).is_empty());
}

#[test]
fn resample_same_rate_is_identity() {
    let samples = vec![10, -20, 30];
    assert_eq!(resample(&samples, 44100, 44100), vec![10, -20, 30]);
}

#[test]
fn resample_single_sample_repeats_value() {
    let samples = vec![7];
    let out = resample(&samples, 16000, 44100);
    assert_eq!(out.len(), 2); // floor(1 * 44100 / 16000)
    assert!(out.iter().all(|&s| s == 7));
}

#[test]
fn resample_empty_buffer_is_empty() {
    let samples: Vec<i32> = Vec::new();
    assert!(resample(&samples, 44100, 16000).is_empty());
}

#[test]
fn resample_length_formula_exact() {
    let samples = vec![0; 1000];
    let out = resample(&samples, 44100, 16000);
    assert_eq!(out.len(), 1000 * 16000 / 44100); // 362
}

#[test]
fn resample_halving_keeps_every_other_sample() {
    let samples = vec![0, 10, 20, 30];
    assert_eq!(resample(&samples, 4, 2), vec![0, 20]);
}

#[test]
fn resample_doubling_interpolates_midpoints() {
    let samples = vec![0, 10];
    // Output positions 0, 0.5, 1 and 1.5; the neighbour of the last one
    // is clamped to the final sample.
    assert_eq!(resample(&samples, 1, 2), vec![0, 5, 10, 10]);
}

#[test]
fn converts_stereo_constant_to_whisper_format() {
    // Two channels at 44100 Hz for 0.05 s: 2205 frames, 4410 interleaved
    // samples of one constant amplitude.
    let amplitude = 12345;
    let samples = vec![amplitude; 4410];
    let out = convert_to_whisper_format(samples, 44100, 2);
    assert_eq!(out.len(), 800); // floor(2205 * 16000 / 44100)
    assert!(out.iter().all(|&s| s == amplitude));
}

#[test]
fn converter_at_target_rate_only_downmixes() {
    let samples = vec![0, 10, 20, 30];
    assert_eq!(convert_to_whisper_format(samples, 16000, 2), vec![5, 25]);
}

#[test]
fn converter_on_mono_input_only_resamples() {
    let samples = vec![7];
    assert_eq!(convert_to_whisper_format(samples, 8000, 1), vec![7, 7]);
}
