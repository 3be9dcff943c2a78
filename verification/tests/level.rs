use voice_capture::level::compute_level;
use voice_capture::FULL_SCALE;

#[test]
fn constant_window_level_is_exact() {
    // Mean square 328^2, root 328, scaled by the gain of 25.
    assert_eq!(compute_level(&vec![328, 328]), 8200);
}

#[test]
fn negative_samples_count_like_positive_ones() {
    assert_eq!(compute_level(&vec![-328]), 8200);
}

#[test]
fn silence_has_level_zero() {
    assert_eq!(compute_level(&vec![0, 0, 0]), 0);
}

#[test]
fn loud_window_clamps_to_full_scale() {
    assert_eq!(compute_level(&vec![FULL_SCALE]), FULL_SCALE as u32);
}

#[test]
fn mean_and_root_round_down() {
    // Squares 9 and 16: mean 12 (12.5 rounded down), root 3, level 75.
    assert_eq!(compute_level(&vec![3, 4]), 75);
}
