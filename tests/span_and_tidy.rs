use resynth::arith::div_ceil;
use resynth::sample_span::SampleSpan;
use resynth::tidy::{flatten, normalize, tidy_samples};

#[test]
fn span_new_and_getters() {
    let s = SampleSpan::new(10, 5);
    assert_eq!(s.start(), 10);
    assert_eq!(s.length(), 5);
    assert_eq!(s.end(), 15);
    assert_eq!(s.range(), 10..15);
}

#[test]
fn span_pull_back_keeps_length() {
    let s = SampleSpan::new(10, 5).pull_back(4);
    assert_eq!(s, SampleSpan::new(6, 5));
    assert_eq!(SampleSpan::new(3, 2).pull_back(3), SampleSpan::new(0, 2));
}

#[test]
fn span_truncate_keeps_position() {
    let s = SampleSpan::new(10, 5).truncate(2);
    assert_eq!(s, SampleSpan::new(10, 2));
    assert_eq!(s.end(), 12);
}

#[test]
fn div_ceil_values() {
    assert_eq!(div_ceil(10, 3), 4);
    assert_eq!(div_ceil(9, 3), 3);
    assert_eq!(div_ceil(0, 5), 0);
    assert_eq!(div_ceil(1, 100), 1);
    assert_eq!(div_ceil(1000, 100), 10);
    assert_eq!(div_ceil(1001, 100), 11);
}

#[test]
fn normalize_scales_to_full_scale_with_truncation() {
    let out = normalize(&[100, -200, 50, 0]);
    assert_eq!(out, vec![16383, -32767, 8191, 0]);
}

#[test]
fn normalize_handles_most_negative_sample() {
    let out = normalize(&[-32768, 16384]);
    assert_eq!(out, vec![-32767, 16383]);
}

#[test]
fn normalize_silent_buffer_is_unchanged() {
    assert_eq!(normalize(&[0, 0, 0]), vec![0, 0, 0]);
    assert_eq!(normalize(&[]), Vec::<i16>::new());
}

#[test]
fn normalize_twice_is_normalize_once() {
    let inputs: Vec<Vec<i16>> = vec![
        vec![100, -200, 50, 0],
        vec![3, -1, 2],
        vec![-32768, 16384, 7],
        vec![32767, -5],
        vec![0, 0],
    ];
    for s in inputs {
        let once = normalize(&s);
        let twice = normalize(&once);
        assert_eq!(once, twice);
        if s.iter().any(|x| *x != 0) {
            let peak = once.iter().map(|x| (*x as i32).abs()).max().unwrap();
            assert_eq!(peak, 32767);
        }
    }
}

#[test]
fn flatten_averages_frames_truncating_toward_zero() {
    let out = flatten(vec![10, 20, -3, 0, 7, 8], 2);
    assert_eq!(out, vec![15, -1, 7]);
}

#[test]
fn flatten_wide_frames_do_not_overflow() {
    let out = flatten(vec![32767, 32767, 32767, -32768, -32768, -32768], 3);
    assert_eq!(out, vec![32767, -32768]);
}

#[test]
fn flatten_mono_passes_through() {
    assert_eq!(flatten(vec![1, -2, 3], 1), vec![1, -2, 3]);
    assert_eq!(flatten(vec![1, -2, 3], 0), vec![1, -2, 3]);
}

#[test]
fn flatten_drops_incomplete_last_frame() {
    assert_eq!(flatten(vec![1, 3, 5], 2), vec![2]);
}

#[test]
fn tidy_samples_flattens_then_normalizes() {
    assert_eq!(tidy_samples(vec![10, 20, -30, -10], 2, false), vec![15, -20]);
    assert_eq!(tidy_samples(vec![10, 20, -30, -10], 2, true), vec![24575, -32767]);
}
