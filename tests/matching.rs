use resynth::chunk_matching::{find_best_offset, make_chunk_matches, match_chunk, squared_error, MatchError};
use resynth::sample_span::SampleSpan;

#[test]
fn squared_error_exact_value() {
    assert_eq!(squared_error(&[1, 2], &[0, 4, 2], 1), 9);
    assert_eq!(squared_error(&[1, 2], &[0, 4, 2], 0), 5);
    assert_eq!(squared_error(&[-32768], &[32767], 0), 4294836225);
}

#[test]
fn tie_goes_to_earliest_offset() {
    let chunk = [1, 2, 3];
    let paint = [0, 1, 2, 3, 0, 1, 2, 3, 0, 0];
    assert_eq!(find_best_offset(&chunk, &paint, 1), 1);
}

#[test]
fn two_identical_copies_pick_the_first() {
    let chunk = [5, -5, 5, -5];
    let mut paint = vec![0i16; 40];
    for (i, v) in chunk.iter().enumerate() {
        paint[10 + i] = *v;
        paint[30 + i] = *v;
    }
    assert_eq!(find_best_offset(&chunk, &paint, 1), 10);
    assert_eq!(find_best_offset(&chunk, &paint, 5), 10);
}

#[test]
fn search_jump_skips_unaligned_offsets() {
    let chunk = [9, 9];
    let paint = [0, 0, 0, 9, 9, 0, 1, 1];
    assert_eq!(find_best_offset(&chunk, &paint, 1), 3);
    // Only offsets 0, 2 and 4 are tried; 2 and 4 both err by 81, 2 wins.
    assert_eq!(find_best_offset(&chunk, &paint, 2), 2);
}

#[test]
fn last_possible_offset_is_not_searched() {
    let chunk = [7, 7];
    let paint = [0, 0, 0, 7, 7];
    // Candidates are below 5 - 2 = 3, so offset 3 is never tried.
    assert_eq!(find_best_offset(&chunk, &paint, 1), 2);
}

#[test]
fn short_paint_is_rejected() {
    let target = vec![1i16; 10];
    assert_eq!(make_chunk_matches(&target, &[1, 2, 3, 4], 4, 1), Err(MatchError::InsufficientPaint));
    assert_eq!(make_chunk_matches(&[1, 2, 3], &[1, 2, 3], 4, 1), Err(MatchError::InsufficientPaint));
    assert!(make_chunk_matches(&target, &[1, 2, 3, 4, 5], 4, 1).is_ok());
}

#[test]
fn empty_target_gives_no_matches() {
    assert_eq!(make_chunk_matches(&[], &[1], 4, 1), Ok(vec![]));
}

#[test]
fn chunks_follow_target_order_and_last_is_shorter() {
    let target: Vec<i16> = vec![1, 2, 3, 4, 5, 6, 7, 8, 9, 10];
    let paint: Vec<i16> = (0..30).map(|x| x as i16).collect();
    let m = make_chunk_matches(&target, &paint, 4, 1).unwrap();
    assert_eq!(m, vec![SampleSpan::new(1, 4), SampleSpan::new(5, 4), SampleSpan::new(9, 2)]);
    let total: usize = m.iter().map(|s| s.length()).sum();
    assert_eq!(total, target.len());
    assert_eq!(match_chunk(&target, &paint, 4, 1, 2), SampleSpan::new(9, 2));
}

#[test]
fn matching_is_deterministic() {
    let target: Vec<i16> = (0..500).map(|x| ((x * 37) % 200 - 100) as i16).collect();
    let paint: Vec<i16> = (0..900).map(|x| ((x * 53) % 300 - 150) as i16).collect();
    let a = make_chunk_matches(&target, &paint, 64, 3).unwrap();
    let b = make_chunk_matches(&target, &paint, 64, 3).unwrap();
    assert_eq!(a, b);
}

#[test]
fn pulse_matches_itself_with_zero_error() {
    let mut buffer = vec![0i16; 1000];
    for s in buffer.iter_mut().skip(400).take(100) {
        *s = 12000;
    }
    let m = make_chunk_matches(&buffer, &buffer, 100, 1).unwrap();
    assert_eq!(m.len(), 10);
    for (c, span) in m.iter().enumerate() {
        assert_eq!(span.length(), 100);
        let chunk = &buffer[c * 100..c * 100 + 100];
        assert_eq!(squared_error(chunk, &buffer, span.start()), 0);
    }
    assert_eq!(m[4], SampleSpan::new(400, 100));
    // Silent chunks tie at every silent offset; the earliest, 0, wins.
    assert_eq!(m[0], SampleSpan::new(0, 100));
    assert_eq!(m[9], SampleSpan::new(0, 100));
}
