use resynth::chunk_matching::make_chunk_matches;
use resynth::crossfade::{apply, generate_fades, ramp};
use resynth::render::{blend, check_layout, count_number_of_output_samples, render, stamp, DryWetMix};
use resynth::sample_span::SampleSpan;
use resynth::tidy::normalize;

fn wet() -> DryWetMix {
    DryWetMix::new(0, 1).unwrap()
}

#[test]
fn apply_truncates_toward_zero() {
    assert_eq!(apply(100, 1, 4), 25);
    assert_eq!(apply(-7, 1, 2), -3);
    assert_eq!(apply(-32768, 3, 3), -32768);
    assert_eq!(apply(5, 0, 3), 0);
}

#[test]
fn ramps_are_linear() {
    assert_eq!(ramp(&[100, 100, 100, 100], true), vec![0, 25, 50, 75]);
    assert_eq!(ramp(&[100, 100, 100, 100], false), vec![100, 75, 50, 25]);
    assert_eq!(ramp(&[], true), Vec::<i16>::new());
}

#[test]
fn fades_take_neighbouring_samples() {
    let samples = vec![100i16; 20];
    let (head, tail) = generate_fades(&samples, &SampleSpan::new(8, 4), 4);
    assert_eq!(head, vec![0, 25, 50, 75]);
    assert_eq!(tail, vec![100, 75, 50, 25]);
}

#[test]
fn head_is_clamped_at_buffer_start() {
    let samples = vec![100i16; 20];
    let (head, _) = generate_fades(&samples, &SampleSpan::new(2, 4), 4);
    assert_eq!(head, vec![0, 50]);
}

#[test]
fn span_at_start_has_empty_head() {
    let samples = vec![100i16; 20];
    let (head, tail) = generate_fades(&samples, &SampleSpan::new(0, 4), 4);
    assert!(head.is_empty());
    assert_eq!(tail.len(), 4);
}

#[test]
fn span_near_end_has_empty_tail() {
    let samples = vec![100i16; 20];
    let (head, tail) = generate_fades(&samples, &SampleSpan::new(14, 4), 4);
    assert_eq!(head.len(), 4);
    assert!(tail.is_empty());
    let (_, tail) = generate_fades(&samples, &SampleSpan::new(12, 4), 4);
    assert_eq!(tail.len(), 4);
    let (_, tail) = generate_fades(&samples, &SampleSpan::new(16, 4), 4);
    assert!(tail.is_empty());
}

#[test]
fn stamp_adds_in_place() {
    let mut out: Vec<i128> = vec![1, 1, 1, 1, 1];
    stamp(&mut out, &[10, -20], 2);
    assert_eq!(out, vec![1, 1, 11, -19, 1]);
    stamp(&mut out, &[5], 3);
    assert_eq!(out, vec![1, 1, 11, -14, 1]);
}

#[test]
fn output_length_is_sum_of_spans() {
    let m = vec![SampleSpan::new(3, 4), SampleSpan::new(0, 4), SampleSpan::new(9, 2)];
    assert_eq!(count_number_of_output_samples(&m), 10);
    assert_eq!(count_number_of_output_samples(&vec![]), 0);
}

#[test]
fn blend_mixes_and_saturates() {
    let half = DryWetMix::new(1, 2).unwrap();
    assert_eq!(blend(100, 50, half), 75);
    assert_eq!(blend(-7, 0, half), -3);
    assert_eq!(blend(100000, 0, wet()), 32767);
    assert_eq!(blend(-100000, 0, wet()), -32768);
    assert_eq!(blend(100000, -12, DryWetMix::new(1, 1).unwrap()), -12);
}

#[test]
fn mix_ratio_must_lie_in_unit_range() {
    assert!(DryWetMix::new(0, 0).is_none());
    assert!(DryWetMix::new(3, 2).is_none());
    assert_eq!(DryWetMix::new(2, 2), Some(DryWetMix { dry: 2, whole: 2 }));
}

#[test]
fn render_overlays_chunks_and_fades() {
    let paint: Vec<i16> = vec![1, 2, 3, 4, 5, 6, 7, 8];
    let target: Vec<i16> = vec![0; 8];
    let m = vec![SampleSpan::new(0, 4), SampleSpan::new(4, 4)];
    assert!(check_layout(&m, paint.len(), 4, target.len()));
    let out = render(&m, &target, &paint, 4, wet());
    assert_eq!(out, vec![3276, 6553, 9830, 13106, 32767, 19660, 22936, 26213]);
}

#[test]
fn layout_that_overruns_output_is_refused() {
    let m = vec![SampleSpan::new(0, 8), SampleSpan::new(0, 1)];
    assert!(!check_layout(&m, 12, 8, 9));
    let m = vec![SampleSpan::new(0, 4), SampleSpan::new(6, 4)];
    assert!(!check_layout(&m, 8, 4, 8));
    let m = vec![SampleSpan::new(0, 4)];
    assert!(!check_layout(&m, 8, 4, 5));
    assert!(check_layout(&m, 8, 4, 4));
}

fn scene() -> (Vec<i16>, Vec<i16>) {
    let target: Vec<i16> = (0..400).map(|x| ((x * 37) % 200 - 100) as i16).collect();
    let paint: Vec<i16> = (0..700).map(|x| ((x * 53) % 300 - 150) as i16).collect();
    (target, paint)
}

#[test]
fn rendered_length_equals_target_length() {
    let (target, paint) = scene();
    let m = make_chunk_matches(&target, &paint, 100, 7).unwrap();
    let total: usize = m.iter().map(|s| s.length()).sum();
    assert_eq!(total, target.len());
    assert!(check_layout(&m, paint.len(), 100, target.len()));
    let out = render(&m, &target, &paint, 100, wet());
    assert_eq!(out.len(), target.len());
}

#[test]
fn rendering_is_deterministic() {
    let (target, paint) = scene();
    let m = make_chunk_matches(&target, &paint, 100, 7).unwrap();
    let a = render(&m, &target, &paint, 100, DryWetMix::new(1, 3).unwrap());
    let b = render(&m, &target, &paint, 100, DryWetMix::new(1, 3).unwrap());
    assert_eq!(a, b);
}

#[test]
fn fully_dry_mix_gives_normalized_target() {
    let (target, paint) = scene();
    let m = make_chunk_matches(&target, &paint, 100, 7).unwrap();
    let out = render(&m, &target, &paint, 100, DryWetMix::new(1, 1).unwrap());
    assert_eq!(out, normalize(&target));
}

#[test]
fn fully_wet_mix_ignores_target() {
    let (target, paint) = scene();
    let m = make_chunk_matches(&target, &paint, 100, 7).unwrap();
    let other: Vec<i16> = target.iter().map(|x| x.wrapping_mul(3)).collect();
    let a = render(&m, &target, &paint, 100, wet());
    let b = render(&m, &other, &paint, 100, wet());
    assert_eq!(a, b);
    assert_ne!(a, normalize(&target));
}

#[test]
fn pulse_renders_back_to_itself() {
    let mut buffer = vec![0i16; 1000];
    for s in buffer.iter_mut().skip(400).take(100) {
        *s = 12000;
    }
    let m = make_chunk_matches(&buffer, &buffer, 100, 1).unwrap();
    assert!(check_layout(&m, buffer.len(), 100, buffer.len()));
    let out = render(&m, &buffer, &buffer, 100, DryWetMix::new(1, 1).unwrap());
    assert_eq!(out, normalize(&buffer));
}
