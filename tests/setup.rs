use resynth::config::{
    check_sample_format, get_number, throw_if_sample_rate_mismatch, verify_file_extension,
    warn_if_flattening_required, SetupError,
};
use resynth::progress::TimeAverage;

#[test]
fn only_wav_extension_is_accepted() {
    assert_eq!(verify_file_extension("wav"), Ok(()));
    assert_eq!(verify_file_extension("WAV"), Err(SetupError::InvalidExtension));
    assert_eq!(verify_file_extension("mp3"), Err(SetupError::InvalidExtension));
    assert_eq!(verify_file_extension(""), Err(SetupError::InvalidExtension));
    assert_eq!(verify_file_extension("wave"), Err(SetupError::InvalidExtension));
}

#[test]
fn numbers_must_lie_in_range() {
    assert_eq!(get_number(500, 200, 10000), Ok(500));
    assert_eq!(get_number(200, 200, 10000), Ok(200));
    assert_eq!(get_number(10000, 200, 10000), Ok(10000));
    assert_eq!(get_number(199, 200, 10000), Err(SetupError::OutOfRange));
    assert_eq!(get_number(0, 1, 1000), Err(SetupError::OutOfRange));
    assert_eq!(get_number(1001, 1, 1000), Err(SetupError::OutOfRange));
}

#[test]
fn sample_rates_must_match() {
    assert_eq!(throw_if_sample_rate_mismatch(44100, 44100), Ok(()));
    assert_eq!(throw_if_sample_rate_mismatch(44100, 48000), Err(SetupError::SampleRateMismatch));
}

#[test]
fn flattening_needed_for_any_multichannel_input() {
    assert!(!warn_if_flattening_required(1, 1));
    assert!(warn_if_flattening_required(2, 1));
    assert!(warn_if_flattening_required(1, 6));
}

#[test]
fn only_16_bit_integer_samples_are_read() {
    assert_eq!(check_sample_format(false, 16), Ok(()));
    assert_eq!(check_sample_format(true, 32), Err(SetupError::UnsupportedFormat));
    assert_eq!(check_sample_format(false, 8), Err(SetupError::UnsupportedFormat));
    assert_eq!(check_sample_format(false, 24), Err(SetupError::UnsupportedFormat));
}

#[test]
fn time_average_and_eta() {
    let mut t = TimeAverage::new();
    assert_eq!(t.average_micros(), None);
    assert_eq!(t.eta_micros(3), None);
    t.push(10);
    t.push(20);
    t.push(31);
    assert_eq!(t.average_micros(), Some(20));
    assert_eq!(t.eta_micros(5), Some(100));
    assert_eq!(t.eta_micros(0), Some(0));
}
