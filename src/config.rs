use vstd::prelude::*;
use vstd::string::StringSliceAdditionalSpecFns;

verus! {

/// Why a run cannot start.
#[derive(Clone, Copy, Debug, PartialEq, Eq, Structural)]
pub enum SetupError {
    /// Only `.wav` files are read.
    InvalidExtension,
    /// A numeric option lies outside its allowed range.
    OutOfRange,
    /// Target and paint were recorded at different sample rates.
    SampleRateMismatch,
    /// Samples are not 16-bit integer PCM.
    UnsupportedFormat,
}

/// Smallest and largest allowed `chunk_size`.
pub const CHUNK_SIZE_MIN: usize = 200;
pub const CHUNK_SIZE_MAX: usize = 10000;

/// Smallest and largest allowed `search_jump`.
pub const SEARCH_JUMP_MIN: usize = 1;
pub const SEARCH_JUMP_MAX: usize = 1000;

/// The bytes of the accepted file extension, `wav`.
pub open spec fn wav_bytes() -> Seq<u8> {
    seq![119u8, 97u8, 118u8]
}

/// Accepts a file whose extension is exactly `wav`.
pub fn verify_file_extension(extension: &str) -> (r: Result<(), SetupError>)
    ensures
        r is Ok <==> extension.spec_bytes() == wav_bytes(),
        r is Err ==> r == Err::<(), SetupError>(SetupError::InvalidExtension),
{
    let b = extension.as_bytes();
    if b.len() == 3 && b[0] == 119u8 && b[1] == 97u8 && b[2] == 118u8 {
        assert(b@ =~= wav_bytes());
        Ok(())
    } else {
        Err(SetupError::InvalidExtension)
    }
}

/// Passes `input` through when it lies in `[min, max]`.
pub fn get_number(input: usize, min: usize, max: usize) -> (r: Result<usize, SetupError>)
    ensures
        r == if min <= input <= max {
            Ok::<usize, SetupError>(input)
        } else {
            Err(SetupError::OutOfRange)
        },
{
    if input < min || input > max {
        Err(SetupError::OutOfRange)
    } else {
        Ok(input)
    }
}

/// Target and paint must share one sample rate.
pub fn throw_if_sample_rate_mismatch(target_rate: u32, paint_rate: u32) -> (r: Result<(), SetupError>)
    ensures
        r == if target_rate == paint_rate {
            Ok::<(), SetupError>(())
        } else {
            Err(SetupError::SampleRateMismatch)
        },
{
    if target_rate != paint_rate {
        Err(SetupError::SampleRateMismatch)
    } else {
        Ok(())
    }
}

/// Whether either input has more than one channel and will be flattened to mono.
pub fn warn_if_flattening_required(target_channels: u16, paint_channels: u16) -> (r: bool)
    ensures
        r == (target_channels > 1 || paint_channels > 1),
{
    target_channels > 1 || paint_channels > 1
}

/// Only 16-bit integer samples are read; floating-point and other widths
/// are refused.
pub fn check_sample_format(is_float: bool, bits_per_sample: u16) -> (r: Result<(), SetupError>)
    ensures
        r == if !is_float && bits_per_sample == 16 {
            Ok::<(), SetupError>(())
        } else {
            Err(SetupError::UnsupportedFormat)
        },
{
    if is_float || bits_per_sample != 16 {
        Err(SetupError::UnsupportedFormat)
    } else {
        Ok(())
    }
}

} // verus!
