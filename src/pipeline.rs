use vstd::prelude::*;

use crate::chunk_matching::{is_match_sequence, make_chunk_matches, paint_too_short, MatchError};
use crate::render::{check_layout, crossfade_for, layout_fits, render, rendered, DryWetMix};
use crate::sample_span::SampleSpan;

verus! {

/// Why no output could be rendered.
#[derive(Clone, Copy, Debug, PartialEq, Eq, Structural)]
pub enum ResynthError {
    /// The paint buffer is not longer than a chunk, so there is nowhere to search.
    InsufficientPaint,
    /// A crossfade window would reach past the end of the output (the last
    /// chunk is shorter than the tail window before it).
    CrossfadeOverrun,
}

/// Rebuilds `target_samples` out of `paint_samples`: matches every chunk,
/// then overlays, blends and normalizes the matches.
pub fn resynthesize(
    target_samples: &[i16],
    paint_samples: &[i16],
    chunk_size: usize,
    search_jump: usize,
    dry_wet_mix: DryWetMix,
) -> (r: Result<Vec<i16>, ResynthError>)
    requires
        chunk_size > 0,
        search_jump > 0,
        dry_wet_mix.wf(),
    ensures
        (r == Err::<Vec<i16>, ResynthError>(ResynthError::InsufficientPaint)) <==> paint_too_short(
            target_samples@.len() as int,
            paint_samples@.len() as int,
            chunk_size as int,
        ),
        !paint_too_short(target_samples@.len() as int, paint_samples@.len() as int, chunk_size as int)
            ==> exists|m: Seq<SampleSpan>|
            {
                &&& is_match_sequence(
                    m,
                    target_samples@,
                    paint_samples@,
                    chunk_size as int,
                    search_jump as int,
                )
                &&& (r is Ok <==> layout_fits(
                    m,
                    paint_samples@.len() as int,
                    crossfade_for(chunk_size as int),
                    target_samples@.len() as int,
                ))
                &&& (r matches Ok(out) ==> out@ == rendered(
                    m,
                    target_samples@,
                    paint_samples@,
                    chunk_size as int,
                    dry_wet_mix,
                ))
            },
{
    let chunk_matches = match make_chunk_matches(target_samples, paint_samples, chunk_size, search_jump) {
        Ok(m) => m,
        Err(MatchError::InsufficientPaint) => return Err(ResynthError::InsufficientPaint),
    };
    if !check_layout(&chunk_matches, paint_samples.len(), chunk_size, target_samples.len()) {
        return Err(ResynthError::CrossfadeOverrun);
    }
    Ok(render(&chunk_matches, target_samples, paint_samples, chunk_size, dry_wet_mix))
}

} // verus!
