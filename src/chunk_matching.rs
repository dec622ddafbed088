use vstd::prelude::*;

use crate::arith::{ceil_div, div_ceil, lemma_ceil_div_covers};
use crate::sample_span::SampleSpan;

verus! {

/// The largest squared difference of two 16-bit samples.
pub const MAX_SQ_DIFF: i128 = 4294836225;

/// Squared difference of two samples.
pub open spec fn sq_diff(a: i16, b: i16) -> int {
    (a - b) * (a - b)
}

/// Sum of squared differences between the first `n` samples of `chunk` and
/// the paint samples from `offset` on.
pub open spec fn sq_error_prefix(chunk: Seq<i16>, paint: Seq<i16>, offset: int, n: int) -> int
    decreases n,
{
    if n <= 0 {
        0
    } else {
        sq_error_prefix(chunk, paint, offset, n - 1) + sq_diff(paint[offset + n - 1], chunk[n - 1])
    }
}

/// Squared error of `chunk` against the paint samples at `offset`.
pub open spec fn sq_error(chunk: Seq<i16>, paint: Seq<i16>, offset: int) -> int {
    sq_error_prefix(chunk, paint, offset, chunk.len() as int)
}

/// The offsets searched for a chunk of `chunk_len` samples: multiples of
/// `jump` below `paint_len - chunk_len`.
pub open spec fn is_candidate(offset: int, chunk_len: int, paint_len: int, jump: int) -> bool {
    &&& 0 <= offset < paint_len - chunk_len
    &&& offset % jump == 0
}

/// `offset` is the earliest candidate of least squared error.
pub open spec fn is_best_offset(chunk: Seq<i16>, paint: Seq<i16>, jump: int, offset: int) -> bool {
    &&& is_candidate(offset, chunk.len() as int, paint.len() as int, jump)
    &&& forall|o: int|
        #[trigger] is_candidate(o, chunk.len() as int, paint.len() as int, jump) ==> sq_error(
            chunk,
            paint,
            offset,
        ) <= sq_error(chunk, paint, o)
    &&& forall|o: int|
        #[trigger] is_candidate(o, chunk.len() as int, paint.len() as int, jump) && o < offset
            ==> sq_error(chunk, paint, o) > sq_error(chunk, paint, offset)
}

/// Number of chunks that a target of `target_len` samples is split into.
pub open spec fn chunk_count(target_len: int, chunk_size: int) -> int {
    ceil_div(target_len, chunk_size)
}

/// Length of chunk `c`: `chunk_size`, or what is left for the last one.
pub open spec fn chunk_len(target_len: int, chunk_size: int, c: int) -> int {
    let left = target_len - c * chunk_size;
    if left < chunk_size {
        left
    } else {
        chunk_size
    }
}

/// The samples of chunk `c` of the target.
pub open spec fn target_chunk(target: Seq<i16>, chunk_size: int, c: int) -> Seq<i16> {
    target.subrange(c * chunk_size, c * chunk_size + chunk_len(target.len() as int, chunk_size, c))
}

/// The paint buffer leaves no candidate offset for the first chunk.
pub open spec fn paint_too_short(target_len: int, paint_len: int, chunk_size: int) -> bool {
    &&& target_len > 0
    &&& paint_len <= target_len
    &&& paint_len <= chunk_size
} 

/// One best-matching span per target chunk, in target order.
pub open spec fn is_match_sequence(
    m: Seq<SampleSpan>,
    target: Seq<i16>,
    paint: Seq<i16>,
    chunk_size: int,
    jump: int,
) -> bool {
    &&& m.len() == chunk_count(target.len() as int, chunk_size)
    &&& forall|c: int|
        0 <= c < m.len() ==> {
            &&& (#[trigger] m[c]).length == chunk_len(target.len() as int, chunk_size, c)
            &&& is_best_offset(target_chunk(target, chunk_size, c), paint, jump, m[c].position as int)
        }
}

/// Why no match sequence could be made.
#[derive(Clone, Copy, Debug, PartialEq, Eq, Structural)]
pub enum MatchError {
    /// The paint buffer is not longer than a chunk, so there is nowhere to search.
    InsufficientPaint,
}

proof fn lemma_sq_diff_bound(a: i16, b: i16)
    ensures
        0 <= sq_diff(a, b) <= MAX_SQ_DIFF,
{
    let d = a - b;
    assert(0 <= d * d <= 65535 * 65535) by (nonlinear_arith)
        requires
            -65535 <= d <= 65535,
    ;
}

/// Sum of squared differences between `chunk` and `paint[offset..offset + chunk.len()]`.
pub fn squared_error(chunk: &[i16], paint: &[i16], offset: usize) -> (r: i128)
    requires
        offset + chunk@.len() <= paint@.len(),
    ensures
        r == sq_error(chunk@, paint@, offset as int),
        0 <= r <= chunk@.len() * MAX_SQ_DIFF,
{
    let paint_len = paint.len();
    let mut sum: i128 = 0;
    let mut j: usize = 0;
    while j < chunk.len()
        invariant
            paint_len == paint@.len(),
            offset + chunk@.len() <= paint@.len(),
            j <= chunk@.len(),
            sum == sq_error_prefix(chunk@, paint@, offset as int, j as int),
            0 <= sum <= j * MAX_SQ_DIFF,
        decreases chunk@.len() - j,
    {
        let a = paint[offset + j] as i128;
        let b = chunk[j] as i128;
        proof {
            lemma_sq_diff_bound(paint@[offset + j], chunk@[j as int]);
        }
        let delta = a - b;
        sum = sum + delta * delta;
        j = j + 1;
    }
    sum
}

proof fn lemma_next_candidate(o: int, i: int, jump: int)
    requires
        jump > 0,
        o % jump == 0,
        i % jump == 0,
        i <= o < i + jump,
    ensures
        o == i,
{
    vstd::arithmetic::div_mod::lemma_fundamental_div_mod(o, jump);
    vstd::arithmetic::div_mod::lemma_fundamental_div_mod(i, jump);
    let a = o / jump;
    let b = i / jump;
    assert(a == b) by (nonlinear_arith)
        requires
            o == jump * a,
            i == jump * b,
            i <= o < i + jump,
            jump > 0,
    ;
}

/// Searches `paint` for the offset whose samples are closest to `chunk` in
/// squared error, trying every `search_jump`-th offset below
/// `paint.len() - chunk.len()`. Of equal errors the earliest offset wins.
pub fn find_best_offset(chunk: &[i16], paint: &[i16], search_jump: usize) -> (r: usize)
    requires
        search_jump > 0,
        chunk@.len() < paint@.len(),
    ensures
        is_best_offset(chunk@, paint@, search_jump as int, r as int),
{
    let chunk_len = chunk.len();
    let paint_len = paint.len();
    let extent = paint_len - chunk_len;
    let ghost jump = search_jump as int;
    let ghost clen = chunk_len as int;
    let ghost plen = paint_len as int;
    let mut best_position: usize = 0;
    let mut best_error: i128 = i128::MAX;
    let mut i: usize = 0;
    proof {
        vstd::arithmetic::div_mod::lemma_small_mod(0, search_jump as nat);
    }
    loop
        invariant
            extent == plen - clen,
            clen == chunk@.len(),
            clen == chunk_len,
            plen == paint@.len(),
            0 <= i < extent,
            i as int % jump == 0,
            jump == search_jump,
            jump > 0,
            i == 0 ==> best_error == i128::MAX,
            i > 0 ==> {
                &&& is_candidate(best_position as int, clen, plen, jump)
                &&& best_position < i
                &&& best_error == sq_error(chunk@, paint@, best_position as int)
                &&& forall|o: int|
                    #[trigger] is_candidate(o, clen, plen, jump) && o < i ==> best_error <= sq_error(
                        chunk@,
                        paint@,
                        o,
                    )
                &&& forall|o: int|
                    #[trigger] is_candidate(o, clen, plen, jump) && o < best_position
                        ==> sq_error(chunk@, paint@, o) > best_error
            },
        decreases extent - i,
    {
        let sum = squared_error(chunk, paint, i);
        assert(sum < i128::MAX) by (nonlinear_arith)
            requires
                sum <= clen * MAX_SQ_DIFF,
                clen <= usize::MAX,
        ;
        if sum < best_error {
            best_position = i;
            best_error = sum;
        }
        if extent - i <= search_jump {
            proof {
                assert forall|o: int| #[trigger] is_candidate(o, clen, plen, jump) implies o <= i by {
                    if o > i {
                        lemma_next_candidate(o, i as int, jump);
                    }
                }
            }
            return best_position;
        }
        let ghost prev = i as int;
        i = i + search_jump;
        proof {
            vstd::arithmetic::div_mod::lemma_mod_add_multiples_vanish(prev, jump);
            assert forall|o: int| #[trigger] is_candidate(o, clen, plen, jump) && o < i implies o <= prev by {
                if o > prev {
                    lemma_next_candidate(o, prev, jump);
                }
            }
        }
    }
}

/// Refuses a paint buffer that leaves the first chunk no offset to try.
pub fn check_paint_length(target_len: usize, paint_len: usize, chunk_size: usize) -> (r: Result<(), MatchError>)
    ensures
        r is Err <==> paint_too_short(target_len as int, paint_len as int, chunk_size as int),
        r is Err ==> r == Err::<(), MatchError>(MatchError::InsufficientPaint),
{
    if target_len > 0 && paint_len <= target_len && paint_len <= chunk_size {
        Err(MatchError::InsufficientPaint)
    } else {
        Ok(())
    }
}

/// Finds the best-matching span of `paint_samples` for chunk `c` of the
/// target.
pub fn match_chunk(
    target_samples: &[i16],
    paint_samples: &[i16],
    chunk_size: usize,
    search_jump: usize,
    c: usize,
) -> (r: SampleSpan)
    requires
        chunk_size > 0,
        search_jump > 0,
        !paint_too_short(target_samples@.len() as int, paint_samples@.len() as int, chunk_size as int),
        c < chunk_count(target_samples@.len() as int, chunk_size as int),
    ensures
        r.length == chunk_len(target_samples@.len() as int, chunk_size as int, c as int),
        is_best_offset(
            target_chunk(target_samples@, chunk_size as int, c as int),
            paint_samples@,
            search_jump as int,
            r.position as int,
        ),
{
    let target_len = target_samples.len();
    let ghost count = chunk_count(target_len as int, chunk_size as int);
    proof {
        lemma_ceil_div_covers(target_len as int, chunk_size as int);
        assert(c * chunk_size <= (count - 1) * chunk_size) by (nonlinear_arith)
            requires
                c <= count - 1,
                chunk_size > 0,
        ;
    }
    let start = c * chunk_size;
    let left = target_len - start;
    let length = if left < chunk_size { left } else { chunk_size };
    let chunk = &target_samples[start..start + length];
    let position = find_best_offset(chunk, paint_samples, search_jump);
    SampleSpan::new(position, length)
}

/// Splits `target` into chunks of `chunk_size` samples (the last one holds
/// what is left) and finds for each chunk, in order, its best-matching span
/// of `paint`.
pub fn make_chunk_matches(
    target_samples: &[i16],
    paint_samples: &[i16],
    chunk_size: usize,
    search_jump: usize,
) -> (r: Result<Vec<SampleSpan>, MatchError>)
    requires
        chunk_size > 0,
        search_jump > 0,
    ensures
        r is Err <==> paint_too_short(
            target_samples@.len() as int,
            paint_samples@.len() as int,
            chunk_size as int,
        ),
        r matches Ok(m) ==> is_match_sequence(
            m@,
            target_samples@,
            paint_samples@,
            chunk_size as int,
            search_jump as int,
        ),
{
    let target_len = target_samples.len();
    if let Err(e) = check_paint_length(target_len, paint_samples.len(), chunk_size) {
        return Err(e);
    }
    let number_of_chunks = div_ceil(target_len, chunk_size);
    let mut chunk_matches: Vec<SampleSpan> = Vec::new();
    let mut c: usize = 0;
    while c < number_of_chunks
        invariant
            chunk_size > 0,
            search_jump > 0,
            !paint_too_short(target_samples@.len() as int, paint_samples@.len() as int, chunk_size as int),
            number_of_chunks == chunk_count(target_samples@.len() as int, chunk_size as int),
            c <= number_of_chunks,
            chunk_matches@.len() == c,
            forall|k: int|
                0 <= k < c ==> {
                    &&& (#[trigger] chunk_matches@[k]).length == chunk_len(
                        target_samples@.len() as int,
                        chunk_size as int,
                        k,
                    )
                    &&& is_best_offset(
                        target_chunk(target_samples@, chunk_size as int, k),
                        paint_samples@,
                        search_jump as int,
                        chunk_matches@[k].position as int,
                    )
                },
        decreases number_of_chunks - c,
    {
        chunk_matches.push(match_chunk(target_samples, paint_samples, chunk_size, search_jump, c));
        c = c + 1;
    }
    Ok(chunk_matches)
}

} // verus!
