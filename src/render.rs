use vstd::prelude::*;

use crate::crossfade::{generate_fades, head_window, ramp_down, ramp_up, tail_fits, tail_window};
use crate::sample_span::SampleSpan;
use crate::tidy::{normalize, normalized, trunc_div};

verus! {

/// Largest magnitude an accumulator cell may have before one more sample is added.
pub const ACC_HEADROOM: i128 = i128::MAX - 32768;

/// How much of the unprocessed target goes into the output: `dry / whole`, a
/// ratio from 0 (all painted) to 1 (all target).
#[derive(Clone, Copy, Debug, PartialEq, Eq, Structural)]
pub struct DryWetMix {
    pub dry: u32,
    pub whole: u32,
}

impl DryWetMix {
    /// The ratio lies in `[0, 1]` and has a nonzero denominator.
    pub open spec fn wf(self) -> bool {
        0 < self.whole && self.dry <= self.whole
    }

    /// The ratio `dry / whole`, if it is one.
    pub fn new(dry: u32, whole: u32) -> (r: Option<DryWetMix>)
        ensures
            r is Some <==> 0 < whole && dry <= whole,
            r matches Some(m) ==> m.dry == dry && m.whole == whole && m.wf(),
    {
        if whole == 0 || dry > whole {
            None
        } else {
            Some(DryWetMix { dry, whole })
        }
    }
}

/// Largest magnitude of an overlaid sample that `blend` takes.
pub const WET_LIMIT: i128 = 1237940039285380274899124224;

/// Every cell of `v` has magnitude at most `b`.
pub open spec fn bounded(v: Seq<int>, b: int) -> bool {
    forall|j: int| 0 <= j < v.len() ==> -b <= #[trigger] v[j] <= b
}

/// The accumulator cells as mathematical integers.
pub open spec fn widen(v: Seq<i128>) -> Seq<int> {
    Seq::new(v.len(), |j: int| v[j] as int)
}

/// Where the write cursor stands before match `k`: the total length of the
/// matches before it.
pub open spec fn cursor(m: Seq<SampleSpan>, k: int) -> int
    decreases k,
{
    if k <= 0 {
        0
    } else {
        cursor(m, k - 1) + m[k - 1].length
    }
}

/// `input` added into `buf` from index `at` on.
pub open spec fn stamped(buf: Seq<int>, input: Seq<i16>, at: int) -> Seq<int> {
    Seq::new(
        buf.len(),
        |j: int|
            if at <= j < at + input.len() {
                buf[j] + input[j - at]
            } else {
                buf[j]
            },
    )
}

/// The paint samples a span covers.
pub open spec fn span_samples(paint: Seq<i16>, span: SampleSpan) -> Seq<i16> {
    paint.subrange(span.position as int, span.end_spec())
}

/// Number of samples in the tail window of a span.
pub open spec fn tail_len(paint_len: int, span: SampleSpan, crossfade_length: int) -> int {
    if tail_fits(paint_len, span, crossfade_length) {
        crossfade_length
    } else {
        0
    }
}

/// Match `k` laid into `buf`: its head window ending the previous chunk
/// (but for the first match), its own samples at the cursor, and its tail
/// window starting the next chunk (but for the last match).
pub open spec fn layer(
    buf: Seq<int>,
    m: Seq<SampleSpan>,
    paint: Seq<i16>,
    crossfade_length: int,
    k: int,
) -> Seq<int> {
    let span = m[k];
    let with_head = if k > 0 {
        stamped(buf, ramp_up(head_window(paint, span, crossfade_length)), cursor(m, k) - crossfade_length)
    } else {
        buf
    };
    let with_chunk = stamped(with_head, span_samples(paint, span), cursor(m, k));
    if k + 1 < m.len() {
        stamped(with_chunk, ramp_down(tail_window(paint, span, crossfade_length)), cursor(m, k + 1))
    } else {
        with_chunk
    }
}

/// A zeroed buffer of `total` cells with the first `n` matches laid in.
pub open spec fn overlaid(
    m: Seq<SampleSpan>,
    paint: Seq<i16>,
    crossfade_length: int,
    total: nat,
    n: int,
) -> Seq<int>
    decreases n,
{
    if n <= 0 {
        Seq::new(total, |j: int| 0)
    } else {
        layer(overlaid(m, paint, crossfade_length, total, n - 1), m, paint, crossfade_length, n - 1)
    }
}

/// Every window the renderer writes lies inside an output of `total`
/// samples, and every span inside the paint buffer.
pub open spec fn layout_fits(m: Seq<SampleSpan>, paint_len: int, crossfade_length: int, total: int) -> bool {
    &&& cursor(m, m.len() as int) == total
    &&& forall|k: int| 0 <= k < m.len() ==> (#[trigger] m[k]).fits(paint_len)
    &&& forall|k: int| 0 < k < m.len() ==> #[trigger] cursor(m, k) >= crossfade_length
    &&& forall|k: int|
        0 <= k < m.len() - 1 ==> cursor(m, k + 1) + tail_len(paint_len, #[trigger] m[k], crossfade_length)
            <= total
}

/// Saturates to the 16-bit range.
pub open spec fn clamp_i16(x: int) -> int {
    if x < -32768 {
        -32768
    } else if x > 32767 {
        32767
    } else {
        x
    }
}

/// `wet * (1 - mix) + dry * mix`, truncated toward zero and saturated.
pub open spec fn mix_sample(wet: int, dry: i16, mix: DryWetMix) -> i16 {
    clamp_i16(trunc_div(wet * (mix.whole - mix.dry) + dry * mix.dry, mix.whole as int)) as i16
}

/// The overlaid buffer blended sample by sample with the target.
pub open spec fn mixed(acc: Seq<int>, target: Seq<i16>, mix: DryWetMix) -> Seq<i16> {
    Seq::new(acc.len(), |i: int| mix_sample(acc[i], target[i], mix))
}

/// Crossfade length used for a chunk size: a quarter of it.
pub open spec fn crossfade_for(chunk_size: int) -> int {
    chunk_size / 4
}

/// The final output: matches overlaid, blended with the target, and
/// peak-normalized.
pub open spec fn rendered(
    m: Seq<SampleSpan>,
    target: Seq<i16>,
    paint: Seq<i16>,
    chunk_size: int,
    mix: DryWetMix,
) -> Seq<i16> {
    normalized(
        mixed(overlaid(m, paint, crossfade_for(chunk_size), target.len(), m.len() as int), target, mix),
    )
}

/// The cursor never moves back.
pub proof fn lemma_cursor_monotone(m: Seq<SampleSpan>, a: int, b: int)
    requires
        0 <= a <= b <= m.len(),
    ensures
        0 <= cursor(m, a) <= cursor(m, b),
    decreases b,
{
    if a < b {
        lemma_cursor_monotone(m, a, b - 1);
    } else if a > 0 {
        lemma_cursor_monotone(m, a - 1, a - 1);
    }
}

/// Adds `input` into `out` from index `at` on.
pub fn stamp(out: &mut Vec<i128>, input: &[i16], at: usize)
    requires
        at + input@.len() <= old(out)@.len(),
        bounded(widen(old(out)@), ACC_HEADROOM as int),
    ensures
        final(out)@.len() == old(out)@.len(),
        widen(final(out)@) == stamped(widen(old(out)@), input@, at as int),
{
    let ghost before = out@;
    assert forall|j: int| 0 <= j < before.len() implies -ACC_HEADROOM <= #[trigger] before[j]
        <= ACC_HEADROOM by {
        assert(widen(before)[j] == before[j]);
    }
    let out_len = out.len();
    let n = input.len();
    let mut i: usize = 0;
    while i < n
        invariant
            n == input@.len(),
            at + n <= before.len(),
            out_len == before.len(),
            i <= n,
            out@.len() == before.len(),
            forall|j: int| 0 <= j < before.len() ==> -ACC_HEADROOM <= #[trigger] before[j] <= ACC_HEADROOM,
            forall|j: int|
                0 <= j < before.len() ==> #[trigger] out@[j] == if at <= j < at + i {
                    before[j] + input@[j - at]
                } else {
                    before[j] as int
                },
        decreases n - i,
    {
        let v = out[at + i] + input[i] as i128;
        out.set(at + i, v);
        i = i + 1;
    }
    assert(widen(out@) =~= stamped(widen(before), input@, at as int));
}

/// Total number of samples the matches cover.
pub fn count_number_of_output_samples(chunks: &Vec<SampleSpan>) -> (r: usize)
    requires
        cursor(chunks@, chunks@.len() as int) <= usize::MAX,
    ensures
        r == cursor(chunks@, chunks@.len() as int),
{
    let n = chunks.len();
    let mut sum: usize = 0;
    let mut k: usize = 0;
    while k < n
        invariant
            n == chunks@.len(),
            k <= n,
            sum == cursor(chunks@, k as int),
            cursor(chunks@, n as int) <= usize::MAX,
        decreases n - k,
    {
        proof {
            lemma_cursor_monotone(chunks@, k + 1, n as int);
        }
        sum = sum + chunks[k].length();
        k = k + 1;
    }
    sum
}

/// Stamping an `i16` window raises the largest magnitude by at most 32768.
pub proof fn lemma_stamped_bound(buf: Seq<int>, input: Seq<i16>, at: int, b: int)
    requires
        bounded(buf, b),
    ensures
        bounded(stamped(buf, input, at), b + 32768),
{
    assert forall|j: int| 0 <= j < buf.len() implies -(b + 32768) <= #[trigger] stamped(buf, input, at)[j]
        <= b + 32768 by {
        assert(-b <= buf[j] <= b);
    }
}

/// `wet * (1 - mix) + dry * mix`, truncated toward zero and saturated to 16 bits.
pub fn blend(wet: i128, dry: i16, mix: DryWetMix) -> (r: i16)
    requires
        mix.wf(),
        -WET_LIMIT <= wet <= WET_LIMIT,
    ensures
        r == mix_sample(wet as int, dry, mix),
{
    let w = (mix.whole - mix.dry) as i128;
    let d = mix.dry as i128;
    let den = mix.whole as i128;
    let x = dry as i128;
    assert(-WET_LIMIT * 4294967295 <= wet * w <= WET_LIMIT * 4294967295) by (nonlinear_arith)
        requires
            -WET_LIMIT <= wet <= WET_LIMIT,
            0 <= w <= 4294967295,
    ;
    assert(-32768 * 4294967295 <= x * d <= 32768 * 4294967295) by (nonlinear_arith)
        requires
            -32768 <= x <= 32767,
            0 <= d <= 4294967295,
    ;
    let num = wet * w + x * d;
    let q: i128 = if num >= 0 {
        num / den
    } else {
        -((-num) / den)
    };
    let c: i128 = if q < -32768 {
        -32768
    } else if q > 32767 {
        32767
    } else {
        q
    };
    c as i16
}

/// Rebuilds the target from matched paint spans: each span's samples are
/// added at the write cursor, with ramped crossfade windows (a quarter chunk
/// long) added across the seams. The sum is blended with the target by
/// `dry_wet_mix` and peak-normalized.
pub fn render(
    chunk_matches: &Vec<SampleSpan>,
    target_samples: &[i16],
    paint_samples: &[i16],
    chunk_size: usize,
    dry_wet_mix: DryWetMix,
) -> (r: Vec<i16>)
    requires
        dry_wet_mix.wf(),
        layout_fits(
            chunk_matches@,
            paint_samples@.len() as int,
            crossfade_for(chunk_size as int),
            target_samples@.len() as int,
        ),
    ensures
        r@ == rendered(chunk_matches@, target_samples@, paint_samples@, chunk_size as int, dry_wet_mix),
        r@.len() == target_samples@.len(),
{
    let ghost m = chunk_matches@;
    let ghost paint = paint_samples@;
    let ghost target = target_samples@;
    let target_len = target_samples.len();
    let paint_len = paint_samples.len();
    let total = count_number_of_output_samples(chunk_matches);
    let crossfade_length = chunk_size / 4;
    let ghost cf = crossfade_length as int;
    let mut result: Vec<i128> = vec![0; total];
    assert(widen(result@) =~= overlaid(m, paint, cf, total as nat, 0));
    let n = chunk_matches.len();
    let mut progress: usize = 0;
    let mut k: usize = 0;
    while k < n
        invariant
            m == chunk_matches@,
            paint == paint_samples@,
            paint_len == paint.len(),
            n == m.len(),
            total == target_len,
            target_len == target.len(),
            cf == crossfade_length,
            cf == crossfade_for(chunk_size as int),
            layout_fits(m, paint.len() as int, cf, total as int),
            k <= n,
            progress == cursor(m, k as int),
            result@.len() == total,
            widen(result@) == overlaid(m, paint, cf, total as nat, k as int),
            bounded(widen(result@), 98304 * k),
        decreases n - k,
    {
        let ghost buf0 = widen(result@);
        let chunk = chunk_matches[k];
        proof {
            lemma_cursor_monotone(m, k + 1, n as int);
            assert(chunk.fits(paint.len() as int));
        }
        let (head, tail) = generate_fades(paint_samples, &chunk, crossfade_length);
        if k > 0 {
            assert(cursor(m, k as int) >= cf);
            stamp(&mut result, head.as_slice(), progress - crossfade_length);
            proof {
                lemma_stamped_bound(buf0, head@, progress - cf, 98304 * k);
            }
        }
        let ghost buf1 = widen(result@);
        let ghost b1: int = if k > 0 { 98304 * k + 32768 } else { 98304 * k };
        assert(bounded(buf1, b1));
        stamp(&mut result, &paint_samples[chunk.range()], progress);
        proof {
            lemma_stamped_bound(buf1, span_samples(paint, chunk), progress as int, b1);
        }
        progress = progress + chunk.length();
        let ghost buf2 = widen(result@);
        assert(progress == cursor(m, k + 1));
        if k < n - 1 {
            assert(cursor(m, k + 1) + tail_len(paint.len() as int, m[k as int], cf) <= total);
            assert(tail@.len() == tail_len(paint.len() as int, m[k as int], cf));
            stamp(&mut result, tail.as_slice(), progress);
            proof {
                lemma_stamped_bound(buf2, tail@, progress as int, b1 + 32768);
            }
        }
        assert(widen(result@) == layer(buf0, m, paint, cf, k as int));
        k = k + 1;
    }
    let mut mixed_result: Vec<i16> = Vec::new();
    let mut i: usize = 0;
    while i < total
        invariant
            total == target_len,
            target_len == target.len(),
            target == target_samples@,
            result@.len() == total,
            bounded(widen(result@), 98304 * n),
            n <= usize::MAX,
            mixed_result@.len() == i,
            i <= total,
            dry_wet_mix.wf(),
            forall|j: int|
                0 <= j < i ==> mixed_result@[j] == mix_sample(
                    #[trigger] widen(result@)[j],
                    target[j],
                    dry_wet_mix,
                ),
        decreases total - i,
    {
        assert(widen(result@)[i as int] == result@[i as int]);
        mixed_result.push(blend(result[i], target_samples[i], dry_wet_mix));
        i = i + 1;
    }
    assert(mixed_result@ =~= mixed(widen(result@), target, dry_wet_mix));
    normalize(&mixed_result)
}

/// Tells whether `render` can lay the matches out: every span lies in the
/// paint buffer, the spans add up to `target_len` samples, and no crossfade
/// window reaches outside the output.
pub fn check_layout(chunk_matches: &Vec<SampleSpan>, paint_len: usize, chunk_size: usize, target_len: usize) -> (r:
    bool)
    ensures
        r == layout_fits(chunk_matches@, paint_len as int, crossfade_for(chunk_size as int), target_len as int),
{
    let ghost m = chunk_matches@;
    let cf = chunk_size / 4;
    let ghost cfi = cf as int;
    let n = chunk_matches.len();
    let mut progress: usize = 0;
    let mut k: usize = 0;
    while k < n
        invariant
            m == chunk_matches@,
            n == m.len(),
            cfi == cf,
            cfi == crossfade_for(chunk_size as int),
            k <= n,
            progress == cursor(m, k as int),
            progress <= target_len,
            forall|j: int| 0 <= j < k ==> (#[trigger] m[j]).fits(paint_len as int),
            forall|j: int| 0 < j < k ==> #[trigger] cursor(m, j) >= cfi,
            forall|j: int|
                0 <= j < k && j < n - 1 ==> cursor(m, j + 1) + tail_len(paint_len as int, #[trigger] m[j], cfi)
                    <= target_len,
        decreases n - k,
    {
        let span = chunk_matches[k];
        if span.length > paint_len || span.position > paint_len - span.length {
            assert(!m[k as int].fits(paint_len as int));
            return false;
        }
        if k > 0 && progress < cf {
            assert(cursor(m, k as int) < cfi);
            return false;
        }
        if span.length > target_len - progress {
            proof {
                lemma_cursor_monotone(m, k + 1, n as int);
            }
            return false;
        }
        let next = progress + span.length;
        let tail: usize = if cf <= paint_len - span.position - span.length {
            cf
        } else {
            0
        };
        assert(tail == tail_len(paint_len as int, m[k as int], cfi));
        if k + 1 < n && tail > target_len - next {
            assert(cursor(m, k + 1) + tail_len(paint_len as int, m[k as int], cfi) > target_len);
            return false;
        }
        progress = next;
        k = k + 1;
    }
    progress == target_len
}

} // verus!
