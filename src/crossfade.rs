use vstd::prelude::*;

use crate::sample_span::SampleSpan;
use crate::tidy::trunc_div;

verus! {

/// `x * num / den`, truncated toward zero.
pub open spec fn scaled(x: i16, num: int, den: int) -> int {
    trunc_div(x * num, den)
}

/// The window ramped from silence up to full level: sample `i` of `n` is
/// scaled by `i / n`.
pub open spec fn ramp_up(w: Seq<i16>) -> Seq<i16> {
    Seq::new(w.len(), |i: int| scaled(w[i], i, w.len() as int) as i16)
}

/// The window ramped from full level down to silence: sample `i` of `n` is
/// scaled by `1 - i / n`.
pub open spec fn ramp_down(w: Seq<i16>) -> Seq<i16> {
    Seq::new(w.len(), |i: int| scaled(w[i], w.len() - i, w.len() as int) as i16)
}

/// Where the lead-in window starts: `crossfade_length` before the span,
/// clamped to the start of the buffer.
pub open spec fn head_start(span: SampleSpan, crossfade_length: int) -> int {
    if span.position >= crossfade_length {
        span.position - crossfade_length
    } else {
        0
    }
}

/// The samples just before the span, at most `crossfade_length` of them.
pub open spec fn head_window(samples: Seq<i16>, span: SampleSpan, crossfade_length: int) -> Seq<i16> {
    samples.subrange(head_start(span, crossfade_length), span.position as int)
}

/// The tail window fits in the buffer.
pub open spec fn tail_fits(len: int, span: SampleSpan, crossfade_length: int) -> bool {
    span.end_spec() + crossfade_length <= len
}

/// The `crossfade_length` samples just after the span, or nothing if they
/// do not all lie inside the buffer.
pub open spec fn tail_window(samples: Seq<i16>, span: SampleSpan, crossfade_length: int) -> Seq<i16> {
    if tail_fits(samples.len() as int, span, crossfade_length) {
        samples.subrange(span.end_spec(), span.end_spec() + crossfade_length)
    } else {
        Seq::empty()
    }
}

proof fn lemma_scaled_bound(x: i16, num: int, den: int)
    requires
        0 <= num <= den,
        den > 0,
    ensures
        -32768 <= scaled(x, num, den) <= 32767,
        x >= 0 ==> 0 <= scaled(x, num, den) <= x,
        x < 0 ==> x <= scaled(x, num, den) <= 0,
{
    let m: int = if x < 0 { -x } else { x as int };
    assert(0 <= m * num <= m * den) by (nonlinear_arith)
        requires
            0 <= m,
            0 <= num <= den,
    ;
    vstd::arithmetic::div_mod::lemma_div_is_ordered(m * num, m * den, den);
    vstd::arithmetic::div_mod::lemma_div_by_multiple(m, den);
    vstd::arithmetic::div_mod::lemma_div_pos_is_pos(m * num, den);
    if x < 0 {
        assert(-(x * num) == m * num) by (nonlinear_arith)
            requires
                m == -x,
        ;
    }
}

/// `sample * num / den`, truncated toward zero.
pub fn apply(sample: i16, num: usize, den: usize) -> (r: i16)
    requires
        0 < den,
        num <= den,
    ensures
        r == scaled(sample, num as int, den as int),
{
    proof {
        lemma_scaled_bound(sample, num as int, den as int);
    }
    let x = sample as i128;
    let n = num as i128;
    let d = den as i128;
    let m: i128 = if x >= 0 { x } else { -x };
    assert(0 <= m * n <= 32768 * 0xffff_ffff_ffff_ffff) by (nonlinear_arith)
        requires
            0 <= m <= 32768,
            0 <= n <= 0xffff_ffff_ffff_ffff,
    ;
    let q = (m * n) / d;
    let v: i128 = if x >= 0 { q } else { -q };
    proof {
        if x < 0 {
            assert(m * n == -(x * n)) by (nonlinear_arith)
                requires
                    m == -x,
            ;
        }
    }
    assert(v == scaled(sample, num as int, den as int));
    v as i16
}

/// Applies a linear ramp to `window`: up from silence when `rising`,
/// down to silence otherwise.
pub fn ramp(window: &[i16], rising: bool) -> (r: Vec<i16>)
    ensures
        r@ == if rising {
            ramp_up(window@)
        } else {
            ramp_down(window@)
        },
{
    let n = window.len();
    let mut out: Vec<i16> = Vec::new();
    let mut i: usize = 0;
    while i < n
        invariant
            n == window@.len(),
            i <= n,
            out@.len() == i,
            forall|k: int|
                0 <= k < i ==> out@[k] == if rising {
                    scaled(window@[k], k, n as int) as i16
                } else {
                    scaled(window@[k], n - k, n as int) as i16
                },
        decreases n - i,
    {
        let num = if rising { i } else { n - i };
        out.push(apply(window[i], num, n));
        i = i + 1;
    }
    assert(out@ =~= if rising {
        ramp_up(window@)
    } else {
        ramp_down(window@)
    });
    out
}

/// The crossfade windows of a matched span: the ramped-up samples before it
/// (clamped at the buffer start) and the ramped-down samples after it (empty
/// unless all `crossfade_length` of them lie inside the buffer).
pub fn generate_fades(samples: &[i16], clip_range: &SampleSpan, crossfade_length: usize) -> (r: (
    Vec<i16>,
    Vec<i16>,
))
    requires
        clip_range.fits(samples@.len() as int),
    ensures
        r.0@ == ramp_up(head_window(samples@, *clip_range, crossfade_length as int)),
        r.1@ == ramp_down(tail_window(samples@, *clip_range, crossfade_length as int)),
        clip_range.position == 0 ==> r.0@.len() == 0,
        !tail_fits(samples@.len() as int, *clip_range, crossfade_length as int) ==> r.1@.len() == 0,
{
    let len = samples.len();
    let start = clip_range.start();
    let head_position: usize = if start >= crossfade_length {
        start - crossfade_length
    } else {
        0
    };
    let end = clip_range.end();
    let tail_length: usize = if crossfade_length <= len - end {
        crossfade_length
    } else {
        0
    };
    let head = ramp(&samples[head_position..start], true);
    let tail = ramp(&samples[end..end + tail_length], false);
    proof {
        if tail_length == 0 {
            assert(samples@.subrange(end as int, end as int) =~= Seq::<i16>::empty());
        }
    }
    (head, tail)
}

} // verus!
