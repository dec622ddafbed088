use vstd::prelude::*;

use vstd::arithmetic::div_mod::{lemma_div_by_multiple, lemma_div_is_ordered, lemma_div_pos_is_pos};

verus! {

/// The largest magnitude a normalized sample reaches.
pub const FULL_SCALE: i32 = 32767;

/// Magnitude of a sample, as an integer (so `-32768` has magnitude `32768`).
pub open spec fn magnitude(x: i16) -> int {
    if x < 0 {
        -x
    } else {
        x as int
    }
}

/// `a / b` truncated toward zero, for `b > 0`.
pub open spec fn trunc_div(a: int, b: int) -> int {
    if a >= 0 {
        a / b
    } else {
        -((-a) / b)
    }
}

/// Largest magnitude among the first `n` samples.
pub open spec fn peak_prefix(s: Seq<i16>, n: int) -> int
    decreases n,
{
    if n <= 0 {
        0
    } else {
        let p = peak_prefix(s, n - 1);
        if magnitude(s[n - 1]) > p {
            magnitude(s[n - 1])
        } else {
            p
        }
    }
}

/// Largest magnitude in the buffer; zero for a silent or empty one.
pub open spec fn peak(s: Seq<i16>) -> int {
    peak_prefix(s, s.len() as int)
}

/// A sample scaled by `FULL_SCALE / p`, truncated toward zero.
pub open spec fn scale_sample(x: i16, p: int) -> int {
    trunc_div(x * FULL_SCALE, p)
}

/// The buffer scaled so that its peak becomes `FULL_SCALE`; a silent buffer
/// is left as it is.
pub open spec fn normalized(s: Seq<i16>) -> Seq<i16> {
    let p = peak(s);
    if p == 0 {
        s
    } else {
        Seq::new(s.len(), |i: int| scale_sample(s[i], p) as i16)
    }
}

/// Sum of `count` samples from `start` on.
pub open spec fn frame_sum(s: Seq<i16>, start: int, count: int) -> int
    decreases count,
{
    if count <= 0 {
        0
    } else {
        frame_sum(s, start, count - 1) + s[start + count - 1]
    }
}

/// Interleaved frames of `channels` samples each averaged into one mono
/// sample (truncated toward zero); mono input is returned as it is.
pub open spec fn flattened(s: Seq<i16>, channels: int) -> Seq<i16> {
    if channels > 1 {
        Seq::new(
            (s.len() as int / channels) as nat,
            |f: int| trunc_div(frame_sum(s, f * channels, channels), channels) as i16,
        )
    } else {
        s
    }
}

/// Every sample has magnitude at most `peak(s)`, and some sample reaches it.
pub proof fn lemma_peak_bounds(s: Seq<i16>, n: int)
    requires
        0 <= n <= s.len(),
    ensures
        forall|i: int| 0 <= i < n ==> magnitude(#[trigger] s[i]) <= peak_prefix(s, n),
        n > 0 ==> exists|i: int| 0 <= i < n && magnitude(#[trigger] s[i]) == peak_prefix(s, n),
        0 <= peak_prefix(s, n) <= 32768,
    decreases n,
{
    if n > 0 {
        lemma_peak_bounds(s, n - 1);
        if n - 1 > 0 {
            let w = choose|i: int| 0 <= i < n - 1 && magnitude(#[trigger] s[i]) == peak_prefix(s, n - 1);
            assert(0 <= w < n);
        }
        if magnitude(s[n - 1]) > peak_prefix(s, n - 1) || n == 1 {
            assert(magnitude(s[n - 1]) == peak_prefix(s, n) || peak_prefix(s, n) == peak_prefix(
                s,
                n - 1,
            ));
        }
    }
}

/// Scaling a sample of magnitude at most `p` stays within `FULL_SCALE`.
pub proof fn lemma_scale_bound(x: i16, p: int)
    requires
        0 < p <= 32768,
        magnitude(x) <= p,
    ensures
        -FULL_SCALE <= scale_sample(x, p) <= FULL_SCALE,
        magnitude(x) == p ==> (scale_sample(x, p) == FULL_SCALE || scale_sample(x, p)
            == -FULL_SCALE),
{
    let m = magnitude(x);
    assert(m * FULL_SCALE <= p * FULL_SCALE) by (nonlinear_arith)
        requires
            0 <= m <= p,
    ;
    assert(0 <= m * FULL_SCALE) by (nonlinear_arith)
        requires
            0 <= m,
    ;
    lemma_div_is_ordered(m * FULL_SCALE, p * FULL_SCALE, p);
    lemma_div_pos_is_pos(m * FULL_SCALE, p);
    assert(p * FULL_SCALE == FULL_SCALE * p);
    lemma_div_by_multiple(FULL_SCALE as int, p);
    if x < 0 {
        assert(-(x * FULL_SCALE) == m * FULL_SCALE) by (nonlinear_arith)
            requires
                m == -x,
        ;
    } else {
        assert(x * FULL_SCALE == m * FULL_SCALE);
    }
}

/// Scales the buffer so that its largest magnitude becomes `FULL_SCALE`,
/// each sample by `FULL_SCALE / peak`, truncated toward zero. A silent
/// buffer comes back unchanged.
pub fn normalize(samples: &[i16]) -> (r: Vec<i16>)
    ensures
        r@ == normalized(samples@),
{
    let n = samples.len();
    let mut highest: i32 = 0;
    let mut i: usize = 0;
    while i < n
        invariant
            n == samples@.len(),
            i <= n,
            highest == peak_prefix(samples@, i as int),
            0 <= highest <= 32768,
        decreases n - i,
    {
        let x = samples[i] as i32;
        let m: i32 = if x < 0 { -x } else { x };
        if m > highest {
            highest = m;
        }
        i = i + 1;
    }
    let ghost s = samples@;
    let mut out: Vec<i16> = Vec::new();
    if highest == 0 {
        let mut k: usize = 0;
        while k < n
            invariant
                n == s.len(),
                s == samples@,
                k <= n,
                out@ == s.subrange(0, k as int),
            decreases n - k,
        {
            out.push(samples[k]);
            k = k + 1;
        }
        assert(out@ == s);
        return out;
    }
    proof {
        lemma_peak_bounds(s, n as int);
    }
    let mut k: usize = 0;
    while k < n
        invariant
            n == s.len(),
            s == samples@,
            k <= n,
            highest == peak(s),
            0 < highest <= 32768,
            forall|i: int| 0 <= i < n ==> magnitude(#[trigger] s[i]) <= peak(s),
            out@.len() == k,
            forall|i: int| 0 <= i < k ==> out@[i] == scale_sample(#[trigger] s[i], peak(s)) as i16,
        decreases n - k,
    {
        let x = samples[k] as i32;
        proof {
            lemma_scale_bound(s[k as int], peak(s));
        }
        let v: i32 = if x >= 0 {
            (x * FULL_SCALE) / highest
        } else {
            -((-x * FULL_SCALE) / highest)
        };
        assert(v == scale_sample(s[k as int], peak(s)));
        out.push(v as i16);
        k = k + 1;
    }
    assert(out@ == normalized(s));
    out
}

/// Averages each frame of `channels` interleaved samples into one mono
/// sample, truncated toward zero; an incomplete frame at the end is dropped.
/// With one channel (or none) the samples come back unchanged.
pub fn flatten(samples: Vec<i16>, channels: u16) -> (r: Vec<i16>)
    ensures
        r@ == flattened(samples@, channels as int),
{
    if channels <= 1 {
        return samples;
    }
    let ghost s = samples@;
    let ghost ch = channels as int;
    let width = channels as usize;
    let n = samples.len();
    let frames = n / width;
    proof {
        vstd::arithmetic::div_mod::lemma_fundamental_div_mod(n as int, ch);
    }
    let mut new_samples: Vec<i16> = Vec::new();
    let mut f: usize = 0;
    let mut i: usize = 0;
    while f < frames
        invariant
            s == samples@,
            n == s.len(),
            ch == width,
            2 <= ch <= 65535,
            frames == n as int / ch,
            frames * ch <= n,
            f <= frames,
            i == f * ch,
            new_samples@.len() == f,
            forall|g: int|
                0 <= g < f ==> new_samples@[g] == trunc_div(frame_sum(s, g * ch, ch), ch) as i16,
        decreases frames - f,
    {
        assert(i + ch <= n) by (nonlinear_arith)
            requires
                i == f * ch,
                f < frames,
                frames * ch <= n,
        ;
        let mut sum: i32 = 0;
        let mut j: usize = 0;
        while j < width
            invariant
                s == samples@,
                n == s.len(),
                ch == width,
                2 <= ch <= 65535,
                i + ch <= n,
                j <= width,
                sum == frame_sum(s, i as int, j as int),
                -32768 * j <= sum <= 32767 * j,
            decreases width - j,
        {
            sum = sum + samples[i + j] as i32;
            j = j + 1;
        }
        let v: i32 = if sum >= 0 {
            sum / (width as i32)
        } else {
            -((-sum) / (width as i32))
        };
        new_samples.push(v as i16);
        assert((f + 1) * ch == f * ch + ch) by (nonlinear_arith);
        f = f + 1;
        i = i + width;
    }
    assert(new_samples@ == flattened(s, ch));
    new_samples
}

/// Flattens the samples to mono, then peak-normalizes them if asked to.
pub fn tidy_samples(samples: Vec<i16>, channels: u16, normalize_samples: bool) -> (r: Vec<i16>)
    ensures
        r@ == if normalize_samples {
            normalized(flattened(samples@, channels as int))
        } else {
            flattened(samples@, channels as int)
        },
{
    let samples = flatten(samples, channels);
    if normalize_samples {
        normalize(&samples)
    } else {
        samples
    }
}

} // verus!
