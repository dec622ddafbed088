use vstd::prelude::*;

use vstd::arithmetic::div_mod::lemma_div_by_multiple;

use crate::arith::lemma_ceil_div_covers;
use crate::chunk_matching::{chunk_len, is_best_offset, is_candidate, is_match_sequence, target_chunk};
use crate::render::{clamp_i16, crossfade_for, cursor, mixed, overlaid, rendered, DryWetMix};
use crate::sample_span::SampleSpan;
use crate::tidy::{
    lemma_peak_bounds, lemma_scale_bound, magnitude, normalized, peak, peak_prefix, scale_sample, trunc_div,
    FULL_SCALE,
};

verus! {

proof fn lemma_cursor_of_chunks(
    m: Seq<SampleSpan>,
    target: Seq<i16>,
    paint: Seq<i16>,
    chunk_size: int,
    search_jump: int,
    k: int,
)
    requires
        chunk_size > 0,
        is_match_sequence(m, target, paint, chunk_size, search_jump),
        0 <= k <= m.len(),
    ensures
        cursor(m, k) == if k * chunk_size <= target.len() {
            k * chunk_size
        } else {
            target.len() as int
        },
    decreases k,
{
    let len = target.len() as int;
    lemma_ceil_div_covers(len, chunk_size);
    if k > 0 {
        lemma_cursor_of_chunks(m, target, paint, chunk_size, search_jump, k - 1);
        let c = k - 1;
        assert(m[c].length == chunk_len(len, chunk_size, c));
        assert(k * chunk_size == c * chunk_size + chunk_size) by (nonlinear_arith)
            requires
                c == k - 1,
        ;
        assert(c * chunk_size <= (m.len() - 1) * chunk_size) by (nonlinear_arith)
            requires
                c <= m.len() - 1,
                chunk_size > 0,
        ;
    }
}

proof fn lemma_trunc_div_exact(x: int, d: int)
    requires
        d > 0,
    ensures
        trunc_div(x * d, d) == x,
{
    if x >= 0 {
        lemma_div_by_multiple(x, d);
        assert(x * d >= 0) by (nonlinear_arith)
            requires
                x >= 0,
                d > 0,
        ;
    } else {
        lemma_div_by_multiple(-x, d);
        assert(-(x * d) == (-x) * d && x * d < 0) by (nonlinear_arith)
            requires
                x < 0,
                d > 0,
        ;
    }
}

/// The chunks of a match sequence cover the target exactly: the spans'
/// lengths add up to the target length, and so does the rendered output.
pub proof fn lemma_length_conservation(
    m: Seq<SampleSpan>,
    target: Seq<i16>,
    paint: Seq<i16>,
    chunk_size: int,
    search_jump: int,
    mix: DryWetMix,
)
    requires
        chunk_size > 0,
        is_match_sequence(m, target, paint, chunk_size, search_jump),
    ensures
        cursor(m, m.len() as int) == target.len(),
        rendered(m, target, paint, chunk_size, mix).len() == target.len(),
{
    lemma_ceil_div_covers(target.len() as int, chunk_size);
    lemma_cursor_of_chunks(m, target, paint, chunk_size, search_jump, m.len() as int);
    lemma_overlaid_len(m, paint, crossfade_for(chunk_size), target.len(), m.len() as int);
}

proof fn lemma_overlaid_len(m: Seq<SampleSpan>, paint: Seq<i16>, crossfade_length: int, total: nat, n: int)
    ensures
        overlaid(m, paint, crossfade_length, total, n).len() == total,
    decreases n,
{
    if n > 0 {
        lemma_overlaid_len(m, paint, crossfade_length, total, n - 1);
    }
}

/// Peak-normalizing twice changes nothing: a normalized buffer that is not
/// silent already peaks at `FULL_SCALE`, and scaling by `FULL_SCALE / FULL_SCALE`
/// leaves every sample as it is.
pub proof fn lemma_normalize_idempotent(s: Seq<i16>)
    ensures
        normalized(normalized(s)) == normalized(s),
        peak(s) > 0 ==> peak(normalized(s)) == FULL_SCALE,
{
    let p = peak(s);
    lemma_peak_bounds(s, s.len() as int);
    if p > 0 {
        let n = normalized(s);
        assert forall|i: int| 0 <= i < s.len() implies -FULL_SCALE <= scale_sample(#[trigger] s[i], p)
            <= FULL_SCALE by {
            lemma_scale_bound(s[i], p);
        }
        assert forall|i: int| 0 <= i < n.len() implies magnitude(#[trigger] n[i]) <= FULL_SCALE by {
            lemma_scale_bound(s[i], p);
        }
        let w = choose|i: int| 0 <= i < s.len() && magnitude(#[trigger] s[i]) == peak_prefix(s, s.len() as int);
        lemma_scale_bound(s[w], p);
        assert(magnitude(n[w]) == FULL_SCALE);
        lemma_peak_bounds(n, n.len() as int);
        let q = peak(n);
        assert(magnitude(n[w]) <= q);
        assert(q == FULL_SCALE);
        assert forall|i: int| 0 <= i < n.len() implies scale_sample(#[trigger] n[i], q) as i16 == n[i] by {
            lemma_trunc_div_exact(n[i] as int, FULL_SCALE as int);
        }
        assert(normalized(n) =~= n);
    }
}

/// Of two offsets that are both the earliest of least error, neither can
/// come first.
pub proof fn lemma_best_offset_unique(chunk: Seq<i16>, paint: Seq<i16>, jump: int, a: int, b: int)
    requires
        is_best_offset(chunk, paint, jump, a),
        is_best_offset(chunk, paint, jump, b),
    ensures
        a == b,
{
    assert(is_candidate(a, chunk.len() as int, paint.len() as int, jump));
    assert(is_candidate(b, chunk.len() as int, paint.len() as int, jump));
}

/// The matching is deterministic: for the same target, paint and
/// configuration there is exactly one match sequence, and so one rendered
/// output.
pub proof fn lemma_determinism(
    m1: Seq<SampleSpan>,
    m2: Seq<SampleSpan>,
    target: Seq<i16>,
    paint: Seq<i16>,
    chunk_size: int,
    search_jump: int,
    mix: DryWetMix,
)
    requires
        is_match_sequence(m1, target, paint, chunk_size, search_jump),
        is_match_sequence(m2, target, paint, chunk_size, search_jump),
    ensures
        m1 == m2,
        rendered(m1, target, paint, chunk_size, mix) == rendered(m2, target, paint, chunk_size, mix),
{
    assert forall|c: int| 0 <= c < m1.len() implies #[trigger] m1[c] == m2[c] by {
        assert(m2[c].length == m1[c].length);
        lemma_best_offset_unique(
            target_chunk(target, chunk_size, c),
            paint,
            search_jump,
            m1[c].position as int,
            m2[c].position as int,
        );
    }
    assert(m1 =~= m2);
}

/// The overlaid paint material alone, saturated to 16 bits: the output
/// before any of the target is blended in.
pub open spec fn painted(m: Seq<SampleSpan>, paint: Seq<i16>, chunk_size: int, total: nat) -> Seq<i16> {
    let acc = overlaid(m, paint, crossfade_for(chunk_size), total, m.len() as int);
    Seq::new(acc.len(), |i: int| clamp_i16(acc[i]) as i16)
}

/// At the dry end of the mix the output is the normalized target; at the
/// wet end it is the normalized painted buffer, whatever the target holds.
pub proof fn lemma_dry_wet_extremes(
    m: Seq<SampleSpan>,
    target: Seq<i16>,
    paint: Seq<i16>,
    chunk_size: int,
    mix: DryWetMix,
)
    requires
        mix.wf(),
    ensures
        mix.dry == mix.whole ==> rendered(m, target, paint, chunk_size, mix) == normalized(target),
        mix.dry == 0 ==> rendered(m, target, paint, chunk_size, mix) == normalized(
            painted(m, paint, chunk_size, target.len()),
        ),
{
    let acc = overlaid(m, paint, crossfade_for(chunk_size), target.len(), m.len() as int);
    lemma_overlaid_len(m, paint, crossfade_for(chunk_size), target.len(), m.len() as int);
    let w = mix.whole as int;
    let blended = mixed(acc, target, mix);
    if mix.dry == mix.whole {
        assert forall|i: int| 0 <= i < target.len() implies #[trigger] blended[i] == target[i] by {
            let x = target[i] as int;
            assert(acc[i] * (w - w) + x * w == x * w) by (nonlinear_arith);
            lemma_trunc_div_exact(x, w);
        }
        assert(blended =~= target);
    }
    if mix.dry == 0 {
        let p = painted(m, paint, chunk_size, target.len());
        assert forall|i: int| 0 <= i < target.len() implies #[trigger] blended[i] == p[i] by {
            let x = acc[i];
            assert(x * (w - 0) + target[i] * 0 == x * w) by (nonlinear_arith);
            lemma_trunc_div_exact(x, w);
        }
        assert(blended =~= p);
    }
}

} // verus!
