use vstd::prelude::*;

use vstd::arithmetic::div_mod::{lemma_fundamental_div_mod, lemma_mod_pos_bound};

verus! {

/// `a / b` rounded up, for `b > 0`.
pub open spec fn ceil_div(a: int, b: int) -> int {
    (a + b - 1) / b
}

/// `c` is the least count of `b`-sized pieces that covers `a`.
pub proof fn lemma_ceil_div_unique(a: int, b: int, c: int)
    requires
        a >= 0,
        b > 0,
        c >= 0,
        c * b >= a,
        c == 0 || (c - 1) * b < a,
    ensures
        c == ceil_div(a, b),
{
    let n = a + b - 1;
    lemma_fundamental_div_mod(n, b);
    lemma_mod_pos_bound(n, b);
    let q = n / b;
    let r = n % b;
    assert(c == q) by (nonlinear_arith)
        requires
            n == b * q + r,
            0 <= r < b,
            n == a + b - 1,
            a >= 0,
            b > 0,
            c >= 0,
            c * b >= a,
            c == 0 || (c - 1) * b < a,
    ;
}

/// `ceil_div(a, b)` pieces of size `b` cover `a`, and one fewer does not.
pub proof fn lemma_ceil_div_covers(a: int, b: int)
    requires
        a >= 0,
        b > 0,
    ensures
        ceil_div(a, b) >= 0,
        ceil_div(a, b) * b >= a,
        ceil_div(a, b) == 0 || (ceil_div(a, b) - 1) * b < a,
{
    let n = a + b - 1;
    lemma_fundamental_div_mod(n, b);
    lemma_mod_pos_bound(n, b);
    let q = n / b;
    let r = n % b;
    assert(q >= 0 && q * b >= a && (q == 0 || (q - 1) * b < a)) by (nonlinear_arith)
        requires
            n == b * q + r,
            0 <= r < b,
            n == a + b - 1,
            a >= 0,
            b > 0,
    ;
}

/// Divides `a` by `b`, rounding up.
pub fn div_ceil(a: usize, b: usize) -> (r: usize)
    requires
        b > 0,
    ensures
        r == ceil_div(a as int, b as int),
{
    let q = a / b;
    proof {
        lemma_fundamental_div_mod(a as int, b as int);
        lemma_mod_pos_bound(a as int, b as int);
        if a % b != 0 {
            assert(q < a) by (nonlinear_arith)
                requires
                    a == b * q + (a % b),
                    0 < a % b < b,
            ;
        }
    }
    let r = if a % b != 0 { q + 1 } else { q };
    proof {
        lemma_fundamental_div_mod(a as int, b as int);
        lemma_mod_pos_bound(a as int, b as int);
        assert(r * b >= a && (r == 0 || (r - 1) * b < a)) by (nonlinear_arith)
            requires
                a == b * q + (a % b),
                0 <= a % b < b,
                r == if a % b != 0 { q + 1 } else { q as int },
                b > 0,
        ;
        lemma_ceil_div_unique(a as int, b as int, r as int);
    }
    r
}

} // verus!
