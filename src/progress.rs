use vstd::prelude::*;

verus! {

/// Sum of the first `n` durations.
pub open spec fn total_of(d: Seq<u64>, n: int) -> int
    decreases n,
{
    if n <= 0 {
        0
    } else {
        total_of(d, n - 1) + d[n - 1]
    }
}

/// Mean of the durations, rounded down; none for an empty list.
pub open spec fn mean_of(d: Seq<u64>) -> Option<int> {
    if d.len() == 0 {
        None
    } else {
        Some(total_of(d, d.len() as int) / d.len() as int)
    }
}

/// Running record of how long each chunk took, in microseconds, from which
/// the time left is estimated.
pub struct TimeAverage {
    pub durations: Vec<u64>,
}

impl TimeAverage {
    pub fn new() -> (r: TimeAverage)
        ensures
            r.durations@ == Seq::<u64>::empty(),
    {
        TimeAverage { durations: Vec::new() }
    }

    /// Records one duration.
    pub fn push(&mut self, micros: u64)
        ensures
            final(self).durations@ == old(self).durations@.push(micros),
    {
        self.durations.push(micros);
    }

    /// Mean duration in microseconds, rounded down; `None` before any was recorded.
    pub fn average_micros(&self) -> (r: Option<u64>)
        ensures
            r matches Some(a) ==> mean_of(self.durations@) == Some(a as int),
            r is None <==> mean_of(self.durations@) is None,
    {
        let n = self.durations.len();
        if n == 0 {
            return None;
        }
        let mut sum: u128 = 0;
        let mut k: usize = 0;
        while k < n
            invariant
                n == self.durations@.len(),
                k <= n,
                sum == total_of(self.durations@, k as int),
                sum <= k * 0xffff_ffff_ffff_ffff,
            decreases n - k,
        {
            assert(sum + self.durations@[k as int] <= (k + 1) * 0xffff_ffff_ffff_ffff) by (nonlinear_arith)
                requires
                    sum <= k * 0xffff_ffff_ffff_ffff,
                    self.durations@[k as int] <= 0xffff_ffff_ffff_ffff,
            ;
            sum = sum + self.durations[k] as u128;
            k = k + 1;
        }
        let avg = sum / (n as u128);
        assert(avg <= 0xffff_ffff_ffff_ffff) by (nonlinear_arith)
            requires
                avg == sum as int / (n as int),
                sum <= n * 0xffff_ffff_ffff_ffff,
                n > 0,
        ;
        Some(avg as u64)
    }

    /// Estimated time left for `remaining` more chunks: the mean duration
    /// times `remaining`; `None` before any duration was recorded.
    pub fn eta_micros(&self, remaining: usize) -> (r: Option<u128>)
        ensures
            r matches Some(e) ==> mean_of(self.durations@) matches Some(a) && e == a * remaining,
            r is None <==> mean_of(self.durations@) is None,
    {
        match self.average_micros() {
            None => None,
            Some(a) => {
                assert(a * remaining <= 0xffff_ffff_ffff_ffff * 0xffff_ffff_ffff_ffff) by (nonlinear_arith)
                    requires
                        a <= 0xffff_ffff_ffff_ffff,
                        remaining <= 0xffff_ffff_ffff_ffff,
                ;
                Some(a as u128 * remaining as u128)
            },
        }
    }
}

} // verus!
