//! The process-wide request counter, modelled as a value with take-and-reset
//! semantics, together with the monitor's report-level computation.

use vstd::prelude::*;

verus! {

/// One reporting interval's request tally. Every pipeline records one unit per
/// response sent; the monitor takes the tally once per interval, which resets
/// it to zero for the next interval.
pub struct RequestCounter {
    count: usize,
}

impl RequestCounter {
    pub closed spec fn spec_count(self) -> nat {
        self.count as nat
    }

    pub fn new() -> (r: RequestCounter)
        ensures
            r.spec_count() == 0,
    {
        RequestCounter { count: 0 }
    }

    /// Record one sent response.
    pub fn record(&mut self)
        requires
            old(self).spec_count() < usize::MAX,
        ensures
            final(self).spec_count() == old(self).spec_count() + 1,
    {
        self.count = self.count + 1;
    }

    /// Take the tally accumulated since the last take and reset it to zero.
    pub fn take(&mut self) -> (r: usize)
        ensures
            r as nat == old(self).spec_count(),
            final(self).spec_count() == 0,
    {
        let r = self.count;
        self.count = 0;
        r
    }

    pub fn count(&self) -> (r: usize)
        ensures
            r as nat == self.spec_count(),
    {
        self.count
    }
}

/// The number of times dividing `n` by ten, rounding up, reaches 1 — the
/// ceiling of the decimal logarithm for every `n >= 1`.
pub open spec fn ceil_log10(n: nat) -> nat
    decreases n,
{
    if n <= 1 {
        0
    } else {
        1 + ceil_log10(((n + 9) / 10) as nat)
    }
}

/// The monitor's emphasis level for one interval's tally: half the ceiling
/// of the tally's decimal logarithm.
pub fn report_level(n: usize) -> (r: usize)
    ensures
        r as nat == ceil_log10(n as nat) / 2,
{
    let mut k: usize = 0;
    let mut m: usize = n;
    while m > 1
        invariant
            ceil_log10(n as nat) == k + ceil_log10(m as nat),
            k + m <= n + 1,
        decreases m,
    {
        let q = m / 10;
        let rest = m % 10;
        m = if rest > 0 {
            q + 1
        } else {
            q
        };
        k = k + 1;
    }
    k / 2
}

} // verus!
