use crate::error::ChartError;
use vstd::arithmetic::div_mod::{lemma_div_by_multiple, lemma_div_is_ordered};
use vstd::arithmetic::mul::{lemma_mul_inequality, lemma_mul_is_commutative};
use vstd::prelude::*;

verus! {

/// How many leading samples are visible after `e` time units of a reveal
/// lasting `d` time units over `n` samples: `floor((e / d) * n)`, clamped
/// to `[0, n]`.
pub open spec fn spec_visible(n: int, e: int, d: int) -> int
    recommends
        n >= 1,
        d >= 1,
        e >= 0,
{
    if (e * n) / d > n {
        n
    } else {
        (e * n) / d
    }
}

/// Reveal scheduler: convert elapsed time into the visible-sample count.
///
/// Times are in milliseconds. The result is `floor((elapsed / duration) * n)`
/// clamped into `[0, n]`; an empty series or a zero duration is invalid
/// input, reported rather than guessed around.
pub fn advance(n: usize, elapsed_ms: u64, duration_ms: u64) -> (r: Result<usize, ChartError>)
    ensures
        match r {
            Ok(v) => {
                &&& n >= 1
                &&& duration_ms >= 1
                &&& v as int == spec_visible(n as int, elapsed_ms as int, duration_ms as int)
                &&& v <= n
            },
            Err(e) => (n == 0 || duration_ms == 0) && e == ChartError::InvalidInput,
        },
{
    if n == 0 || duration_ms == 0 {
        return Err(ChartError::InvalidInput);
    }
    proof {
        assert((elapsed_ms as u128) * (n as u128) <= (u64::MAX as u128) * (u64::MAX as u128))
            by (nonlinear_arith)
            requires
                elapsed_ms <= u64::MAX,
                n <= u64::MAX,
        ;
    }
    let prod: u128 = (elapsed_ms as u128) * (n as u128);
    let q: u128 = prod / (duration_ms as u128);
    if q > n as u128 {
        Ok(n)
    } else {
        Ok(q as usize)
    }
}

/// Monotonic reveal: for a fixed series length and duration, a later
/// elapsed time never shows fewer samples than an earlier one.
pub proof fn lemma_visible_monotonic(n: int, e1: int, e2: int, d: int)
    requires
        n >= 1,
        d >= 1,
        0 <= e1 <= e2,
    ensures
        spec_visible(n, e1, d) <= spec_visible(n, e2, d),
{
    lemma_mul_inequality(e1, e2, n);
    lemma_div_is_ordered(e1 * n, e2 * n, d);
}

/// Boundary at the start: with no time elapsed, nothing is visible.
pub proof fn lemma_visible_at_start(n: int, d: int)
    requires
        n >= 1,
        d >= 1,
    ensures
        spec_visible(n, 0, d) == 0,
{
    assert(0 * n == 0);
    assert(0int / d == 0);
}

/// Boundary at the end: once the elapsed time reaches the duration, the
/// whole series is visible, and stays visible for every later time.
pub proof fn lemma_visible_complete(n: int, e: int, d: int)
    requires
        n >= 1,
        d >= 1,
        e >= d,
    ensures
        spec_visible(n, e, d) == n,
{
    lemma_mul_inequality(d, e, n);
    lemma_mul_is_commutative(d, n);
    lemma_div_by_multiple(n, d);
    lemma_div_is_ordered(d * n, e * n, d);
}

/// Reveal progress for one animation run. The host owns the clock and
/// passes elapsed time in; the count never decreases across calls and,
/// once the whole series is revealed, stays there.
pub struct RevealState {
    /// Number of leading samples currently revealed.
    pub visible_count: usize,
}

impl RevealState {
    /// A fresh run: nothing revealed yet.
    pub fn new() -> (s: Self)
        ensures
            s.visible_count == 0,
    {
        RevealState { visible_count: 0 }
    }

    /// One per-frame step: recompute the visible count from elapsed time,
    /// but never let it drop below what an earlier frame revealed, even if
    /// the caller's clock source stutters backwards.
    pub fn update(&mut self, n: usize, elapsed_ms: u64, duration_ms: u64) -> (r: Result<
        usize,
        ChartError,
    >)
        requires
            old(self).visible_count <= n,
        ensures
            match r {
                Ok(v) => {
                    &&& n >= 1
                    &&& duration_ms >= 1
                    &&& v as int == if spec_visible(n as int, elapsed_ms as int, duration_ms as int)
                        >= old(self).visible_count as int {
                        spec_visible(n as int, elapsed_ms as int, duration_ms as int)
                    } else {
                        old(self).visible_count as int
                    }
                    &&& final(self).visible_count == v
                    &&& old(self).visible_count <= v <= n
                },
                Err(e) => {
                    &&& (n == 0 || duration_ms == 0)
                    &&& e == ChartError::InvalidInput
                    &&& final(self).visible_count == old(self).visible_count
                },
            },
    {
        match advance(n, elapsed_ms, duration_ms) {
            Ok(v) => {
                if v >= self.visible_count {
                    self.visible_count = v;
                }
                Ok(self.visible_count)
            },
            Err(e) => Err(e),
        }
    }
}

} // verus!
