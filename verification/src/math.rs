//! Integer mathematics under the statistics engine: sums, extrema,
//! squared deviations, and the floor of the square root.

use vstd::prelude::*;

verus! {

/// The sum of a sample sequence, as an unbounded integer.
pub open spec fn sum(s: Seq<u64>) -> int
    decreases s.len(),
{
    if s.len() == 0 {
        0
    } else {
        sum(s.drop_last()) + s.last()
    }
}

/// The sum of squared deviations of a sample sequence from `m`.
pub open spec fn sq_dev_sum(s: Seq<u64>, m: int) -> int
    decreases s.len(),
{
    if s.len() == 0 {
        0
    } else {
        sq_dev_sum(s.drop_last(), m) + (s.last() - m) * (s.last() - m)
    }
}

/// The least element of a non-empty sample sequence.
pub open spec fn seq_min(s: Seq<u64>) -> u64
    decreases s.len(),
{
    if s.len() <= 1 {
        s[0]
    } else if s.last() < seq_min(s.drop_last()) {
        s.last()
    } else {
        seq_min(s.drop_last())
    }
}

/// The greatest element of a non-empty sample sequence.
pub open spec fn seq_max(s: Seq<u64>) -> u64
    decreases s.len(),
{
    if s.len() <= 1 {
        s[0]
    } else if s.last() > seq_max(s.drop_last()) {
        s.last()
    } else {
        seq_max(s.drop_last())
    }
}

pub proof fn lemma_min_max_in_range(s: Seq<u64>)
    requires
        s.len() >= 1,
    ensures
        seq_min(s) <= seq_max(s),
        forall|i: int| 0 <= i < s.len() ==> seq_min(s) <= #[trigger] s[i] <= seq_max(s),
    decreases s.len(),
{
    if s.len() > 1 {
        let d = s.drop_last();
        lemma_min_max_in_range(d);
        assert(forall|i: int| 0 <= i < d.len() ==> #[trigger] s[i] == d[i]);
        assert(s.last() == s[s.len() - 1]);
    }
}

/// The sum lies between `len * min` and `len * max`.
pub proof fn lemma_sum_bounds(s: Seq<u64>, lo: int, hi: int)
    requires
        forall|i: int| 0 <= i < s.len() ==> lo <= #[trigger] s[i] <= hi,
    ensures
        s.len() * lo <= sum(s) <= s.len() * hi,
    decreases s.len(),
{
    if s.len() == 0 {
    } else {
        let d = s.drop_last();
        assert(forall|i: int| 0 <= i < d.len() ==> lo <= #[trigger] d[i] <= hi) by {
            assert(forall|i: int| 0 <= i < d.len() ==> #[trigger] d[i] == s[i]);
        }
        lemma_sum_bounds(d, lo, hi);
        assert((s.len() - 1) * lo + lo == s.len() * lo) by (nonlinear_arith);
        assert((s.len() - 1) * hi + hi == s.len() * hi) by (nonlinear_arith);
    }
}

pub proof fn lemma_sq_dev_sum_nonneg(s: Seq<u64>, m: int)
    ensures
        sq_dev_sum(s, m) >= 0,
    decreases s.len(),
{
    if s.len() > 0 {
        lemma_sq_dev_sum_nonneg(s.drop_last(), m);
        assert((s.last() - m) * (s.last() - m) >= 0) by (nonlinear_arith);
    }
}

/// `r` is the floor of the square root of `x`.
pub open spec fn is_sqrt(x: int, r: int) -> bool {
    &&& 0 <= r
    &&& r * r <= x
    &&& x < (r + 1) * (r + 1)
}

/// The floor of the square root of a non-negative integer.
pub open spec fn sqrt_floor(x: int) -> int {
    choose|r: int| is_sqrt(x, r)
}

pub proof fn lemma_sqrt_exists(x: int)
    requires
        x >= 0,
    ensures
        is_sqrt(x, sqrt_floor(x)),
    decreases x,
{
    if x == 0 {
        assert(is_sqrt(0, 0));
    } else {
        lemma_sqrt_exists(x - 1);
        let r = sqrt_floor(x - 1);
        assert(is_sqrt(x - 1, r));
        if x < (r + 1) * (r + 1) {
            assert(is_sqrt(x, r));
        } else {
            assert(x == (r + 1) * (r + 1));
            assert(x < (r + 2) * (r + 2)) by (nonlinear_arith)
                requires
                    x == (r + 1) * (r + 1) && r >= 0,
            ;
            assert(is_sqrt(x, r + 1));
        }
    }
}

pub proof fn lemma_sqrt_unique(x: int, r: int)
    requires
        is_sqrt(x, r),
    ensures
        r == sqrt_floor(x),
{
    let q = sqrt_floor(x);
    assert(is_sqrt(x, q));
    assert(r == q) by (nonlinear_arith)
        requires
            is_sqrt(x, r) && is_sqrt(x, q),
    ;
}

/// Binary search for the floor of the square root of a 128-bit integer.
/// The result always fits in 64 bits.
pub fn isqrt_u128(x: u128) -> (r: u64)
    ensures
        is_sqrt(x as int, r as int),
        r == sqrt_floor(x as int),
{
    let mut lo: u64 = 0;
    let mut hi: u64 = u64::MAX;
    proof {
        assert((hi as int + 1) * (hi as int + 1) > u128::MAX as int) by (nonlinear_arith)
            requires
                hi == u64::MAX,
        ;
    }
    while lo < hi
        invariant
            lo <= hi,
            (lo as int) * (lo as int) <= x as int,
            (x as int) < (hi as int + 1) * (hi as int + 1),
        decreases hi - lo,
    {
        let mid: u64 = lo + (hi - lo) / 2;
        proof {
            assert((mid as int + 1) * (mid as int + 1) <= u128::MAX as int) by (nonlinear_arith)
                requires
                    0 <= mid as int + 1 <= u64::MAX as int,
            ;
        }
        let cand: u128 = (mid as u128 + 1) * (mid as u128 + 1);
        if cand <= x {
            lo = mid + 1;
        } else {
            hi = mid;
        }
    }
    proof {
        lemma_sqrt_unique(x as int, lo as int);
    }
    lo
}

} // verus!
