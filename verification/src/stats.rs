//! The statistics engine: reduces one Sample Store to count, mean, sample
//! standard deviation, a 95% confidence interval and extrema, and compares
//! the summaries of several experiments.
//!
//! All arithmetic is integral. The mean is the floored quotient of the
//! exact 128-bit sum; the spread is the floored square root of the
//! Bessel-corrected variance; the interval half-width is
//! `196 * stddev / 100 / floor(sqrt(count))`, a floored rendering of
//! `1.96 * stddev / sqrt(count)` (normal approximation, a documented
//! design choice). The sum of squared deviations saturates at the 128-bit
//! limit; for any realistic sample spread it is exact.

use vstd::prelude::*;

use crate::AbshError;
use crate::experiment_name::ExperimentName;
use crate::math::{
    is_sqrt, isqrt_u128, lemma_min_max_in_range, lemma_sq_dev_sum_nonneg, lemma_sqrt_exists,
    lemma_sqrt_unique, lemma_sum_bounds, seq_max, seq_min, sq_dev_sum, sqrt_floor, sum,
};
use crate::measure_key::MeasureKey;
use crate::store::SampleStore;
use vstd::arithmetic::div_mod::{
    lemma_div_is_ordered, lemma_div_multiples_vanish, lemma_div_nonincreasing,
    lemma_div_pos_is_pos,
};

verus! {

/// The summary of one Sample Store.
#[derive(Copy, Clone, Debug, PartialEq, Eq, Structural)]
pub struct Stats {
    pub count: u64,
    pub mean: u64,
    pub stddev: u64,
    pub ci_low: u64,
    pub ci_high: u64,
    pub min: u64,
    pub max: u64,
}

/// An integer capped at the 128-bit limit.
pub open spec fn cap_u128(x: int) -> int {
    if x > u128::MAX as int {
        u128::MAX as int
    } else {
        x
    }
}

/// The floored arithmetic mean of a sample sequence.
pub open spec fn spec_mean(s: Seq<u64>) -> int {
    sum(s) / (s.len() as int)
}

/// The Bessel-corrected sample variance, floored, with the squared
/// deviations taken from the floored mean and capped at the 128-bit limit.
pub open spec fn spec_var(s: Seq<u64>) -> int {
    cap_u128(sq_dev_sum(s, spec_mean(s))) / (s.len() as int - 1)
}

/// The sample standard deviation: the floored root of the variance.
pub open spec fn spec_stddev(s: Seq<u64>) -> int {
    sqrt_floor(spec_var(s))
}

/// Half-width of the 95% confidence interval around the mean.
pub open spec fn spec_ci_half(s: Seq<u64>) -> int {
    196 * spec_stddev(s) / 100 / sqrt_floor(s.len() as int)
}

/// The lower interval bound, clamped at zero.
pub open spec fn spec_ci_low(s: Seq<u64>) -> int {
    if spec_ci_half(s) >= spec_mean(s) {
        0
    } else {
        spec_mean(s) - spec_ci_half(s)
    }
}

/// The upper interval bound, clamped at the sample type's limit.
pub open spec fn spec_ci_high(s: Seq<u64>) -> int {
    if spec_mean(s) + spec_ci_half(s) > u64::MAX as int {
        u64::MAX as int
    } else {
        spec_mean(s) + spec_ci_half(s)
    }
}

/// The whole summary of a sample sequence with at least two samples.
pub open spec fn spec_stats(s: Seq<u64>) -> Stats {
    Stats {
        count: s.len() as u64,
        mean: spec_mean(s) as u64,
        stddev: spec_stddev(s) as u64,
        ci_low: spec_ci_low(s) as u64,
        ci_high: spec_ci_high(s) as u64,
        min: seq_min(s),
        max: seq_max(s),
    }
}

/// The floored mean lies between the extrema.
pub proof fn lemma_mean_bounds(s: Seq<u64>)
    requires
        s.len() >= 1,
    ensures
        seq_min(s) <= spec_mean(s) <= seq_max(s),
        0 <= spec_mean(s) <= u64::MAX,
{
    let n = s.len() as int;
    lemma_min_max_in_range(s);
    lemma_sum_bounds(s, seq_min(s) as int, seq_max(s) as int);
    lemma_div_is_ordered(n * (seq_min(s) as int), sum(s), n);
    lemma_div_is_ordered(sum(s), n * (seq_max(s) as int), n);
    lemma_div_multiples_vanish(seq_min(s) as int, n);
    lemma_div_multiples_vanish(seq_max(s) as int, n);
}

/// Non-negativity of the spread and half-width, and the interval's fit.
pub proof fn lemma_ci_parts(s: Seq<u64>)
    requires
        s.len() >= 2,
    ensures
        spec_stddev(s) >= 0,
        sqrt_floor(s.len() as int) >= 1,
        spec_ci_half(s) >= 0,
{
    let n = s.len() as int;
    lemma_sq_dev_sum_nonneg(s, spec_mean(s));
    lemma_div_pos_is_pos(cap_u128(sq_dev_sum(s, spec_mean(s))), n - 1);
    lemma_sqrt_exists(spec_var(s));
    lemma_sqrt_exists(n);
    let sn = sqrt_floor(n);
    assert(is_sqrt(n, sn));
    assert(sn >= 1) by (nonlinear_arith)
        requires
            n < (sn + 1) * (sn + 1) && n >= 2 && sn >= 0,
    ;
    lemma_div_pos_is_pos(196 * spec_stddev(s), 100);
    lemma_div_pos_is_pos(196 * spec_stddev(s) / 100, sn);
}

/// For every store with at least two samples the spread is non-negative
/// and the confidence interval contains the mean.
pub proof fn lemma_stats_bounds(s: Seq<u64>)
    requires
        s.len() >= 2,
    ensures
        spec_stats(s).stddev >= 0,
        spec_stats(s).ci_low <= spec_stats(s).mean,
        spec_stats(s).mean <= spec_stats(s).ci_high,
{
    lemma_mean_bounds(s);
    lemma_ci_parts(s);
}

fn sat_add_u128(a: u128, b: u128) -> (r: u128)
    ensures
        r as int == cap_u128(a as int + b as int),
{
    if a > u128::MAX - b {
        u128::MAX
    } else {
        a + b
    }
}

/// Reduces one Sample Store to its summary. Fails exactly when fewer than
/// two samples were recorded: the spread of a single sample is undefined.
pub fn stats_of(store: &SampleStore) -> (r: Result<Stats, AbshError>)
    ensures
        r is Ok <==> store@.len() >= 2,
        r is Ok ==> r->Ok_0 == spec_stats(store@),
        r is Err ==> r->Err_0 == AbshError::InsufficientData,
{
    let n = store.len();
    if n < 2 {
        return Err(AbshError::InsufficientData);
    }
    let s = Ghost(store@);

    // extrema
    let mut mn: u64 = store.get(0);
    let mut mx: u64 = mn;
    let mut i: usize = 1;
    proof {
        assert(s@.take(1).len() == 1);
        assert(s@.take(1)[0] == s@[0]);
    }
    while i < n
        invariant
            n == s@.len(),
            s@ == store@,
            1 <= i <= n,
            mn == seq_min(s@.take(i as int)),
            mx == seq_max(s@.take(i as int)),
        decreases n - i,
    {
        let v = store.get(i);
        proof {
            let t = s@.take(i as int + 1);
            assert(t.drop_last() =~= s@.take(i as int));
            assert(t.last() == s@[i as int]);
        }
        if v < mn {
            mn = v;
        }
        if v > mx {
            mx = v;
        }
        i = i + 1;
    }
    proof {
        assert(s@.take(n as int) =~= s@);
    }

    // exact sum in a wider integer
    let mut acc: u128 = 0;
    let mut i: usize = 0;
    while i < n
        invariant
            n == s@.len(),
            s@ == store@,
            i <= n,
            acc == sum(s@.take(i as int)),
            acc as int <= (i as int) * (u64::MAX as int),
        decreases n - i,
    {
        let v = store.get(i);
        proof {
            let t = s@.take(i as int + 1);
            assert(t.drop_last() =~= s@.take(i as int));
            assert(t.last() == s@[i as int]);
            assert((i as int) * (u64::MAX as int) + u64::MAX as int == (i as int + 1) * (
            u64::MAX as int)) by (nonlinear_arith);
            assert((i as int + 1) * (u64::MAX as int) <= (n as int) * (u64::MAX as int))
                by (nonlinear_arith)
                requires
                    i as int + 1 <= n as int,
            ;
            assert((n as int) * (u64::MAX as int) <= u128::MAX as int) by (nonlinear_arith)
                requires
                    0 <= n as int <= u64::MAX as int,
            ;
        }
        acc = acc + v as u128;
        i = i + 1;
    }
    proof {
        assert(s@.take(n as int) =~= s@);
    }

    // floored mean; it lies between the extrema, so it fits the sample type
    let mean128: u128 = acc / (n as u128);
    proof {
        lemma_mean_bounds(s@);
    }
    let mean: u64 = mean128 as u64;

    // squared deviations from the floored mean, saturating at the 128-bit cap
    let mut acc2: u128 = 0;
    let mut i: usize = 0;
    while i < n
        invariant
            n == s@.len(),
            s@ == store@,
            i <= n,
            mean as int == spec_mean(s@),
            acc2 as int == cap_u128(sq_dev_sum(s@.take(i as int), mean as int)),
        decreases n - i,
    {
        let v = store.get(i);
        let d: u64 = if v >= mean {
            v - mean
        } else {
            mean - v
        };
        proof {
            let t = s@.take(i as int + 1);
            assert(t.drop_last() =~= s@.take(i as int));
            assert(t.last() == s@[i as int]);
            assert((d as int) * (d as int) == (s@[i as int] - mean as int) * (s@[i as int]
                - mean as int)) by (nonlinear_arith)
                requires
                    d as int == s@[i as int] - mean as int || d as int == mean as int - s@[i as int],
            ;
            assert((d as int) * (d as int) <= u128::MAX as int) by (nonlinear_arith)
                requires
                    0 <= d as int <= u64::MAX as int,
            ;
            lemma_sq_dev_sum_nonneg(s@.take(i as int), mean as int);
        }
        let dd: u128 = (d as u128) * (d as u128);
        acc2 = sat_add_u128(acc2, dd);
        i = i + 1;
    }
    proof {
        assert(s@.take(n as int) =~= s@);
    }

    // Bessel-corrected variance and its floored root
    let var: u128 = acc2 / ((n - 1) as u128);
    let stddev: u64 = isqrt_u128(var);
    proof {
        assert(var as int == spec_var(s@));
        lemma_sqrt_unique(var as int, stddev as int);
    }

    // interval half-width: 196 * stddev / 100 / floor(sqrt(count))
    let sn: u64 = isqrt_u128(n as u128);
    proof {
        assert((n as int) < (sn as int + 1) * (sn as int + 1));
        assert(sn >= 1) by (nonlinear_arith)
            requires
                (n as int) < (sn as int + 1) * (sn as int + 1) && n >= 2 && sn >= 0,
        ;
    }
    let t: u128 = 196 * (stddev as u128);
    let ci_half: u128 = t / 100 / (sn as u128);
    proof {
        lemma_div_nonincreasing(t as int, 100);
        lemma_div_nonincreasing(t as int / 100, sn as int);
        lemma_div_pos_is_pos(t as int, 100);
        lemma_div_pos_is_pos(t as int / 100, sn as int);
    }
    let ci_low: u64 = if ci_half >= mean as u128 {
        0
    } else {
        mean - (ci_half as u64)
    };
    let sum_high: u128 = mean as u128 + ci_half;
    let ci_high: u64 = if sum_high > u64::MAX as u128 {
        u64::MAX
    } else {
        sum_high as u64
    };

    let st = Stats { count: n as u64, mean, stddev, ci_low, ci_high, min: mn, max: mx };
    proof {
        assert(st == spec_stats(s@));
    }
    Ok(st)
}

/// Two summaries whose confidence intervals overlap cannot be told apart.
pub open spec fn ci_overlap(a: Stats, b: Stats) -> bool {
    a.ci_low <= b.ci_high && b.ci_low <= a.ci_high
}

/// The index of the entry with the least mean among the first `i`,
/// the earliest on ties.
pub open spec fn spec_best_idx(l: Seq<(ExperimentName, Stats)>, i: int) -> int
    decreases i,
{
    if i <= 1 {
        0
    } else {
        let b = spec_best_idx(l, i - 1);
        if l[i - 1].1.mean < l[b].1.mean {
            i - 1
        } else {
            b
        }
    }
}

/// The best experiment of a comparison: the one with the least mean, for
/// the metrics where lower is better. Whether lower is better for the
/// user-defined metric is deliberately left open, so no winner is named.
pub open spec fn spec_best(l: Seq<(ExperimentName, Stats)>, key: MeasureKey) -> Option<
    ExperimentName,
> {
    if key == MeasureKey::UserDefinedMetric || l.len() == 0 {
        None
    } else {
        Some(l[spec_best_idx(l, l.len() as int)].0)
    }
}

/// The pairs among entry `i` and the entries before `j` (both after `i`)
/// whose intervals overlap, in order.
pub open spec fn spec_overlap_row(l: Seq<(ExperimentName, Stats)>, i: int, j: int) -> Seq<
    (ExperimentName, ExperimentName),
>
    decreases j - i,
{
    if j <= i + 1 {
        Seq::empty()
    } else {
        spec_overlap_row(l, i, j - 1) + if ci_overlap(l[i].1, l[j - 1].1) {
            seq![(l[i].0, l[j - 1].0)]
        } else {
            Seq::empty()
        }
    }
}

/// All overlapping pairs among the first `i` entries and their successors.
pub open spec fn spec_overlaps(l: Seq<(ExperimentName, Stats)>, i: int) -> Seq<
    (ExperimentName, ExperimentName),
>
    decreases i,
{
    if i <= 0 {
        Seq::empty()
    } else {
        spec_overlaps(l, i - 1) + spec_overlap_row(l, i - 1, l.len() as int)
    }
}

/// The outcome of comparing all experiments' summaries for one metric.
pub struct Comparison {
    /// The experiment with the least mean, where lower is better.
    pub best: Option<ExperimentName>,
    /// The pairs whose confidence intervals overlap: not distinguishable.
    pub overlaps: Vec<(ExperimentName, ExperimentName)>,
}

/// Ranks the experiments' summaries for one metric and finds the pairs
/// that the confidence intervals cannot tell apart.
pub fn compare_stats(l: &Vec<(ExperimentName, Stats)>, key: MeasureKey) -> (c: Comparison)
    ensures
        c.best == spec_best(l@, key),
        c.overlaps@ == spec_overlaps(l@, l@.len() as int),
{
    let n = l.len();
    let best: Option<ExperimentName> = if matches!(key, MeasureKey::UserDefinedMetric) || n == 0 {
        None
    } else {
        let mut b: usize = 0;
        let mut i: usize = 1;
        while i < n
            invariant
                1 <= i <= n,
                n == l@.len(),
                b as int == spec_best_idx(l@, i as int),
                b < i,
            decreases n - i,
        {
            if l[i].1.mean < l[b].1.mean {
                b = i;
            }
            i = i + 1;
        }
        Some(l[b].0)
    };
    let mut overlaps: Vec<(ExperimentName, ExperimentName)> = Vec::new();
    let mut i: usize = 0;
    while i < n
        invariant
            i <= n,
            n == l@.len(),
            overlaps@ == spec_overlaps(l@, i as int),
        decreases n - i,
    {
        let mut j: usize = i + 1;
        while j < n
            invariant
                i < j <= n,
                n == l@.len(),
                overlaps@ == spec_overlaps(l@, i as int) + spec_overlap_row(
                    l@,
                    i as int,
                    j as int,
                ),
            decreases n - j,
        {
            if l[i].1.ci_low <= l[j].1.ci_high && l[j].1.ci_low <= l[i].1.ci_high {
                overlaps.push((l[i].0, l[j].0));
            }
            proof {
                assert(overlaps@ =~= spec_overlaps(l@, i as int) + spec_overlap_row(
                    l@,
                    i as int,
                    j as int + 1,
                ));
            }
            j = j + 1;
        }
        proof {
            assert(overlaps@ =~= spec_overlaps(l@, i as int + 1));
        }
        i = i + 1;
    }
    Comparison { best, overlaps }
}

} // verus!
