//! The Distribution Plotter: a compact ASCII histogram per experiment on a
//! shared horizontal scale, so shapes are visually comparable.
//!
//! All experiments' samples are pooled to find the shared range; each
//! experiment's samples are bucketed into the shared bins; each bin is
//! normalized by that experiment's own tallest bin and drawn as one of
//! nine fill levels of increasing density. The plot only reads the
//! stores; it never changes them.

use vstd::prelude::*;

use crate::experiment::Experiment;
use crate::experiment_map::ExperimentMap;
use crate::experiment_name::ExperimentName;
use crate::math::{lemma_min_max_in_range, seq_max, seq_min};
use crate::measure_key::MeasureKey;
use crate::store::SampleStore;
use vstd::arithmetic::div_mod::{lemma_div_is_ordered, lemma_div_multiples_vanish_fancy};
use vstd::string::StringExecFns;

verus! {

/// The shared bin a sample falls into; a degenerate range is one bin.
pub open spec fn bin_of(x: u64, lo: u64, hi: u64, bins: int) -> int {
    if lo == hi {
        0
    } else {
        (x - lo) * bins / (hi - lo + 1)
    }
}

/// How many samples of a sequence fall into bin `j`.
pub open spec fn count_bin(s: Seq<u64>, lo: u64, hi: u64, bins: int, j: int) -> nat
    decreases s.len(),
{
    if s.len() == 0 {
        0
    } else {
        count_bin(s.drop_last(), lo, hi, bins, j) + if bin_of(s.last(), lo, hi, bins) == j {
            1nat
        } else {
            0nat
        }
    }
}

/// The tallest bin count among the first `k` bins.
pub open spec fn max_bin_upto(s: Seq<u64>, lo: u64, hi: u64, bins: int, k: int) -> nat
    decreases k,
{
    if k <= 0 {
        0
    } else {
        let m = max_bin_upto(s, lo, hi, bins, k - 1);
        let c = count_bin(s, lo, hi, bins, k - 1);
        if c > m {
            c
        } else {
            m
        }
    }
}

/// The discrete fill level of a bin count `c` under the tallest count `m`:
/// zero stays blank, anything else is the ceiling of `8 * c / m`.
pub open spec fn level(c: nat, m: nat) -> int {
    if c == 0 {
        0
    } else {
        (8 * c + m - 1) / (m as int)
    }
}

/// The fill characters, in increasing density.
pub open spec fn level_char(l: int) -> char {
    if l <= 0 {
        ' '
    } else if l == 1 {
        '.'
    } else if l == 2 {
        ':'
    } else if l == 3 {
        '-'
    } else if l == 4 {
        '='
    } else if l == 5 {
        '+'
    } else if l == 6 {
        '*'
    } else if l == 7 {
        '#'
    } else {
        '@'
    }
}

/// The histogram bar of one sample sequence over the shared range.
pub open spec fn bar_seq(s: Seq<u64>, lo: u64, hi: u64, bins: int) -> Seq<char> {
    Seq::new(
        bins as nat,
        |j: int|
            level_char(
                level(count_bin(s, lo, hi, bins, j), max_bin_upto(s, lo, hi, bins, bins)),
            ),
    )
}

/// A store with no samples draws an all-blank bar: every bin is empty.
pub proof fn lemma_empty_store_blank_bar(s: Seq<u64>, lo: u64, hi: u64, bins: int)
    requires
        s.len() == 0,
        bins >= 0,
    ensures
        forall|j: int| 0 <= j < bins ==> #[trigger] bar_seq(s, lo, hi, bins)[j] == ' ',
{
}

proof fn lemma_count_bin_all_same(s: Seq<u64>, v: u64, lo: u64, hi: u64, bins: int, j: int)
    requires
        forall|i: int| 0 <= i < s.len() ==> #[trigger] s[i] == v,
    ensures
        j == bin_of(v, lo, hi, bins) ==> count_bin(s, lo, hi, bins, j) == s.len(),
        j != bin_of(v, lo, hi, bins) ==> count_bin(s, lo, hi, bins, j) == 0,
    decreases s.len(),
{
    if s.len() > 0 {
        let d = s.drop_last();
        assert(forall|i: int| 0 <= i < d.len() ==> #[trigger] d[i] == s[i]);
        lemma_count_bin_all_same(d, v, lo, hi, bins, j);
        assert(s.last() == s[s.len() - 1]);
    }
}

/// A single-valued store puts all its mass into one bin and leaves every
/// other bin empty.
pub proof fn lemma_single_value_one_bin(s: Seq<u64>, v: u64, lo: u64, hi: u64, bins: int, j: int)
    requires
        forall|i: int| 0 <= i < s.len() ==> #[trigger] s[i] == v,
    ensures
        j == bin_of(v, lo, hi, bins) ==> count_bin(s, lo, hi, bins, j) == s.len(),
        j != bin_of(v, lo, hi, bins) ==> count_bin(s, lo, hi, bins, j) == 0,
{
    lemma_count_bin_all_same(s, v, lo, hi, bins, j);
}

proof fn lemma_count_bin_le_len(s: Seq<u64>, lo: u64, hi: u64, bins: int, j: int)
    ensures
        count_bin(s, lo, hi, bins, j) <= s.len(),
    decreases s.len(),
{
    if s.len() > 0 {
        lemma_count_bin_le_len(s.drop_last(), lo, hi, bins, j);
    }
}

/// Computes the shared bin of one sample.
fn bin_index(x: u64, lo: u64, hi: u64, bins: usize) -> (j: usize)
    requires
        lo <= x <= hi,
        1 <= bins,
    ensures
        j == bin_of(x, lo, hi, bins as int),
        j < bins,
{
    if lo == hi {
        return 0;
    }
    let range: u128 = (hi - lo) as u128 + 1;
    proof {
        assert((x - lo) as int * bins as int <= u128::MAX as int) by (nonlinear_arith)
            requires
                0 <= (x - lo) as int <= u64::MAX as int && 0 <= bins as int <= u64::MAX as int,
        ;
        assert(((x - lo) as int * bins as int) < ((hi - lo) as int + 1) * (bins as int))
            by (nonlinear_arith)
            requires
                ((x - lo) as int) < (hi - lo) as int + 1 && bins as int >= 1,
        ;
        vstd::arithmetic::div_mod::lemma_multiply_divide_lt(
            (x - lo) as int * bins as int,
            (hi - lo) as int + 1,
            bins as int,
        );
    }
    let j128: u128 = (x - lo) as u128 * bins as u128 / range;
    j128 as usize
}

/// Buckets a store's samples into the shared bins, counting occurrences.
pub fn bucket_counts(store: &SampleStore, lo: u64, hi: u64, bins: usize) -> (counts: Vec<usize>)
    requires
        1 <= bins,
        forall|i: int| 0 <= i < store@.len() ==> lo <= #[trigger] store@[i] <= hi,
    ensures
        counts@.len() == bins,
        forall|j: int|
            0 <= j < bins ==> #[trigger] counts@[j] == count_bin(store@, lo, hi, bins as int, j),
{
    let s = Ghost(store@);
    let mut counts: Vec<usize> = Vec::new();
    let mut j: usize = 0;
    while j < bins
        invariant
            j <= bins,
            counts@.len() == j,
            forall|t: int| 0 <= t < j ==> #[trigger] counts@[t] == 0,
        decreases bins - j,
    {
        counts.push(0);
        j = j + 1;
    }
    proof {
        assert(forall|t: int|
            0 <= t < bins ==> count_bin(s@.take(0), lo, hi, bins as int, t) == 0);
    }
    let n = store.len();
    let mut i: usize = 0;
    while i < n
        invariant
            n == s@.len(),
            s@ == store@,
            i <= n,
            1 <= bins,
            counts@.len() == bins,
            forall|t: int| 0 <= t < store@.len() ==> lo <= #[trigger] store@[t] <= hi,
            forall|t: int|
                0 <= t < bins ==> #[trigger] counts@[t] == count_bin(
                    s@.take(i as int),
                    lo,
                    hi,
                    bins as int,
                    t,
                ),
        decreases n - i,
    {
        let v = store.get(i);
        let j = bin_index(v, lo, hi, bins);
        proof {
            let t = s@.take(i as int + 1);
            assert(t.drop_last() =~= s@.take(i as int));
            assert(t.last() == s@[i as int]);
            lemma_count_bin_le_len(s@.take(i as int), lo, hi, bins as int, j as int);
        }
        let c = counts[j];
        counts[j] = c + 1;
        proof {
            assert(forall|t: int|
                0 <= t < bins ==> #[trigger] counts@[t] == count_bin(
                    s@.take(i as int + 1),
                    lo,
                    hi,
                    bins as int,
                    t,
                ));
        }
        i = i + 1;
    }
    proof {
        assert(s@.take(n as int) =~= s@);
    }
    counts
}

fn level_str(l: u64) -> (s: &'static str)
    requires
        l <= 8,
    ensures
        s@ == seq![level_char(l as int)],
{
    proof {
        reveal_strlit(" ");
        reveal_strlit(".");
        reveal_strlit(":");
        reveal_strlit("-");
        reveal_strlit("=");
        reveal_strlit("+");
        reveal_strlit("*");
        reveal_strlit("#");
        reveal_strlit("@");
    }
    let s = match l {
        0 => " ",
        1 => ".",
        2 => ":",
        3 => "-",
        4 => "=",
        5 => "+",
        6 => "*",
        7 => "#",
        _ => "@",
    };
    proof {
        assert(s@ =~= seq![level_char(l as int)]);
    }
    s
}

/// Draws one experiment's histogram bar over the shared range.
pub fn render_bar(store: &SampleStore, lo: u64, hi: u64, bins: usize) -> (s: String)
    requires
        1 <= bins,
        forall|i: int| 0 <= i < store@.len() ==> lo <= #[trigger] store@[i] <= hi,
    ensures
        s@ == bar_seq(store@, lo, hi, bins as int),
{
    let counts = bucket_counts(store, lo, hi, bins);
    let mut m: usize = 0;
    let mut k: usize = 0;
    while k < bins
        invariant
            k <= bins,
            counts@.len() == bins,
            m == max_bin_upto(store@, lo, hi, bins as int, k as int),
            forall|t: int|
                0 <= t < bins ==> #[trigger] counts@[t] == count_bin(
                    store@,
                    lo,
                    hi,
                    bins as int,
                    t,
                ),
        decreases bins - k,
    {
        if counts[k] > m {
            m = counts[k];
        }
        k = k + 1;
    }
    proof {
        assert(forall|t: int|
            0 <= t < bins ==> count_bin(store@, lo, hi, bins as int, t) <= max_bin_upto(
                store@,
                lo,
                hi,
                bins as int,
                bins as int,
            )) by {
            assert forall|t: int| 0 <= t < bins implies count_bin(
                store@,
                lo,
                hi,
                bins as int,
                t,
            ) <= max_bin_upto(store@, lo, hi, bins as int, bins as int) by {
                lemma_max_bin_ge(store@, lo, hi, bins as int, t, bins as int);
            }
        }
    }
    let mut s = String::new();
    let mut j: usize = 0;
    while j < bins
        invariant
            j <= bins,
            1 <= bins,
            counts@.len() == bins,
            m == max_bin_upto(store@, lo, hi, bins as int, bins as int),
            forall|t: int|
                0 <= t < bins ==> #[trigger] counts@[t] == count_bin(
                    store@,
                    lo,
                    hi,
                    bins as int,
                    t,
                ),
            forall|t: int|
                0 <= t < bins ==> count_bin(store@, lo, hi, bins as int, t) <= m,
            s@ == bar_seq(store@, lo, hi, bins as int).take(j as int),
        decreases bins - j,
    {
        let c = counts[j];
        let l: u64 = if c == 0 {
            0
        } else {
            proof {
                assert(8 * c as int + m as int - 1 <= u128::MAX as int) by (nonlinear_arith)
                    requires
                        0 <= c as int <= u64::MAX as int && 0 <= m as int <= u64::MAX as int,
                ;
                assert(8 * c as int + m as int - 1 <= 8 * m as int + m as int - 1)
                    by (nonlinear_arith)
                    requires
                        c as int <= m as int,
                ;
                lemma_div_is_ordered(
                    8 * c as int + m as int - 1,
                    9 * m as int - 1,
                    m as int,
                );
                lemma_div_multiples_vanish_fancy(8, m as int - 1, m as int);
                assert((9 * m as int - 1) == (m as int) * 8 + (m as int - 1));
                vstd::arithmetic::div_mod::lemma_div_pos_is_pos(
                    8 * c as int + m as int - 1,
                    m as int,
                );
            }
            let l128: u128 = (8 * c as u128 + m as u128 - 1) / (m as u128);
            l128 as u64
        };
        s.append(level_str(l));
        proof {
            assert(s@ =~= bar_seq(store@, lo, hi, bins as int).take(j as int + 1));
        }
        j = j + 1;
    }
    proof {
        assert(bar_seq(store@, lo, hi, bins as int).take(bins as int) =~= bar_seq(
            store@,
            lo,
            hi,
            bins as int,
        ));
    }
    s
}

proof fn lemma_max_bin_ge(s: Seq<u64>, lo: u64, hi: u64, bins: int, j: int, k: int)
    requires
        0 <= j < k,
    ensures
        count_bin(s, lo, hi, bins, j) <= max_bin_upto(s, lo, hi, bins, k),
    decreases k,
{
    if j < k - 1 {
        lemma_max_bin_ge(s, lo, hi, bins, j, k - 1);
    }
}

/// The least sample of one store, when there is one.
pub open spec fn store_min(e: Option<Experiment>, key: MeasureKey) -> Option<u64> {
    match e {
        Some(e) => {
            let s = e.measures.spec_get(key);
            if s.len() == 0 {
                None
            } else {
                Some(seq_min(s))
            }
        },
        None => None,
    }
}

/// The greatest sample of one store, when there is one.
pub open spec fn store_max(e: Option<Experiment>, key: MeasureKey) -> Option<u64> {
    match e {
        Some(e) => {
            let s = e.measures.spec_get(key);
            if s.len() == 0 {
                None
            } else {
                Some(seq_max(s))
            }
        },
        None => None,
    }
}

pub open spec fn opt_min(a: Option<u64>, b: Option<u64>) -> Option<u64> {
    match (a, b) {
        (Some(x), Some(y)) => if x <= y {
            Some(x)
        } else {
            Some(y)
        },
        (Some(x), None) => Some(x),
        (None, Some(y)) => Some(y),
        (None, None) => None,
    }
}

pub open spec fn opt_max(a: Option<u64>, b: Option<u64>) -> Option<u64> {
    match (a, b) {
        (Some(x), Some(y)) => if x >= y {
            Some(x)
        } else {
            Some(y)
        },
        (Some(x), None) => Some(x),
        (None, Some(y)) => Some(y),
        (None, None) => None,
    }
}

/// The least sample pooled over the first `i` experiments.
pub open spec fn pool_min_upto(
    m: ExperimentMap<Experiment>,
    key: MeasureKey,
    i: int,
) -> Option<u64>
    decreases i,
{
    if i <= 0 {
        None
    } else {
        opt_min(pool_min_upto(m, key, i - 1), store_min(m.spec_at(i - 1), key))
    }
}

/// The greatest sample pooled over the first `i` experiments.
pub open spec fn pool_max_upto(
    m: ExperimentMap<Experiment>,
    key: MeasureKey,
    i: int,
) -> Option<u64>
    decreases i,
{
    if i <= 0 {
        None
    } else {
        opt_max(pool_max_upto(m, key, i - 1), store_max(m.spec_at(i - 1), key))
    }
}

/// The shared range: the pooled extrema, or zero when no samples exist.
pub open spec fn plot_lo(m: ExperimentMap<Experiment>, key: MeasureKey) -> u64 {
    match pool_min_upto(m, key, 5) {
        Some(v) => v,
        None => 0,
    }
}

pub open spec fn plot_hi(m: ExperimentMap<Experiment>, key: MeasureKey) -> u64 {
    match pool_max_upto(m, key, 5) {
        Some(v) => v,
        None => 0,
    }
}

/// Every sample of a present experiment lies within the pooled extrema.
pub proof fn lemma_pool_bounds(m: ExperimentMap<Experiment>, key: MeasureKey, j: int, i: int)
    requires
        0 <= j < i,
        m.spec_at(j) is Some,
    ensures
        forall|t: int|
            0 <= t < m.spec_at(j)->Some_0.measures.spec_get(key).len() ==> {
                &&& pool_min_upto(m, key, i) is Some
                &&& pool_max_upto(m, key, i) is Some
                &&& pool_min_upto(m, key, i)->Some_0 <= #[trigger] m.spec_at(
                    j,
                )->Some_0.measures.spec_get(key)[t] <= pool_max_upto(m, key, i)->Some_0
            },
    decreases i,
{
    let s = m.spec_at(j)->Some_0.measures.spec_get(key);
    if s.len() > 0 {
        lemma_min_max_in_range(s);
        if j == i - 1 {
        } else {
            lemma_pool_bounds(m, key, j, i - 1);
        }
    }
}

/// One rendered histogram row: the bar, a space, and the label.
pub open spec fn plot_row(
    m: ExperimentMap<Experiment>,
    key: MeasureKey,
    bins: int,
    i: int,
) -> Seq<char> {
    bar_seq(m.spec_at(i)->Some_0.measures.spec_get(key), plot_lo(m, key), plot_hi(m, key), bins)
        + " "@ + name_label(i)
}

/// The label of the experiment at one position of the name order.
pub open spec fn name_label(i: int) -> Seq<char> {
    crate::experiment_map::name_of_index(i).spec_label()
}

/// Renders one histogram row per experiment for one metric, on a shared
/// bin scale: `width` is the total row width, of which two characters are
/// the separator and the label. An experiment with no samples gets an
/// all-blank row; a shared degenerate range collapses to a single bin.
pub fn make_distr_plots(
    tests: &ExperimentMap<Experiment>,
    width: usize,
    key: MeasureKey,
) -> (r: ExperimentMap<String>)
    requires
        tests.wf(),
        3 <= width,
    ensures
        r.wf(),
        forall|i: int| 0 <= i < 5 ==> (r.spec_at(i) is Some <==> tests.spec_at(i) is Some),
        forall|i: int|
            0 <= i < 5 && tests.spec_at(i) is Some ==> #[trigger] r.spec_at(i)->Some_0@
                == plot_row(*tests, key, width - 2, i),
{
    let bins = width - 2;
    // the shared range, pooled over every present experiment's store
    let mut lo_opt: Option<u64> = None;
    let mut hi_opt: Option<u64> = None;
    let mut i: usize = 0;
    while i < 5
        invariant
            tests.wf(),
            i <= 5,
            lo_opt == pool_min_upto(*tests, key, i as int),
            hi_opt == pool_max_upto(*tests, key, i as int),
        decreases 5 - i,
    {
        match tests.get_at(i) {
            Some(e) => {
                let store = e.measures.get(key);
                let n = store.len();
                if n > 0 {
                    let mut mn = store.get(0);
                    let mut mx = mn;
                    let mut t: usize = 1;
                    proof {
                        assert(store@.take(1).len() == 1);
                        assert(store@.take(1)[0] == store@[0]);
                    }
                    while t < n
                        invariant
                            n == store@.len(),
                            1 <= t <= n,
                            mn == seq_min(store@.take(t as int)),
                            mx == seq_max(store@.take(t as int)),
                        decreases n - t,
                    {
                        let v = store.get(t);
                        proof {
                            let tk = store@.take(t as int + 1);
                            assert(tk.drop_last() =~= store@.take(t as int));
                            assert(tk.last() == store@[t as int]);
                        }
                        if v < mn {
                            mn = v;
                        }
                        if v > mx {
                            mx = v;
                        }
                        t = t + 1;
                    }
                    proof {
                        assert(store@.take(n as int) =~= store@);
                    }
                    lo_opt = match lo_opt {
                        Some(x) => if x <= mn {
                            Some(x)
                        } else {
                            Some(mn)
                        },
                        None => Some(mn),
                    };
                    hi_opt = match hi_opt {
                        Some(x) => if x >= mx {
                            Some(x)
                        } else {
                            Some(mx)
                        },
                        None => Some(mx),
                    };
                }
            },
            None => {},
        }
        i = i + 1;
    }
    let lo: u64 = match lo_opt {
        Some(v) => v,
        None => 0,
    };
    let hi: u64 = match hi_opt {
        Some(v) => v,
        None => 0,
    };

    let mut r: ExperimentMap<String> = ExperimentMap::new();
    let mut i: usize = 0;
    while i < 5
        invariant
            tests.wf(),
            r.wf(),
            i <= 5,
            3 <= width,
            bins == width - 2,
            lo == plot_lo(*tests, key),
            hi == plot_hi(*tests, key),
            forall|j: int| 0 <= j < 5 ==> (r.spec_at(j) is Some ==> j < i),
            forall|j: int|
                0 <= j < i ==> (r.spec_at(j) is Some <==> tests.spec_at(j) is Some),
            forall|j: int|
                0 <= j < i && tests.spec_at(j) is Some ==> #[trigger] r.spec_at(j)->Some_0@
                    == plot_row(*tests, key, bins as int, j),
        decreases 5 - i,
    {
        match tests.get_at(i) {
            Some(e) => {
                let store = e.measures.get(key);
                proof {
                    lemma_pool_bounds(*tests, key, i as int, 5);
                }
                let mut row = render_bar(store, lo, hi, bins);
                row.append(" ");
                let n = ExperimentName::from_index(i);
                row.append(n.label());
                proof {
                    crate::experiment_map::lemma_name_of_index(i as int);
                    crate::experiment_map::lemma_name_index_injective(
                        crate::experiment_map::name_of_index(i as int),
                        n,
                    );
                    assert(row@ =~= plot_row(*tests, key, bins as int, i as int));
                }
                r.insert(n, row);
                proof {
                    assert(n.spec_index() == i as int);
                }
            },
            None => {},
        }
        i = i + 1;
    }
    r
}

} // verus!
