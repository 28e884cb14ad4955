//! The Report Renderer: composes one metric's statistics table, the
//! comparison marks, and (optionally) the distribution plot into a text
//! block, and aggregates the blocks of every active metric.
//!
//! Full mode and short mode are the same block with and without the plot
//! section, derived from the same summaries, so the numbers of the two
//! modes can never disagree.

use vstd::prelude::*;

use crate::AbshError;
use crate::distr_plot::{make_distr_plots, plot_row};
use crate::experiment::Experiment;
use crate::experiment_map::{name_of_index, ExperimentMap};
use crate::experiment_name::ExperimentName;
use crate::display::{dec_seq, u64_dec};
use crate::measure::{display_value, measure_id, measure_name, spec_display_value,
    spec_measure_id, spec_measure_name};
use crate::measure_key::MeasureKey;
use crate::stats::{compare_stats, spec_best, spec_overlaps, spec_stats, stats_of, Stats};
use vstd::string::StringExecFns;

verus! {

/// The plot width handed to the Distribution Plotter by the aggregator.
pub const DEFAULT_WIDTH: usize = 80;

/// One table row: the experiment's label, its sample count, and its
/// summary fields, each shown through the metric's display transform.
pub open spec fn stats_row(key: MeasureKey, name: ExperimentName, st: Stats) -> Seq<char> {
    name.spec_label() + ": n="@ + dec_seq(st.count as nat) + " mean="@ + spec_display_value(
        key,
        st.mean,
    ) + " std="@ + spec_display_value(key, st.stddev) + " ci=["@ + spec_display_value(
        key,
        st.ci_low,
    ) + " "@ + spec_display_value(key, st.ci_high) + "] min="@ + spec_display_value(key, st.min)
        + " max="@ + spec_display_value(key, st.max) + "\n"@
}

/// The summaries of the present experiments, in display order. Meaningful
/// when every present experiment has at least two samples.
pub open spec fn stats_entries(m: ExperimentMap<Experiment>, key: MeasureKey, i: int) -> Seq<
    (ExperimentName, Stats),
>
    decreases i,
{
    if i <= 0 {
        Seq::empty()
    } else {
        stats_entries(m, key, i - 1) + match m.spec_at(i - 1) {
            Some(e) => seq![
                (name_of_index(i - 1), spec_stats(e.measures.spec_get(key))),
            ],
            None => Seq::empty(),
        }
    }
}

/// Every present experiment has at least two samples for the metric.
pub open spec fn all_ge2(m: ExperimentMap<Experiment>, key: MeasureKey) -> bool {
    forall|i: int|
        0 <= i < 5 && m.spec_at(i) is Some ==> #[trigger] m.spec_at(
            i,
        )->Some_0.measures.spec_get(key).len() >= 2
}

/// The table rows of the first `i` entries.
pub open spec fn rows_upto(key: MeasureKey, l: Seq<(ExperimentName, Stats)>, i: int) -> Seq<char>
    decreases i,
{
    if i <= 0 {
        Seq::empty()
    } else {
        rows_upto(key, l, i - 1) + stats_row(key, l[i - 1].0, l[i - 1].1)
    }
}

/// The mark of the best experiment, where one is named.
pub open spec fn best_line(best: Option<ExperimentName>) -> Seq<char> {
    match best {
        Some(n) => "best: "@ + n.spec_label() + "\n"@,
        None => Seq::empty(),
    }
}

/// The marks of the first `i` pairs whose intervals overlap.
pub open spec fn overlap_lines(pairs: Seq<(ExperimentName, ExperimentName)>, i: int) -> Seq<char>
    decreases i,
{
    if i <= 0 {
        Seq::empty()
    } else {
        overlap_lines(pairs, i - 1) + pairs[i - 1].0.spec_label() + " and "@ + pairs[i
            - 1].1.spec_label() + " are not distinguishable\n"@
    }
}

/// The plot rows of the first `i` experiments, one line each.
pub open spec fn plot_lines(
    m: ExperimentMap<Experiment>,
    key: MeasureKey,
    bins: int,
    i: int,
) -> Seq<char>
    decreases i,
{
    if i <= 0 {
        Seq::empty()
    } else {
        plot_lines(m, key, bins, i - 1) + if m.spec_at(i - 1) is Some {
            plot_row(m, key, bins, i - 1) + "\n"@
        } else {
            Seq::empty()
        }
    }
}

/// The statistics part of one metric's block: header, table, marks.
pub open spec fn spec_stats_block(m: ExperimentMap<Experiment>, key: MeasureKey) -> Seq<char> {
    let l = stats_entries(m, key, 5);
    spec_measure_name(key) + ":\n"@ + rows_upto(key, l, l.len() as int) + best_line(
        spec_best(l, key),
    ) + overlap_lines(spec_overlaps(l, l.len() as int), spec_overlaps(l, l.len() as int).len() as int)
}

/// One metric's whole block; the plot section follows the statistics.
pub open spec fn spec_render_measure(
    m: ExperimentMap<Experiment>,
    key: MeasureKey,
    include_distr: bool,
    width: int,
) -> Seq<char> {
    spec_stats_block(m, key) + if include_distr {
        plot_lines(m, key, width - 2, 5)
    } else {
        Seq::empty()
    }
}

/// Full mode and short mode agree on every statistic: the full block is
/// the short block with the plot lines appended, so the numbers shown are
/// the same text in both.
pub proof fn lemma_full_short_agree(m: ExperimentMap<Experiment>, key: MeasureKey, width: int)
    ensures
        spec_render_measure(m, key, true, width) == spec_render_measure(m, key, false, width)
            + plot_lines(m, key, width - 2, 5),
{
    assert(spec_render_measure(m, key, false, width) =~= spec_stats_block(m, key));
    assert(spec_render_measure(m, key, true, width) =~= spec_render_measure(m, key, false, width)
        + plot_lines(m, key, width - 2, 5));
}

/// Builds one table row.
fn stats_row_string(key: MeasureKey, name: ExperimentName, st: Stats) -> (s: String)
    ensures
        s@ == stats_row(key, name, st),
{
    let mut s = String::from_str(name.label());
    s.append(": n=");
    let d = u64_dec(st.count);
    s.append(d.as_str());
    s.append(" mean=");
    let d = display_value(key, st.mean);
    s.append(d.as_str());
    s.append(" std=");
    let d = display_value(key, st.stddev);
    s.append(d.as_str());
    s.append(" ci=[");
    let d = display_value(key, st.ci_low);
    s.append(d.as_str());
    s.append(" ");
    let d = display_value(key, st.ci_high);
    s.append(d.as_str());
    s.append("] min=");
    let d = display_value(key, st.min);
    s.append(d.as_str());
    s.append(" max=");
    let d = display_value(key, st.max);
    s.append(d.as_str());
    s.append("\n");
    proof {
        assert(s@ =~= stats_row(key, name, st));
    }
    s
}

/// Collects the per-experiment summaries for one metric, failing exactly
/// when a present experiment has fewer than two samples.
pub fn collect_stats(tests: &ExperimentMap<Experiment>, key: MeasureKey) -> (r: Result<
    Vec<(ExperimentName, Stats)>,
    AbshError,
>)
    requires
        tests.wf(),
    ensures
        r is Ok <==> all_ge2(*tests, key),
        r is Ok ==> r->Ok_0@ == stats_entries(*tests, key, 5),
        r is Err ==> r->Err_0 == AbshError::InsufficientData,
{
    let mut l: Vec<(ExperimentName, Stats)> = Vec::new();
    let mut i: usize = 0;
    while i < 5
        invariant
            tests.wf(),
            i <= 5,
            l@ == stats_entries(*tests, key, i as int),
            forall|j: int|
                0 <= j < i && tests.spec_at(j) is Some ==> #[trigger] tests.spec_at(
                    j,
                )->Some_0.measures.spec_get(key).len() >= 2,
        decreases 5 - i,
    {
        match tests.get_at(i) {
            Some(e) => {
                let store = e.measures.get(key);
                match stats_of(store) {
                    Ok(st) => {
                        let n = ExperimentName::from_index(i);
                        proof {
                            crate::experiment_map::lemma_name_of_index(i as int);
                            crate::experiment_map::lemma_name_index_injective(
                                name_of_index(i as int),
                                n,
                            );
                        }
                        l.push((n, st));
                    },
                    Err(e) => {
                        return Err(e);
                    },
                }
            },
            None => {},
        }
        proof {
            assert(l@ =~= stats_entries(*tests, key, i as int + 1));
        }
        i = i + 1;
    }
    Ok(l)
}

/// Renders one metric's report block: the comparison table, the best and
/// not-distinguishable marks, and in full mode the distribution plot.
/// Fails exactly when a present experiment has fewer than two samples.
pub fn render_measure(
    tests: &ExperimentMap<Experiment>,
    key: MeasureKey,
    include_distr: bool,
    width: usize,
) -> (r: Result<String, AbshError>)
    requires
        tests.wf(),
        3 <= width,
    ensures
        r is Ok <==> all_ge2(*tests, key),
        r is Ok ==> r->Ok_0@ == spec_render_measure(*tests, key, include_distr, width as int),
        r is Err ==> r->Err_0 == AbshError::InsufficientData,
{
    let l = match collect_stats(tests, key) {
        Ok(l) => l,
        Err(e) => {
            return Err(e);
        },
    };
    let mut s = String::from_str(measure_name(key));
    s.append(":\n");

    // the table, one row per experiment in display order
    let n = l.len();
    let mut i: usize = 0;
    while i < n
        invariant
            n == l@.len(),
            i <= n,
            l@ == stats_entries(*tests, key, 5),
            s@ == spec_measure_name(key) + ":\n"@ + rows_upto(key, l@, i as int),
        decreases n - i,
    {
        let (name, st) = l[i];
        let row = stats_row_string(key, name, st);
        s.append(row.as_str());
        proof {
            assert(s@ =~= spec_measure_name(key) + ":\n"@ + rows_upto(key, l@, i as int + 1));
        }
        i = i + 1;
    }

    // the comparison marks
    let c = compare_stats(&l, key);
    match &c.best {
        Some(b) => {
            s.append("best: ");
            s.append(b.label());
            s.append("\n");
        },
        None => {},
    }
    proof {
        assert(s@ =~= spec_measure_name(key) + ":\n"@ + rows_upto(key, l@, l@.len() as int)
            + best_line(spec_best(l@, key)));
    }
    let g = Ghost(s@);
    let m = c.overlaps.len();
    let mut i: usize = 0;
    while i < m
        invariant
            m == c.overlaps@.len(),
            i <= m,
            s@ == g@ + overlap_lines(c.overlaps@, i as int),
        decreases m - i,
    {
        let (a, b) = c.overlaps[i];
        s.append(a.label());
        s.append(" and ");
        s.append(b.label());
        s.append(" are not distinguishable\n");
        proof {
            assert(s@ =~= g@ + overlap_lines(c.overlaps@, i as int + 1));
        }
        i = i + 1;
    }
    proof {
        assert(s@ =~= spec_stats_block(*tests, key));
    }

    // the plot section, in full mode only
    if include_distr {
        let g2 = Ghost(s@);
        let plots = make_distr_plots(tests, width, key);
        let mut i: usize = 0;
        while i < 5
            invariant
                tests.wf(),
                plots.wf(),
                i <= 5,
                3 <= width,
                forall|j: int|
                    0 <= j < 5 ==> (plots.spec_at(j) is Some <==> tests.spec_at(j) is Some),
                forall|j: int|
                    0 <= j < 5 && tests.spec_at(j) is Some ==> #[trigger] plots.spec_at(
                        j,
                    )->Some_0@ == plot_row(*tests, key, width - 2, j),
                s@ == g2@ + plot_lines(*tests, key, width as int - 2, i as int),
            decreases 5 - i,
        {
            match plots.get_at(i) {
                Some(row) => {
                    proof {
                        assert(plots.spec_at(i as int)->Some_0@ == plot_row(
                            *tests,
                            key,
                            width - 2,
                            i as int,
                        ));
                    }
                    s.append(row.as_str());
                    s.append("\n");
                },
                None => {},
            }
            proof {
                assert(s@ =~= g2@ + plot_lines(*tests, key, width as int - 2, i as int + 1));
            }
            i = i + 1;
        }
    }
    proof {
        assert(s@ =~= spec_render_measure(*tests, key, include_distr, width as int));
    }
    Ok(s)
}

/// The ordered list of active metrics, aggregating their report blocks.
pub struct AllMeasures(pub Vec<MeasureKey>);

/// The blocks of the first `i` active metrics, blank-line separated.
pub open spec fn spec_render_all(
    m: ExperimentMap<Experiment>,
    keys: Seq<MeasureKey>,
    include_distr: bool,
    width: int,
    i: int,
) -> Seq<char>
    decreases i,
{
    if i <= 0 {
        Seq::empty()
    } else if i == 1 {
        spec_render_measure(m, keys[0], include_distr, width)
    } else {
        spec_render_all(m, keys, include_distr, width, i - 1) + "\n"@ + spec_render_measure(
            m,
            keys[i - 1],
            include_distr,
            width,
        )
    }
}

/// The raw-data lines of one store: one sample per line, in append order.
pub open spec fn raw_store_lines(s: Seq<u64>) -> Seq<char>
    decreases s.len(),
{
    if s.len() == 0 {
        Seq::empty()
    } else {
        raw_store_lines(s.drop_last()) + dec_seq(s.last() as nat) + "\n"@
    }
}

/// The raw-data lines of one metric over the first `i` experiments, in
/// display order.
pub open spec fn raw_measure_lines(
    m: ExperimentMap<Experiment>,
    key: MeasureKey,
    i: int,
) -> Seq<char>
    decreases i,
{
    if i <= 0 {
        Seq::empty()
    } else {
        raw_measure_lines(m, key, i - 1) + match m.spec_at(i - 1) {
            Some(e) => raw_store_lines(e.measures.spec_get(key)),
            None => Seq::empty(),
        }
    }
}

/// The raw samples of one metric, tagged with the metric's stable id.
pub struct RawFile {
    pub id: String,
    pub content: String,
}

impl AllMeasures {
    /// Renders the blocks of every active metric, in activation order,
    /// separated by a blank line. Fails exactly when some present
    /// experiment has fewer than two samples for some active metric.
    pub fn render_stats(&self, tests: &ExperimentMap<Experiment>, include_distr: bool) -> (r:
        Result<String, AbshError>)
        requires
            tests.wf(),
        ensures
            r is Ok <==> (forall|j: int|
                0 <= j < self.0@.len() ==> all_ge2(*tests, #[trigger] self.0@[j])),
            r is Ok ==> r->Ok_0@ == spec_render_all(
                *tests,
                self.0@,
                include_distr,
                DEFAULT_WIDTH as int,
                self.0@.len() as int,
            ),
            r is Err ==> r->Err_0 == AbshError::InsufficientData,
    {
        let mut s = String::new();
        let n = self.0.len();
        let mut i: usize = 0;
        while i < n
            invariant
                tests.wf(),
                n == self.0@.len(),
                i <= n,
                s@ == spec_render_all(
                    *tests,
                    self.0@,
                    include_distr,
                    DEFAULT_WIDTH as int,
                    i as int,
                ),
                forall|j: int| 0 <= j < i ==> all_ge2(*tests, #[trigger] self.0@[j]),
            decreases n - i,
        {
            let block = match render_measure(tests, self.0[i], include_distr, DEFAULT_WIDTH) {
                Ok(b) => b,
                Err(e) => {
                    return Err(e);
                },
            };
            if i != 0 {
                s.append("\n");
            }
            s.append(block.as_str());
            proof {
                assert(s@ =~= spec_render_all(
                    *tests,
                    self.0@,
                    include_distr,
                    DEFAULT_WIDTH as int,
                    i as int + 1,
                ));
            }
            i = i + 1;
        }
        Ok(s)
    }

    /// The raw sample lines of every active metric, tagged by its id, for
    /// the run log: the persisted record external tooling reads.
    pub fn write_raw(&self, tests: &ExperimentMap<Experiment>) -> (r: Vec<RawFile>)
        requires
            tests.wf(),
        ensures
            r@.len() == self.0@.len(),
            forall|j: int|
                0 <= j < r@.len() ==> (#[trigger] r@[j]).id@ == spec_measure_id(self.0@[j])
                    && r@[j].content@ == raw_measure_lines(*tests, self.0@[j], 5),
    {
        let mut r: Vec<RawFile> = Vec::new();
        let n = self.0.len();
        let mut i: usize = 0;
        while i < n
            invariant
                tests.wf(),
                n == self.0@.len(),
                i <= n,
                r@.len() == i,
                forall|j: int|
                    0 <= j < i ==> (#[trigger] r@[j]).id@ == spec_measure_id(self.0@[j])
                        && r@[j].content@ == raw_measure_lines(*tests, self.0@[j], 5),
            decreases n - i,
        {
            let key = self.0[i];
            let mut content = String::new();
            let mut e: usize = 0;
            while e < 5
                invariant
                    tests.wf(),
                    e <= 5,
                    content@ == raw_measure_lines(*tests, key, e as int),
                decreases 5 - e,
            {
                match tests.get_at(e) {
                    Some(exp) => {
                        let store = exp.measures.get(key);
                        let cnt = store.len();
                        let g = Ghost(content@);
                        let mut t: usize = 0;
                        while t < cnt
                            invariant
                                cnt == store@.len(),
                                t <= cnt,
                                content@ == g@ + raw_store_lines(store@.take(t as int)),
                            decreases cnt - t,
                        {
                            let v = store.get(t);
                            let d = u64_dec(v);
                            content.append(d.as_str());
                            content.append("\n");
                            proof {
                                let tk = store@.take(t as int + 1);
                                assert(tk.drop_last() =~= store@.take(t as int));
                                assert(tk.last() == store@[t as int]);
                                assert(content@ =~= g@ + raw_store_lines(
                                    store@.take(t as int + 1),
                                ));
                            }
                            t = t + 1;
                        }
                        proof {
                            assert(store@.take(cnt as int) =~= store@);
                            assert(content@ =~= raw_measure_lines(*tests, key, e as int + 1));
                        }
                    },
                    None => {
                        proof {
                            assert(content@ =~= raw_measure_lines(*tests, key, e as int + 1));
                        }
                    },
                }
                e = e + 1;
            }
            let id = String::from_str(measure_id(key));
            r.push(RawFile { id, content });
            i = i + 1;
        }
        r
    }
}

} // verus!
