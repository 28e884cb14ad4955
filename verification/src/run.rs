//! The decisions of the run loop, as functions from plain values: what a
//! finished round appends, in which order the experiments run, how many
//! rounds count as completed, and what happens after each round. The loop
//! itself — spawning commands, waiting, logging — lives outside the
//! library and hands these functions the values they decide on.

use vstd::prelude::*;

use rand::prelude::SliceRandom;

use crate::AbshError;
use crate::experiment::Experiment;
use crate::experiment_map::ExperimentMap;
use crate::experiment_name::ExperimentName;
use crate::measure_key::MeasureKey;

verus! {

/// A whitespace byte, as trimming sees it.
pub open spec fn is_ws(b: u8) -> bool {
    b == 32 || b == 9 || b == 10 || b == 13
}

/// How many whitespace bytes the sequence starts with.
pub open spec fn lead_ws(s: Seq<u8>) -> nat
    decreases s.len(),
{
    if s.len() > 0 && is_ws(s[0]) {
        1 + lead_ws(s.drop_first())
    } else {
        0
    }
}

/// How many whitespace bytes the sequence ends with.
pub open spec fn trail_ws(s: Seq<u8>) -> nat
    decreases s.len(),
{
    if s.len() > 0 && is_ws(s.last()) {
        1 + trail_ws(s.drop_last())
    } else {
        0
    }
}

/// The sequence with leading and trailing whitespace removed.
pub open spec fn spec_trim(s: Seq<u8>) -> Seq<u8> {
    if lead_ws(s) == s.len() {
        Seq::empty()
    } else {
        s.subrange(lead_ws(s) as int, s.len() - trail_ws(s))
    }
}

pub open spec fn is_digit(b: u8) -> bool {
    48 <= b <= 57
}

pub open spec fn all_digits(t: Seq<u8>) -> bool {
    forall|i: int| 0 <= i < t.len() ==> is_digit(#[trigger] t[i])
}

/// The number the digit bytes spell, most significant first.
pub open spec fn dec_value(t: Seq<u8>) -> int
    decreases t.len(),
{
    if t.len() == 0 {
        0
    } else {
        dec_value(t.drop_last()) * 10 + (t.last() - 48)
    }
}

/// The digits of a rendering that may start with one plus sign.
pub open spec fn digits_part(t: Seq<u8>) -> Seq<u8> {
    if t.len() > 0 && t[0] == 43 {
        t.drop_first()
    } else {
        t
    }
}

/// What parsing a trimmed rendering of a non-negative integer yields:
/// the spelled value when it is all digits (after one optional plus sign)
/// and fits the sample type, nothing otherwise.
pub open spec fn spec_parse_u64(t: Seq<u8>) -> Option<u64> {
    let d = digits_part(t);
    if d.len() == 0 || !all_digits(d) || dec_value(d) > u64::MAX as int {
        None
    } else {
        Some(dec_value(d) as u64)
    }
}

proof fn lemma_dec_value_nonneg(t: Seq<u8>)
    requires
        all_digits(t),
    ensures
        dec_value(t) >= 0,
    decreases t.len(),
{
    if t.len() > 0 {
        let d = t.drop_last();
        assert(forall|i: int| 0 <= i < d.len() ==> #[trigger] d[i] == t[i]);
        lemma_dec_value_nonneg(d);
        assert(dec_value(d) * 10 >= 0) by (nonlinear_arith)
            requires
                dec_value(d) >= 0,
        ;
        assert(t.last() == t[t.len() - 1]);
    }
}

/// The spelled value never shrinks as digits are appended.
proof fn lemma_dec_value_monotone(t: Seq<u8>, i: int, j: int)
    requires
        all_digits(t),
        0 <= i <= j <= t.len(),
    ensures
        dec_value(t.take(i)) <= dec_value(t.take(j)),
    decreases j - i,
{
    if i < j {
        lemma_dec_value_monotone(t, i, j - 1);
        let p = t.take(j - 1);
        let q = t.take(j);
        assert(q.drop_last() =~= p);
        assert(forall|k: int| 0 <= k < p.len() ==> #[trigger] p[k] == t[k]);
        assert(all_digits(p));
        lemma_dec_value_nonneg(p);
        assert(q.last() == t[j - 1]);
        assert(dec_value(q) == dec_value(p) * 10 + (t[j - 1] - 48));
        assert(dec_value(p) * 10 >= dec_value(p)) by (nonlinear_arith)
            requires
                dec_value(p) >= 0,
        ;
    }
}

proof fn lemma_lead_ws_at(s: Seq<u8>, k: int)
    requires
        0 <= k <= s.len(),
        forall|i: int| 0 <= i < k ==> is_ws(#[trigger] s[i]),
        k == s.len() || !is_ws(s[k]),
    ensures
        lead_ws(s) == k,
    decreases k,
{
    if k > 0 {
        let d = s.drop_first();
        assert(forall|i: int| 0 <= i < d.len() ==> #[trigger] d[i] == s[i + 1]);
        lemma_lead_ws_at(d, k - 1);
    }
}

proof fn lemma_trail_ws_at(s: Seq<u8>, k: int)
    requires
        0 <= k <= s.len(),
        forall|i: int| s.len() - k <= i < s.len() ==> is_ws(#[trigger] s[i]),
        k == s.len() || !is_ws(s[s.len() - k - 1]),
    ensures
        trail_ws(s) == k,
    decreases k,
{
    if k > 0 {
        assert(s.last() == s[s.len() - 1]);
        let d = s.drop_last();
        assert(forall|i: int| 0 <= i < d.len() ==> #[trigger] d[i] == s[i]);
        lemma_trail_ws_at(d, k - 1);
    }
}

fn ws_at(bytes: &Vec<u8>, i: usize) -> (b: bool)
    requires
        i < bytes@.len(),
    ensures
        b == is_ws(bytes@[i as int]),
{
    let c = bytes[i];
    c == 32 || c == 9 || c == 10 || c == 13
}

/// Parses the trimmed output of the user-defined metric command as a
/// non-negative integer, exactly as the run loop reads it.
pub fn parse_metric(bytes: &Vec<u8>) -> (r: Option<u64>)
    ensures
        r == spec_parse_u64(spec_trim(bytes@)),
{
    let n = bytes.len();
    // leading whitespace
    let mut start: usize = 0;
    while start < n && ws_at(bytes, start)
        invariant
            n == bytes@.len(),
            start <= n,
            forall|i: int| 0 <= i < start ==> is_ws(#[trigger] bytes@[i]),
        decreases n - start,
    {
        start = start + 1;
    }
    proof {
        lemma_lead_ws_at(bytes@, start as int);
    }
    if start == n {
        return None;
    }
    // trailing whitespace
    let mut end: usize = n;
    while end > start && ws_at(bytes, end - 1)
        invariant
            n == bytes@.len(),
            start <= end <= n,
            start < n,
            !is_ws(bytes@[start as int]),
            forall|i: int| end <= i < n ==> is_ws(#[trigger] bytes@[i]),
        decreases end,
    {
        end = end - 1;
    }
    proof {
        assert(end > start) by {
            if end == start {
                assert(is_ws(bytes@[start as int]));
            }
        }
        lemma_trail_ws_at(bytes@, n - end);
    }
    let t = Ghost(spec_trim(bytes@));
    proof {
        assert(t@ =~= bytes@.subrange(start as int, end as int));
    }
    // one optional plus sign
    let mut pos: usize = start;
    if bytes[pos] == 43 {
        pos = pos + 1;
    }
    let d = Ghost(digits_part(t@));
    proof {
        assert(d@ =~= bytes@.subrange(pos as int, end as int));
    }
    if pos == end {
        return None;
    }
    // the digits, most significant first, through a wider accumulator
    let mut acc: u64 = 0;
    let mut i: usize = pos;
    while i < end
        invariant
            n == bytes@.len(),
            pos <= i <= end <= n,
            d@ == bytes@.subrange(pos as int, end as int),
            d@ == digits_part(spec_trim(bytes@)),
            all_digits(d@.take(i - pos)),
            acc as int == dec_value(d@.take(i - pos)),
        decreases end - i,
    {
        let b = bytes[i];
        if b < 48 || b > 57 {
            proof {
                assert(d@[i - pos] == bytes@[i as int]);
                assert(!all_digits(d@));
            }
            return None;
        }
        let next: u128 = (acc as u128) * 10 + ((b - 48) as u128);
        proof {
            let p = d@.take(i - pos);
            let q = d@.take(i - pos + 1);
            assert(q.drop_last() =~= p);
            assert(q.last() == bytes@[i as int]);
            assert(all_digits(q));
        }
        if next > u64::MAX as u128 {
            proof {
                if all_digits(d@) {
                    lemma_dec_value_monotone(d@, i - pos + 1, d@.len() as int);
                    assert(d@.take(d@.len() as int) =~= d@);
                }
            }
            return None;
        }
        acc = next as u64;
        i = i + 1;
    }
    proof {
        assert(d@.take(d@.len() as int) =~= d@);
        assert(d@.take(i - pos) =~= d@);
    }
    Some(acc)
}

/// What the user-defined metric command handed back: its exit state and
/// what it printed.
pub struct MetricOutput {
    pub exit_ok: bool,
    pub stdout: Vec<u8>,
}

/// How the experiment `e` and the result `r` follow from recording one
/// round over the prior state `o`: a failed warmup or run appends nothing
/// and names the failure; a zero peak-memory reading is refused rather
/// than recorded; a successful run appends the elapsed nanoseconds and
/// the peak memory, then the parsed user metric when one was requested.
pub open spec fn spec_recorded(
    o: Experiment,
    e: Experiment,
    r: Result<(), AbshError>,
    warmup_ok: bool,
    run_ok: bool,
    duration_ns: u64,
    max_rss_bytes: u64,
    metric_output: Option<MetricOutput>,
) -> bool {
    &&& e.name == o.name
    &&& e.warmup == o.warmup
    &&& e.run == o.run
    &&& if !warmup_ok {
        r == Err::<(), AbshError>(AbshError::WarmupFailed) && e == o
    } else if !run_ok {
        r == Err::<(), AbshError>(AbshError::RunFailed) && e == o
    } else if max_rss_bytes == 0 {
        r == Err::<(), AbshError>(AbshError::ResourceUnavailable) && e == o
    } else {
        &&& e.measures.spec_get(MeasureKey::WallTime) == o.measures.spec_get(
            MeasureKey::WallTime,
        ).push(duration_ns)
        &&& e.measures.spec_get(MeasureKey::MaxRss) == o.measures.spec_get(
            MeasureKey::MaxRss,
        ).push(max_rss_bytes)
        &&& match metric_output {
            None => r is Ok && e.measures.spec_get(MeasureKey::UserDefinedMetric)
                == o.measures.spec_get(MeasureKey::UserDefinedMetric),
            Some(mo) => {
                if mo.exit_ok && spec_parse_u64(spec_trim(mo.stdout@)) is Some {
                    &&& r is Ok
                    &&& e.measures.spec_get(MeasureKey::UserDefinedMetric)
                        == o.measures.spec_get(MeasureKey::UserDefinedMetric).push(
                        spec_parse_u64(spec_trim(mo.stdout@))->Some_0,
                    )
                } else {
                    &&& r == Err::<(), AbshError>(AbshError::MetricSourceFailed)
                    &&& e.measures.spec_get(MeasureKey::UserDefinedMetric)
                        == o.measures.spec_get(MeasureKey::UserDefinedMetric)
                }
            },
        }
    }
}

/// Records one finished round of one experiment.
pub fn record_run_samples(
    exp: &mut Experiment,
    warmup_ok: bool,
    run_ok: bool,
    duration_ns: u64,
    max_rss_bytes: u64,
    metric_output: Option<MetricOutput>,
) -> (r: Result<(), AbshError>)
    ensures
        spec_recorded(
            *old(exp),
            *final(exp),
            r,
            warmup_ok,
            run_ok,
            duration_ns,
            max_rss_bytes,
            metric_output,
        ),
{
    if !warmup_ok {
        return Err(AbshError::WarmupFailed);
    }
    if !run_ok {
        return Err(AbshError::RunFailed);
    }
    if max_rss_bytes == 0 {
        return Err(AbshError::ResourceUnavailable);
    }
    exp.measures.push(MeasureKey::WallTime, duration_ns);
    exp.measures.push(MeasureKey::MaxRss, max_rss_bytes);
    match metric_output {
        None => Ok(()),
        Some(mo) => {
            if !mo.exit_ok {
                return Err(AbshError::MetricSourceFailed);
            }
            match parse_metric(&mo.stdout) {
                Some(v) => {
                    exp.measures.push(MeasureKey::UserDefinedMetric, v);
                    Ok(())
                },
                None => Err(AbshError::MetricSourceFailed),
            }
        },
    }
}

/// Records one finished round for the named experiment of the collection.
pub fn record_run(
    tests: &mut ExperimentMap<Experiment>,
    name: ExperimentName,
    warmup_ok: bool,
    run_ok: bool,
    duration_ns: u64,
    max_rss_bytes: u64,
    metric_output: Option<MetricOutput>,
) -> (r: Result<(), AbshError>)
    requires
        old(tests).wf(),
        old(tests).present(name),
    ensures
        final(tests).wf(),
        forall|j: int|
            0 <= j < 5 && j != name.spec_index() ==> final(tests).spec_at(j) == old(
                tests,
            ).spec_at(j),
        final(tests).spec_get(name) is Some,
        spec_recorded(
            old(tests).spec_get(name)->Some_0,
            final(tests).spec_get(name)->Some_0,
            r,
            warmup_ok,
            run_ok,
            duration_ns,
            max_rss_bytes,
            metric_output,
        ),
{
    let i = name.index();
    let exp = tests.take_at(i);
    let mut exp = exp.unwrap();
    let r = record_run_samples(
        &mut exp,
        warmup_ok,
        run_ok,
        duration_ns,
        max_rss_bytes,
        metric_output,
    );
    tests.put_at(i, exp);
    r
}

/// Relies on rand's `SliceRandom::shuffle`: a Fisher–Yates shuffle that
/// permutes the slice in place by swaps, so exactly the same names come
/// back, in some order drawn from the thread's generator.
#[verifier::external_body]
fn shuffle_names(v: &mut Vec<ExperimentName>)
    ensures
        final(v)@.len() == old(v)@.len(),
        final(v)@.to_multiset() == old(v)@.to_multiset(),
{
    v.shuffle(&mut rand::thread_rng());
}

/// Every key of the collection is present in it.
pub proof fn lemma_keys_present(m: ExperimentMap<Experiment>, i: int)
    requires
        0 <= i <= 5,
    ensures
        forall|j: int|
            0 <= j < m.spec_keys_upto(i).len() ==> m.present(#[trigger] m.spec_keys_upto(i)[j]),
    decreases i,
{
    if i > 0 {
        lemma_keys_present(m, i - 1);
        let prev = m.spec_keys_upto(i - 1);
        let cur = m.spec_keys_upto(i);
        if m.spec_at(i - 1) is Some {
            crate::experiment_map::lemma_name_of_index(i - 1);
            assert forall|j: int| 0 <= j < cur.len() implies m.present(#[trigger] cur[j]) by {
                if j < prev.len() {
                    assert(cur[j] == prev[j]);
                    assert(m.present(prev[j]));
                } else {
                    assert(cur[j] == crate::experiment_map::name_of_index(i - 1));
                }
            }
        } else {
            assert(cur =~= prev);
            assert forall|j: int| 0 <= j < cur.len() implies m.present(#[trigger] cur[j]) by {
                assert(cur[j] == prev[j]);
                assert(m.present(prev[j]));
            }
        }
    }
}

/// The order in which one round runs the experiments: the collection
/// order, or a fresh uniform permutation of it.
pub fn round_order(tests: &ExperimentMap<Experiment>, random: bool) -> (r: Vec<ExperimentName>)
    requires
        tests.wf(),
    ensures
        r@.len() == tests.spec_keys().len(),
        r@.to_multiset() == tests.spec_keys().to_multiset(),
        !random ==> r@ == tests.spec_keys(),
        forall|i: int| 0 <= i < r@.len() ==> tests.present(#[trigger] r@[i]),
{
    let mut r = tests.keys();
    if random {
        shuffle_names(&mut r);
    }
    proof {
        broadcast use vstd::seq_lib::group_to_multiset_ensures;

        lemma_keys_present(*tests, 5);
        assert forall|i: int| 0 <= i < r@.len() implies tests.present(#[trigger] r@[i]) by {
            assert(r@.contains(r@[i]));
            assert(r@.to_multiset().count(r@[i]) > 0);
            assert(tests.spec_keys().to_multiset().count(r@[i]) > 0);
            assert(tests.spec_keys().contains(r@[i]));
            let j = choose|j: int|
                0 <= j < tests.spec_keys().len() && tests.spec_keys()[j] == r@[i];
            assert(tests.present(tests.spec_keys()[j]));
        }
    }
    r
}

/// The authoritative completed-round count: the least number of runs any
/// present experiment has; nothing when the collection is empty. A failed
/// run leaves one experiment behind, and the minimum keeps comparisons in
/// step.
pub fn completed_rounds(tests: &ExperimentMap<Experiment>) -> (r: Option<usize>)
    requires
        tests.wf(),
    ensures
        r is Some <==> (exists|i: int| 0 <= i < 5 && #[trigger] tests.spec_at(i) is Some),
        r is Some ==> (exists|i: int|
            0 <= i < 5 && #[trigger] tests.spec_at(i) is Some && tests.spec_at(
                i,
            )->Some_0.spec_runs() == r->Some_0),
        r is Some ==> (forall|i: int|
            0 <= i < 5 && #[trigger] tests.spec_at(i) is Some ==> tests.spec_at(
                i,
            )->Some_0.spec_runs() >= r->Some_0),
{
    let mut r: Option<usize> = None;
    let mut i: usize = 0;
    while i < 5
        invariant
            tests.wf(),
            i <= 5,
            r is Some <==> (exists|j: int| 0 <= j < i && #[trigger] tests.spec_at(j) is Some),
            r is Some ==> (exists|j: int|
                0 <= j < i && #[trigger] tests.spec_at(j) is Some && tests.spec_at(
                    j,
                )->Some_0.spec_runs() == r->Some_0),
            r is Some ==> (forall|j: int|
                0 <= j < i && #[trigger] tests.spec_at(j) is Some ==> tests.spec_at(
                    j,
                )->Some_0.spec_runs() >= r->Some_0),
        decreases 5 - i,
    {
        match tests.get_at(i) {
            Some(e) => {
                let runs = e.runs();
                r = match r {
                    Some(m) => if runs < m {
                        Some(runs)
                    } else {
                        Some(m)
                    },
                    None => Some(runs),
                };
            },
            None => {},
        }
        i = i + 1;
    }
    r
}

/// The run loop's lifecycle: one optional warmup round whose samples are
/// discarded, then collection.
#[derive(Copy, Clone, Debug, PartialEq, Eq, Structural)]
pub enum Phase {
    /// The first round is still running and its samples will be discarded.
    Warmup,
    /// Samples count.
    Collecting,
}

/// What the loop does after a round.
#[derive(Copy, Clone, Debug, PartialEq, Eq, Structural)]
pub enum RoundAction {
    /// Clear every store once and start collecting: the ignored first round.
    DiscardFirstRound,
    /// The requested number of rounds is reached.
    Stop,
    /// Render and persist the report: every experiment has enough samples.
    Report,
    /// Keep running without reporting: some experiment has under two samples.
    Continue,
}

/// The decision after one round, from the phase, the authoritative
/// completed-round count, and the requested round target.
pub open spec fn spec_next_action(phase: Phase, min_runs: nat, target: Option<u32>) -> (
    Phase,
    RoundAction,
) {
    if phase == Phase::Warmup {
        (Phase::Collecting, RoundAction::DiscardFirstRound)
    } else if target is Some && min_runs == target->Some_0 as nat {
        (Phase::Collecting, RoundAction::Stop)
    } else if min_runs < 2 {
        (Phase::Collecting, RoundAction::Continue)
    } else {
        (Phase::Collecting, RoundAction::Report)
    }
}

pub fn next_action(phase: Phase, min_runs: usize, target: Option<u32>) -> (r: (
    Phase,
    RoundAction,
))
    ensures
        r == spec_next_action(phase, min_runs as nat, target),
{
    match phase {
        Phase::Warmup => (Phase::Collecting, RoundAction::DiscardFirstRound),
        Phase::Collecting => {
            let stop = match target {
                Some(t) => min_runs as u64 == t as u64,
                None => false,
            };
            if stop {
                (Phase::Collecting, RoundAction::Stop)
            } else if min_runs < 2 {
                (Phase::Collecting, RoundAction::Continue)
            } else {
                (Phase::Collecting, RoundAction::Report)
            }
        },
    }
}

/// The stores are cleared only out of the warmup phase, and the phase
/// never returns to warmup: the bulk clear happens at most once per run.
pub proof fn lemma_discard_at_most_once(phase: Phase, min_runs: nat, target: Option<u32>)
    ensures
        spec_next_action(phase, min_runs, target).1 == RoundAction::DiscardFirstRound <==> phase
            == Phase::Warmup,
        spec_next_action(phase, min_runs, target).0 == Phase::Collecting,
{
}

/// A report is asked for only once every experiment has at least two
/// samples: the round-count gate.
pub proof fn lemma_report_gated(phase: Phase, min_runs: nat, target: Option<u32>)
    ensures
        spec_next_action(phase, min_runs, target).1 == RoundAction::Report ==> phase
            == Phase::Collecting && min_runs >= 2,
{
}

} // verus!
