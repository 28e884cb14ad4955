use absh::experiment::Experiment;
use absh::experiment_map::ExperimentMap;
use absh::experiment_name::ExperimentName;
use absh::measure_key::MeasureKey;
use absh::run::{
    completed_rounds, next_action, parse_metric, record_run, record_run_samples, round_order,
    MetricOutput, Phase, RoundAction,
};
use absh::AbshError;

fn experiment(name: ExperimentName) -> Experiment {
    Experiment::new(name, String::new(), "true".to_string())
}

fn with_runs(name: ExperimentName, runs: usize) -> Experiment {
    let mut e = experiment(name);
    for i in 0..runs {
        e.measures.push(MeasureKey::WallTime, i as u64);
    }
    e
}

#[test]
fn parse_metric_plain_and_trimmed() {
    assert_eq!(parse_metric(&b"42".to_vec()), Some(42));
    assert_eq!(parse_metric(&b" 42\n".to_vec()), Some(42));
    assert_eq!(parse_metric(&b"\t007\r\n".to_vec()), Some(7));
    assert_eq!(parse_metric(&b"+42".to_vec()), Some(42));
    assert_eq!(parse_metric(&b"0".to_vec()), Some(0));
}

#[test]
fn parse_metric_rejects_garbage() {
    assert_eq!(parse_metric(&b"".to_vec()), None);
    assert_eq!(parse_metric(&b"   ".to_vec()), None);
    assert_eq!(parse_metric(&b"4a2".to_vec()), None);
    assert_eq!(parse_metric(&b"-42".to_vec()), None);
    assert_eq!(parse_metric(&b"+".to_vec()), None);
    assert_eq!(parse_metric(&b"4 2".to_vec()), None);
}

#[test]
fn parse_metric_bounds() {
    assert_eq!(parse_metric(&b"18446744073709551615".to_vec()), Some(u64::MAX));
    assert_eq!(parse_metric(&b"18446744073709551616".to_vec()), None);
}

#[test]
fn record_skips_failed_warmup_and_run() {
    let mut e = experiment(ExperimentName::A);
    let r = record_run_samples(&mut e, false, true, 5, 100, None);
    assert_eq!(r, Err(AbshError::WarmupFailed));
    assert_eq!(e.runs(), 0);
    let r = record_run_samples(&mut e, true, false, 5, 100, None);
    assert_eq!(r, Err(AbshError::RunFailed));
    assert_eq!(e.runs(), 0);
}

#[test]
fn record_refuses_zero_peak_memory() {
    let mut e = experiment(ExperimentName::A);
    let r = record_run_samples(&mut e, true, true, 5, 0, None);
    assert_eq!(r, Err(AbshError::ResourceUnavailable));
    assert_eq!(e.runs(), 0);
}

#[test]
fn record_appends_time_and_memory() {
    let mut e = experiment(ExperimentName::A);
    let r = record_run_samples(&mut e, true, true, 1_500_000_000, 2_097_152, None);
    assert_eq!(r, Ok(()));
    assert_eq!(e.runs(), 1);
    assert_eq!(e.measures.get(MeasureKey::WallTime).get(0), 1_500_000_000);
    assert_eq!(e.measures.get(MeasureKey::MaxRss).get(0), 2_097_152);
    assert_eq!(e.measures.get(MeasureKey::UserDefinedMetric).len(), 0);
}

#[test]
fn record_appends_parsed_user_metric() {
    let mut e = experiment(ExperimentName::A);
    let mo = MetricOutput { exit_ok: true, stdout: b" 7 \n".to_vec() };
    let r = record_run_samples(&mut e, true, true, 5, 100, Some(mo));
    assert_eq!(r, Ok(()));
    assert_eq!(e.measures.get(MeasureKey::UserDefinedMetric).get(0), 7);
}

#[test]
fn record_flags_bad_metric_output_after_appending() {
    let mut e = experiment(ExperimentName::A);
    let mo = MetricOutput { exit_ok: true, stdout: b"not a number".to_vec() };
    let r = record_run_samples(&mut e, true, true, 5, 100, Some(mo));
    assert_eq!(r, Err(AbshError::MetricSourceFailed));
    // time and memory were measured before the metric source failed
    assert_eq!(e.runs(), 1);
    assert_eq!(e.measures.get(MeasureKey::UserDefinedMetric).len(), 0);

    let mo = MetricOutput { exit_ok: false, stdout: b"7".to_vec() };
    let r = record_run_samples(&mut e, true, true, 5, 100, Some(mo));
    assert_eq!(r, Err(AbshError::MetricSourceFailed));
}

#[test]
fn record_through_the_collection() {
    let mut tests: ExperimentMap<Experiment> = ExperimentMap::new();
    tests.insert(ExperimentName::A, experiment(ExperimentName::A));
    tests.insert(ExperimentName::B, experiment(ExperimentName::B));
    let r = record_run(&mut tests, ExperimentName::B, true, true, 9, 100, None);
    assert_eq!(r, Ok(()));
    assert_eq!(tests.get(ExperimentName::B).unwrap().runs(), 1);
    assert_eq!(tests.get(ExperimentName::A).unwrap().runs(), 0);
}

#[test]
fn completed_rounds_is_the_minimum() {
    let mut tests: ExperimentMap<Experiment> = ExperimentMap::new();
    tests.insert(ExperimentName::A, with_runs(ExperimentName::A, 5));
    tests.insert(ExperimentName::B, with_runs(ExperimentName::B, 5));
    tests.insert(ExperimentName::C, with_runs(ExperimentName::C, 3));
    assert_eq!(completed_rounds(&tests), Some(3));
    let empty: ExperimentMap<Experiment> = ExperimentMap::new();
    assert_eq!(completed_rounds(&empty), None);
}

#[test]
fn round_order_keeps_or_permutes_the_keys() {
    let mut tests: ExperimentMap<Experiment> = ExperimentMap::new();
    tests.insert(ExperimentName::C, experiment(ExperimentName::C));
    tests.insert(ExperimentName::A, experiment(ExperimentName::A));
    tests.insert(ExperimentName::B, experiment(ExperimentName::B));
    // insertion order does not matter: the fixed name order does
    let fixed = round_order(&tests, false);
    assert_eq!(fixed, vec![ExperimentName::A, ExperimentName::B, ExperimentName::C]);
    let mut shuffled = round_order(&tests, true);
    shuffled.sort_by_key(|n| n.index());
    assert_eq!(shuffled, vec![ExperimentName::A, ExperimentName::B, ExperimentName::C]);
}

#[test]
fn store_length_grows_by_one_per_append() {
    let mut e = experiment(ExperimentName::A);
    for i in 0..10u64 {
        assert_eq!(e.runs(), i as usize);
        e.measures.push(MeasureKey::WallTime, i);
    }
    assert_eq!(e.runs(), 10);
}

#[test]
fn clear_all_measures_empties_every_store() {
    let mut tests: ExperimentMap<Experiment> = ExperimentMap::new();
    tests.insert(ExperimentName::A, with_runs(ExperimentName::A, 4));
    tests.insert(ExperimentName::D, with_runs(ExperimentName::D, 2));
    tests.clear_all_measures();
    assert_eq!(tests.get(ExperimentName::A).unwrap().runs(), 0);
    assert_eq!(tests.get(ExperimentName::D).unwrap().runs(), 0);
    // names and commands survive the clear
    assert_eq!(tests.get(ExperimentName::D).unwrap().run.as_str(), "true");
}

#[test]
fn warmup_phase_discards_exactly_once() {
    let (phase, action) = next_action(Phase::Warmup, 1, None);
    assert_eq!(action, RoundAction::DiscardFirstRound);
    assert_eq!(phase, Phase::Collecting);
    // once collecting, the discard can never come again
    for runs in 0..5usize {
        let (p, a) = next_action(Phase::Collecting, runs, None);
        assert_eq!(p, Phase::Collecting);
        assert_ne!(a, RoundAction::DiscardFirstRound);
    }
}

#[test]
fn report_waits_for_two_rounds_and_stops_on_target() {
    assert_eq!(next_action(Phase::Collecting, 0, None).1, RoundAction::Continue);
    assert_eq!(next_action(Phase::Collecting, 1, None).1, RoundAction::Continue);
    assert_eq!(next_action(Phase::Collecting, 2, None).1, RoundAction::Report);
    assert_eq!(next_action(Phase::Collecting, 7, None).1, RoundAction::Report);
    assert_eq!(next_action(Phase::Collecting, 3, Some(3)).1, RoundAction::Stop);
    assert_eq!(next_action(Phase::Collecting, 1, Some(1)).1, RoundAction::Stop);
    assert_eq!(next_action(Phase::Collecting, 2, Some(3)).1, RoundAction::Report);
}

#[test]
fn experiment_names_round_trip() {
    for i in 0..5usize {
        let n = ExperimentName::from_index(i);
        assert_eq!(n.index(), i);
    }
    assert_eq!(ExperimentName::A.label(), "A");
    assert_eq!(ExperimentName::E.label(), "E");
}
