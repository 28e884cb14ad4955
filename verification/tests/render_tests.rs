use absh::experiment::Experiment;
use absh::experiment_map::ExperimentMap;
use absh::experiment_name::ExperimentName;
use absh::measure_key::MeasureKey;
use absh::render::{render_measure, AllMeasures};
use absh::AbshError;

fn experiment(name: ExperimentName, samples: &[u64]) -> Experiment {
    let mut e = Experiment::new(name, String::new(), "true".to_string());
    for &v in samples {
        e.measures.push(MeasureKey::WallTime, v);
    }
    e
}

fn two_experiments() -> ExperimentMap<Experiment> {
    let mut tests: ExperimentMap<Experiment> = ExperimentMap::new();
    tests.insert(ExperimentName::A, experiment(ExperimentName::A, &[10, 12, 11, 13, 10]));
    tests.insert(ExperimentName::B, experiment(ExperimentName::B, &[20, 22, 21, 23, 20]));
    tests
}

#[test]
fn short_mode_table_exact() {
    let tests = two_experiments();
    let s = render_measure(&tests, MeasureKey::WallTime, false, 80).unwrap();
    let expected = "Time (in seconds):\n\
        A: n=5 mean=0.000 std=0.000 ci=[0.000 0.000] min=0.000 max=0.000\n\
        B: n=5 mean=0.000 std=0.000 ci=[0.000 0.000] min=0.000 max=0.000\n\
        best: A\n";
    assert_eq!(s.as_str(), expected);
}

#[test]
fn user_metric_table_exact() {
    let mut tests: ExperimentMap<Experiment> = ExperimentMap::new();
    let mut e = Experiment::new(ExperimentName::A, String::new(), "true".to_string());
    e.measures.push(MeasureKey::UserDefinedMetric, 1);
    e.measures.push(MeasureKey::UserDefinedMetric, 1);
    tests.insert(ExperimentName::A, e);
    let s = render_measure(&tests, MeasureKey::UserDefinedMetric, false, 80).unwrap();
    // no best mark: the ranking direction of the user metric is left open
    let expected = "User defined metric:\nA: n=2 mean=1 std=0 ci=[1 1] min=1 max=1\n";
    assert_eq!(s.as_str(), expected);
}

#[test]
fn full_mode_extends_short_mode() {
    let tests = two_experiments();
    let full = render_measure(&tests, MeasureKey::WallTime, true, 80).unwrap();
    let short = render_measure(&tests, MeasureKey::WallTime, false, 80).unwrap();
    assert!(full.as_str().starts_with(short.as_str()));
    assert!(full.len() > short.len());
    // the plot section is one labelled row per experiment
    let tail = &full[short.len()..];
    let rows: Vec<&str> = tail.lines().collect();
    assert_eq!(rows.len(), 2);
    assert_eq!(rows[0].len(), 80);
    assert!(rows[0].ends_with(" A"));
    assert!(rows[1].ends_with(" B"));
}

#[test]
fn overlapping_intervals_are_marked() {
    let mut tests: ExperimentMap<Experiment> = ExperimentMap::new();
    tests.insert(ExperimentName::A, experiment(ExperimentName::A, &[10, 30]));
    tests.insert(ExperimentName::B, experiment(ExperimentName::B, &[11, 29]));
    let s = render_measure(&tests, MeasureKey::WallTime, false, 80).unwrap();
    assert!(s.as_str().contains("A and B are not distinguishable\n"));
}

#[test]
fn distinguishable_intervals_are_not_marked() {
    let tests = two_experiments();
    let s = render_measure(&tests, MeasureKey::WallTime, false, 80).unwrap();
    assert!(!s.as_str().contains("not distinguishable"));
}

#[test]
fn rendering_fails_before_two_samples() {
    let mut tests: ExperimentMap<Experiment> = ExperimentMap::new();
    tests.insert(ExperimentName::A, experiment(ExperimentName::A, &[10, 12]));
    tests.insert(ExperimentName::B, experiment(ExperimentName::B, &[20]));
    let r = render_measure(&tests, MeasureKey::WallTime, false, 80);
    assert_eq!(r.unwrap_err(), AbshError::InsufficientData);
}

#[test]
fn aggregator_joins_blocks_with_blank_line() {
    let tests = two_experiments();
    let measures = AllMeasures(vec![MeasureKey::WallTime, MeasureKey::MaxRss]);
    // MaxRss has no samples anywhere: its table is empty of rows but renders
    let r = measures.render_stats(&tests, false);
    // every present experiment has zero MaxRss samples -> insufficient
    assert_eq!(r.unwrap_err(), AbshError::InsufficientData);

    let time_only = AllMeasures(vec![MeasureKey::WallTime]);
    let joined = time_only.render_stats(&tests, false).unwrap();
    let single = render_measure(&tests, MeasureKey::WallTime, false, 80).unwrap();
    assert_eq!(joined.as_str(), single.as_str());
}

#[test]
fn full_and_short_report_identical_statistics() {
    let tests = two_experiments();
    let measures = AllMeasures(vec![MeasureKey::WallTime]);
    let full = measures.render_stats(&tests, true).unwrap();
    let short = measures.render_stats(&tests, false).unwrap();
    assert!(full.as_str().starts_with(short.as_str()));
}

#[test]
fn raw_dump_lists_samples_in_append_order() {
    let mut tests: ExperimentMap<Experiment> = ExperimentMap::new();
    tests.insert(ExperimentName::A, experiment(ExperimentName::A, &[5]));
    tests.insert(ExperimentName::B, experiment(ExperimentName::B, &[7, 8]));
    let measures = AllMeasures(vec![MeasureKey::WallTime, MeasureKey::MaxRss]);
    let raw = measures.write_raw(&tests);
    assert_eq!(raw.len(), 2);
    assert_eq!(raw[0].id.as_str(), "wall-time");
    assert_eq!(raw[0].content.as_str(), "5\n7\n8\n");
    assert_eq!(raw[1].id.as_str(), "max-rss");
    assert_eq!(raw[1].content.as_str(), "");
}
