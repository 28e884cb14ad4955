use absh::experiment_name::ExperimentName;
use absh::measure_key::MeasureKey;
use absh::stats::{compare_stats, stats_of};
use absh::store::SampleStore;
use absh::AbshError;

fn store_of(values: &[u64]) -> SampleStore {
    let mut s = SampleStore::new();
    for &v in values {
        s.push(v);
    }
    s
}

#[test]
fn stats_exact_small() {
    let s = store_of(&[10, 12, 11, 13, 10]);
    let st = stats_of(&s).unwrap();
    assert_eq!(st.count, 5);
    assert_eq!(st.mean, 11); // 56 / 5, floored
    assert_eq!(st.stddev, 1); // deviations 1,1,0,2,1 -> 7/4 = 1 -> sqrt 1
    assert_eq!(st.min, 10);
    assert_eq!(st.max, 13);
    assert_eq!(st.ci_low, 11); // half-width 196*1/100/floor(sqrt 5) = 0
    assert_eq!(st.ci_high, 11);
}

#[test]
fn stats_interval_contains_mean() {
    let cases: Vec<Vec<u64>> = vec![
        vec![1, 2],
        vec![0, 0, 0],
        vec![5, 100, 3, 42, 7, 7],
        vec![u64::MAX, u64::MAX - 1],
        vec![1_500_000_000, 1_600_000_000, 1_550_000_000],
    ];
    for c in cases {
        let st = stats_of(&store_of(&c)).unwrap();
        assert!(st.ci_low <= st.mean);
        assert!(st.mean <= st.ci_high);
        assert!(st.min <= st.mean && st.mean <= st.max);
    }
}

#[test]
fn stats_single_sample_fails() {
    let s = store_of(&[42]);
    assert_eq!(stats_of(&s), Err(AbshError::InsufficientData));
}

#[test]
fn stats_empty_fails() {
    let s = SampleStore::new();
    assert_eq!(stats_of(&s), Err(AbshError::InsufficientData));
}

#[test]
fn stats_zero_spread() {
    let st = stats_of(&store_of(&[7, 7, 7, 7])).unwrap();
    assert_eq!(st.mean, 7);
    assert_eq!(st.stddev, 0);
    assert_eq!(st.ci_low, 7);
    assert_eq!(st.ci_high, 7);
}

#[test]
fn compare_ranks_lower_mean_best() {
    let a = stats_of(&store_of(&[10, 12, 11, 13, 10])).unwrap();
    let b = stats_of(&store_of(&[20, 22, 21, 23, 20])).unwrap();
    let l = vec![(ExperimentName::A, a), (ExperimentName::B, b)];
    let c = compare_stats(&l, MeasureKey::WallTime);
    assert_eq!(c.best, Some(ExperimentName::A));
    // the intervals [11,11] and [21,21] do not overlap: distinguishable
    assert!(c.overlaps.is_empty());
}

#[test]
fn compare_marks_overlapping_pair() {
    let a = stats_of(&store_of(&[10, 30])).unwrap();
    let b = stats_of(&store_of(&[11, 29])).unwrap();
    let l = vec![(ExperimentName::A, a), (ExperimentName::B, b)];
    let c = compare_stats(&l, MeasureKey::WallTime);
    // both means are 20; a tie keeps the earliest
    assert_eq!(c.best, Some(ExperimentName::A));
    assert_eq!(c.overlaps, vec![(ExperimentName::A, ExperimentName::B)]);
}

#[test]
fn compare_user_metric_names_no_best() {
    let a = stats_of(&store_of(&[1, 2])).unwrap();
    let l = vec![(ExperimentName::A, a)];
    let c = compare_stats(&l, MeasureKey::UserDefinedMetric);
    assert_eq!(c.best, None);
}
