use absh::distr_plot::{bucket_counts, make_distr_plots, render_bar};
use absh::experiment::Experiment;
use absh::experiment_map::ExperimentMap;
use absh::experiment_name::ExperimentName;
use absh::measure_key::MeasureKey;
use absh::store::SampleStore;

fn store_of(values: &[u64]) -> SampleStore {
    let mut s = SampleStore::new();
    for &v in values {
        s.push(v);
    }
    s
}

fn experiment(name: ExperimentName, samples: &[u64]) -> Experiment {
    let mut e = Experiment::new(name, String::new(), "true".to_string());
    for &v in samples {
        e.measures.push(MeasureKey::WallTime, v);
    }
    e
}

#[test]
fn bucketing_spreads_over_shared_bins() {
    let s = store_of(&[0, 9]);
    let counts = bucket_counts(&s, 0, 9, 5);
    assert_eq!(counts, vec![1, 0, 0, 0, 1]);
}

#[test]
fn single_valued_store_fills_one_bin() {
    let s = store_of(&[7, 7, 7, 7]);
    let counts = bucket_counts(&s, 7, 7, 6);
    assert_eq!(counts, vec![4, 0, 0, 0, 0, 0]);
}

#[test]
fn empty_store_renders_blank_bar() {
    let s = SampleStore::new();
    let bar = render_bar(&s, 0, 10, 4);
    assert_eq!(bar.as_str(), "    ");
}

#[test]
fn full_bin_renders_densest_level() {
    let s = store_of(&[5, 5, 5]);
    let bar = render_bar(&s, 5, 5, 3);
    assert_eq!(bar.as_str(), "@  ");
}

#[test]
fn plots_share_the_range_and_label_rows() {
    let mut tests: ExperimentMap<Experiment> = ExperimentMap::new();
    tests.insert(ExperimentName::A, experiment(ExperimentName::A, &[5, 5, 5]));
    tests.insert(ExperimentName::B, experiment(ExperimentName::B, &[]));
    let plots = make_distr_plots(&tests, 10, MeasureKey::WallTime);
    let row_a = plots.get(ExperimentName::A).unwrap();
    let row_b = plots.get(ExperimentName::B).unwrap();
    // eight bins: all of A's mass in the first, B has no samples at all
    assert_eq!(row_a.as_str(), "@        A");
    assert_eq!(row_b.as_str(), "         B");
    assert!(plots.get(ExperimentName::C).is_none());
}

#[test]
fn half_full_bins_render_intermediate_levels() {
    // values 0 and 1 land in separate bins with counts 2 and 1
    let s = store_of(&[0, 0, 1]);
    let bar = render_bar(&s, 0, 1, 2);
    // max count 2: level(2,2) = 8 -> '@'; level(1,2) = ceil(8/2) = 4 -> '='
    assert_eq!(bar.as_str(), "@=");
}
