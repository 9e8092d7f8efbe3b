use synchronizer::align::locate_alignment;
use synchronizer::align::Alignment;
use synchronizer::delta::delta_series;
use synchronizer::engine::synchronize_series;
use synchronizer::plan::build_sync_plan;

#[test]
fn delta_series_of_empty_is_empty() {
    let d = delta_series(&vec![]);
    assert!(d.is_empty());
}

#[test]
fn delta_series_of_single_element_is_zero_sentinel() {
    let d = delta_series(&vec![3]);
    assert_eq!(d, vec![0]);
}

#[test]
fn delta_series_takes_first_differences() {
    let d = delta_series(&vec![10, 5, 20]);
    assert_eq!(d, vec![0, -5, 15]);
}

#[test]
fn identity_series_synchronize_one_to_one() {
    let ts: Vec<u64> = vec![5, 105, 205, 305];
    let r = synchronize_series(&ts, &ts.clone());
    assert_eq!(r.alignment, Alignment::AlignedAtStart);
    assert_eq!(r.plan.pairs, vec![(0, 0), (1, 1), (2, 2), (3, 3)]);
    assert_eq!(r.plan.skips, 0);
    assert!(r.plan.anomalies.is_empty());
}

#[test]
fn aligned_constant_interval_scenario() {
    // Both channels with intervals [0, 100, 100, 100].
    let ts_get: Vec<u64> = vec![0, 100, 200, 300];
    let ts_frib: Vec<u64> = vec![0, 100, 200, 300];
    let r = synchronize_series(&ts_get, &ts_frib);
    assert_eq!(r.alignment, Alignment::AlignedAtStart);
    assert_eq!(r.plan.pairs, vec![(0, 0), (1, 1), (2, 2), (3, 3)]);
    assert_eq!(r.plan.skips, 0);
    assert!(r.plan.anomalies.is_empty());
}

#[test]
fn empty_get_series_yields_empty_plan() {
    let r = synchronize_series(&vec![], &vec![0, 10]);
    assert!(r.plan.pairs.is_empty());
    assert_eq!(r.plan.skips, 0);
    assert!(r.plan.anomalies.is_empty());
}

#[test]
fn empty_frib_series_yields_empty_plan() {
    let r = synchronize_series(&vec![0, 10], &vec![]);
    assert!(r.plan.pairs.is_empty());
    assert_eq!(r.plan.skips, 0);
    assert!(r.plan.anomalies.is_empty());
}

#[test]
fn both_series_empty_yields_empty_plan() {
    let r = synchronize_series(&vec![], &vec![]);
    assert!(r.plan.pairs.is_empty());
    assert_eq!(r.plan.skips, 0);
    assert!(r.plan.anomalies.is_empty());
}

#[test]
fn single_element_series_pair_only_their_first_events() {
    let r = synchronize_series(&vec![42], &vec![7]);
    assert_eq!(r.plan.pairs, vec![(0, 0)]);
    assert_eq!(r.plan.skips, 0);
    assert!(r.plan.anomalies.is_empty());
}

#[test]
fn pure_offset_is_recovered_by_the_locator() {
    // GET intervals: [0, 5000, 200, 300, 400, 500, 600, 700, 800, 900].
    let ts_get: Vec<u64> = vec![10, 5010, 5210, 5510, 5910, 6410, 7010, 7710, 8510, 9410];
    // FRIB equals GET delayed by two extra leading events; its intervals
    // are [0, 1, 7777] followed by GET's intervals from index 1 on.
    let ts_frib: Vec<u64> = vec![
        10, 11, 7788, 12788, 12988, 13288, 13688, 14188, 14788, 15488, 16288, 17188,
    ];
    let dg = delta_series(&ts_get);
    let df = delta_series(&ts_frib);
    let a = locate_alignment(&dg, &df);
    assert_eq!(a, Alignment::Found { get_first: 0, frib_first: 2 });
    let r = synchronize_series(&ts_get, &ts_frib);
    assert_eq!(r.alignment, Alignment::Found { get_first: 0, frib_first: 2 });
    let expected: Vec<(usize, usize)> = (0..10).map(|i| (i, i + 2)).collect();
    assert_eq!(r.plan.pairs, expected);
    assert_eq!(r.plan.skips, 0);
    assert!(r.plan.anomalies.is_empty());
}

#[test]
fn one_extra_frib_event_is_skipped_exactly_once() {
    let ts_get: Vec<u64> = vec![0, 2000, 4000, 6000, 8000, 10000];
    // The FRIB channel caught one extra event at 4500 that GET missed.
    let ts_frib: Vec<u64> = vec![0, 2000, 4000, 4500, 6000, 8000, 10000];
    let r = synchronize_series(&ts_get, &ts_frib);
    assert_eq!(r.alignment, Alignment::AlignedAtStart);
    assert_eq!(r.plan.pairs, vec![(0, 0), (1, 1), (2, 2), (3, 4), (4, 5), (5, 6)]);
    assert_eq!(r.plan.skips, 1);
    assert!(r.plan.anomalies.is_empty());
}

#[test]
fn moderate_jitter_is_reported_without_changing_indices() {
    let ts_get: Vec<u64> = vec![0, 100, 200, 350, 450];
    let ts_frib: Vec<u64> = vec![0, 100, 200, 300, 400];
    let r = synchronize_series(&ts_get, &ts_frib);
    assert_eq!(r.alignment, Alignment::AlignedAtStart);
    assert_eq!(r.plan.pairs, vec![(0, 0), (1, 1), (2, 2), (3, 3), (4, 4)]);
    assert_eq!(r.plan.skips, 0);
    assert_eq!(r.plan.anomalies, vec![(3, 50)]);
}

#[test]
fn negative_jitter_is_not_an_anomaly() {
    // FRIB's interval exceeds GET's: jitter is negative and tolerated.
    let ts_get: Vec<u64> = vec![0, 500, 510, 530, 560, 600];
    let ts_frib: Vec<u64> = vec![0, 700, 750, 810, 880, 960];
    let r = synchronize_series(&ts_get, &ts_frib);
    assert_eq!(r.alignment, Alignment::NotFound);
    assert_eq!(r.plan.pairs, vec![(0, 0), (1, 1), (2, 2), (3, 3), (4, 4), (5, 5)]);
    assert_eq!(r.plan.skips, 0);
    assert!(r.plan.anomalies.is_empty());
}

#[test]
fn skip_past_the_frib_end_stops_the_walk() {
    let ts_get: Vec<u64> = vec![0, 2000, 4000];
    let ts_frib: Vec<u64> = vec![0, 2000, 2500];
    let r = synchronize_series(&ts_get, &ts_frib);
    assert_eq!(r.plan.pairs, vec![(0, 0), (1, 1)]);
    assert_eq!(r.plan.skips, 0);
    assert!(r.plan.anomalies.is_empty());
}

#[test]
fn walk_can_run_from_an_explicit_starting_pair() {
    let dg = delta_series(&vec![0, 2000, 4000, 6000, 8000, 10000]);
    let df = delta_series(&vec![0, 2000, 4000, 4500, 6000, 8000, 10000]);
    let p = build_sync_plan(&dg, &df, 0, 0);
    assert_eq!(p.pairs, vec![(0, 0), (1, 1), (2, 2), (3, 4), (4, 5), (5, 6)]);
    assert_eq!(p.skips, 1);
    assert!(p.anomalies.is_empty());
}
