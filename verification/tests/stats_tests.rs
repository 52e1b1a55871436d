use qtarget::stats::{compute_stats, sort_scores};
use statrs::statistics::{OrderStatistics, Distribution, Median};

#[test]
fn sorting_is_ascending_permutation() {
    let v: Vec<i64> = vec![5_000, 1_000, 4_000, 1_000, 3_000];
    let s = sort_scores(&v);
    assert_eq!(s, vec![1_000, 1_000, 3_000, 4_000, 5_000]);
}

#[test]
fn stats_of_single_score() {
    let st = compute_stats(&vec![82_500]);
    assert_eq!(st.mean_milli, 82_500);
    assert_eq!(st.median_milli, 82_500);
    assert_eq!(st.std_dev_milli, 0);
    assert_eq!(st.percentile_5th_milli, 82_500);
    assert_eq!(st.percentile_95th_milli, 82_500);
}

#[test]
fn stats_exact_small_set() {
    // Scores 70, 80, 90 (in thousandths).
    let st = compute_stats(&vec![70_000, 80_000, 90_000]);
    assert_eq!(st.mean_milli, 80_000);
    assert_eq!(st.median_milli, 80_000);
    // Sample standard deviation of {70, 80, 90} is 10 exactly.
    assert_eq!(st.std_dev_milli, 10_000);
    // Rank h = ((3n + 1) p + 100) / 300 with n = 3: for p = 5 the rank
    // floor is 0, so the minimum; for p = 95 it reaches n, so the maximum.
    assert_eq!(st.percentile_5th_milli, 70_000);
    assert_eq!(st.percentile_95th_milli, 90_000);
}

#[test]
fn even_median_averages_middle_pair() {
    let st = compute_stats(&vec![10_000, 20_000, 30_000, 41_000]);
    assert_eq!(st.median_milli, 25_000);
    assert_eq!(st.mean_milli, 25_250);
}

#[test]
fn percentile_interpolates_between_order_statistics() {
    // Ten equally spaced scores 1..=10 (in thousandths x1000).
    let v: Vec<i64> = (1..=10).map(|x| x * 1000).collect();
    let st = compute_stats(&v);
    let data: Vec<f64> = (1..=10).map(|x| x as f64).collect();
    let mut d = statrs::statistics::Data::new(data);
    let p5 = d.percentile(5);
    let p95 = d.percentile(95);
    let mean = d.mean().unwrap();
    let median = d.median();
    let sd = d.std_dev().unwrap();
    assert!((st.percentile_5th_milli as f64 / 1000.0 - p5).abs() < 0.001);
    assert!((st.percentile_95th_milli as f64 / 1000.0 - p95).abs() < 0.001);
    assert!((st.mean_milli as f64 / 1000.0 - mean).abs() < 0.001);
    assert!((st.median_milli as f64 / 1000.0 - median).abs() < 0.001);
    assert!((st.std_dev_milli as f64 / 1000.0 - sd).abs() < 0.001);
}

#[test]
fn stats_match_float_reference_on_uneven_data() {
    let milli: Vec<i64> = vec![81_234, 79_501, 83_250, 90_004, 62_100, 70_125, 88_000];
    let st = compute_stats(&milli);
    let data: Vec<f64> = milli.iter().map(|m| *m as f64 / 1000.0).collect();
    let mut d = statrs::statistics::Data::new(data);
    assert!((st.mean_milli as f64 / 1000.0 - d.mean().unwrap()).abs() < 0.001);
    assert!((st.median_milli as f64 / 1000.0 - d.median()).abs() < 0.001);
    assert!((st.std_dev_milli as f64 / 1000.0 - d.std_dev().unwrap()).abs() < 0.001);
    assert!((st.percentile_5th_milli as f64 / 1000.0 - d.percentile(5)).abs() < 0.001);
    assert!((st.percentile_95th_milli as f64 / 1000.0 - d.percentile(95)).abs() < 0.001);
}
