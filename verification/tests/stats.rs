use faf_dns_bench::stats::{summarize, Summary};

fn floats(samples: &[u64]) -> Vec<f64> {
    samples.iter().map(|x| *x as f64).collect()
}

#[test]
fn five_samples_have_the_known_statistics() {
    let summary = summarize(vec![10, 20, 30, 40, 50], 5).unwrap();
    assert_eq!(
        summary,
        Summary {
            n_samples: 5,
            n_unanswered: 0,
            min_ns: 10,
            max_ns: 50,
            median_ns: 30,
            mean_ns: 30,
            stddev_ns: 15,
        }
    );
    // the standard deviation is the square root of 250, rounded down
    let exact = 250f64.sqrt();
    assert!((exact - 15.81).abs() < 0.01);
    assert_eq!(exact.floor() as u64, summary.stddev_ns);
}

#[test]
fn five_samples_agree_with_statrs() {
    let samples = [10u64, 20, 30, 40, 50];
    let summary = summarize(samples.to_vec(), 5).unwrap();
    let as_floats = floats(&samples);
    let mean = statrs::statistics::Statistics::mean(&as_floats);
    let std_dev = statrs::statistics::Statistics::std_dev(&as_floats);
    assert_eq!(mean, 30.0);
    assert!((std_dev - 250f64.sqrt()).abs() < 1e-9);
    assert_eq!(mean.floor() as u64, summary.mean_ns);
    assert_eq!(std_dev.floor() as u64, summary.stddev_ns);
}

#[test]
fn a_single_sample_has_no_deviation() {
    let summary = summarize(vec![42], 1).unwrap();
    assert_eq!(
        summary,
        Summary {
            n_samples: 1,
            n_unanswered: 0,
            min_ns: 42,
            max_ns: 42,
            median_ns: 42,
            mean_ns: 42,
            stddev_ns: 0,
        }
    );
}

#[test]
fn no_samples_have_no_statistics() {
    assert_eq!(summarize(Vec::new(), 0), None);
    assert_eq!(summarize(Vec::new(), 9), None);
}

#[test]
fn samples_are_put_in_order_first() {
    let summary = summarize(vec![50, 10, 40, 20, 30], 5).unwrap();
    assert_eq!(summary.min_ns, 10);
    assert_eq!(summary.max_ns, 50);
    assert_eq!(summary.median_ns, 30);
    let three = summarize(vec![3, 1, 2], 3).unwrap();
    assert_eq!((three.min_ns, three.median_ns, three.max_ns), (1, 2, 3));
    assert_eq!((three.mean_ns, three.stddev_ns), (2, 1));
}

#[test]
fn median_of_an_even_number_is_the_sample_at_half_the_count() {
    let four = summarize(vec![4, 1, 3, 2], 4).unwrap();
    assert_eq!(four.median_ns, 3);
    assert_eq!(four.mean_ns, 2);
    assert_eq!(four.stddev_ns, 1);
    let two = summarize(vec![1, 2], 2).unwrap();
    assert_eq!(two.median_ns, 2);
    assert_eq!(two.mean_ns, 1);
    assert_eq!(two.stddev_ns, 0);
}

#[test]
fn equal_samples_have_no_deviation() {
    let summary = summarize(vec![7, 7, 7, 7], 4).unwrap();
    assert_eq!((summary.mean_ns, summary.stddev_ns, summary.median_ns), (7, 0, 7));
    let largest = summarize(vec![u64::MAX, u64::MAX, u64::MAX], 3).unwrap();
    assert_eq!(largest.mean_ns, u64::MAX);
    assert_eq!(largest.stddev_ns, 0);
}

#[test]
fn the_largest_samples_are_exact() {
    let two = summarize(vec![u64::MAX, 0], 2).unwrap();
    assert_eq!(two.min_ns, 0);
    assert_eq!(two.max_ns, u64::MAX);
    assert_eq!(two.median_ns, u64::MAX);
    assert_eq!(two.mean_ns, 9223372036854775807);
    assert_eq!(two.stddev_ns, 13043817825332782211);
    let eight = summarize(vec![u64::MAX, 0, u64::MAX, 0, u64::MAX, 0, u64::MAX, 0], 8).unwrap();
    assert_eq!(eight.mean_ns, 9223372036854775807);
    assert_eq!(eight.stddev_ns, 9860199460760538698);
}

#[test]
fn millisecond_samples_agree_with_statrs() {
    let samples = [1_234_567u64, 2_345_678, 987_654, 5_000_000, 3_141_592, 2_718_281, 1_000_000];
    let summary = summarize(samples.to_vec(), 7).unwrap();
    assert_eq!(summary.min_ns, 987_654);
    assert_eq!(summary.max_ns, 5_000_000);
    assert_eq!(summary.median_ns, 2_345_678);
    assert_eq!(summary.mean_ns, 2_346_824);
    assert_eq!(summary.stddev_ns, 1_455_299);
    let as_floats = floats(&samples);
    let mean = statrs::statistics::Statistics::mean(&as_floats);
    let std_dev = statrs::statistics::Statistics::std_dev(&as_floats);
    assert_eq!(mean.floor() as u64, summary.mean_ns);
    assert_eq!(std_dev.floor() as u64, summary.stddev_ns);
}

#[test]
fn unanswered_queries_are_counted() {
    let summary = summarize(vec![5, 6, 7], 10).unwrap();
    assert_eq!(summary.n_samples, 3);
    assert_eq!(summary.n_unanswered, 7);
}

#[test]
fn a_full_run_of_the_largest_size_is_summarized() {
    let samples: Vec<u64> = (0..65535u64).map(|i| i * 1000).collect();
    let summary = summarize(samples, 65535).unwrap();
    assert_eq!(summary.n_samples, 65535);
    assert_eq!(summary.n_unanswered, 0);
    assert_eq!(summary.min_ns, 0);
    assert_eq!(summary.max_ns, 65_534_000);
    assert_eq!(summary.median_ns, 32_767_000);
    assert_eq!(summary.mean_ns, 32_767_000);
    assert_eq!(summary.stddev_ns, 18_918_469);
}
