use metrics_core::metrics::summary::{ConfigError, Summary};
use metrics_core::metrics::{MetricType, TypedMetric};

#[test]
fn basic() {
    let mut summary = Summary::new(5, 10, vec![500_000, 900_000, 990_000], 10_000, 0).unwrap();
    summary.observe(5, 0);
    summary.observe(15, 0);
    summary.observe(25, 0);

    let (s, c, q) = summary.get();
    assert_eq!(45, s);
    assert_eq!(3, c);

    for elem in q.iter() {
        println!("Vec<{}, {}>", elem.0, elem.1);
    }
}

#[test]
fn example_scenario() {
    let mut summary = Summary::new(5, 10, vec![500_000, 900_000, 990_000], 10_000, 0).unwrap();
    summary.observe(5, 0);
    summary.observe(15, 0);
    summary.observe(25, 0);

    let (s, c, q) = summary.get();
    assert_eq!(45, s);
    assert_eq!(3, c);
    assert_eq!(vec![(500_000, 15), (900_000, 25), (990_000, 25)], q);
}

#[test]
fn empty_summary_reports_no_quantiles() {
    let summary = Summary::new(3, 60, vec![500_000], 10_000, 1_000).unwrap();
    let (s, c, q) = summary.get();
    assert_eq!(0, s);
    assert_eq!(0, c);
    assert!(q.is_empty());
}

#[test]
fn rejects_zero_buckets() {
    let r = Summary::new(0, 10, vec![500_000], 10_000, 0);
    assert_eq!(Err(ConfigError::InvalidBucketCount), r.map(|_| ()));
}

#[test]
fn rejects_quantile_zero() {
    let r = Summary::new(5, 10, vec![500_000, 0], 10_000, 0);
    assert_eq!(Err(ConfigError::InvalidQuantile), r.map(|_| ()));
}

#[test]
fn rejects_quantile_one_or_more() {
    let r = Summary::new(5, 10, vec![1_000_000], 10_000, 0);
    assert_eq!(Err(ConfigError::InvalidQuantile), r.map(|_| ()));
    let r = Summary::new(5, 10, vec![2_500_000], 10_000, 0);
    assert_eq!(Err(ConfigError::InvalidQuantile), r.map(|_| ()));
}

#[test]
fn rejects_zero_target_error() {
    let r = Summary::new(5, 10, vec![500_000], 0, 0);
    assert_eq!(Err(ConfigError::InvalidTargetError), r.map(|_| ()));
}

#[test]
fn totals_are_exact_and_monotone() {
    let mut summary = Summary::new(4, 40, vec![500_000], 10_000, 0).unwrap();
    let mut expected_sum: i128 = 0;
    let mut last_count: u64 = 0;
    for i in 1..=100i64 {
        summary.observe(i, 0);
        expected_sum += i as i128;
        let (s, c, _) = summary.get();
        assert_eq!(expected_sum, s);
        assert_eq!(last_count + 1, c);
        last_count = c;
    }
}

#[test]
fn negative_values_sum_exactly() {
    let mut summary = Summary::new(2, 10, vec![500_000], 10_000, 0).unwrap();
    summary.observe(-7, 0);
    summary.observe(3, 0);
    summary.observe(-16, 0);
    let (s, c, q) = summary.get();
    assert_eq!(-20, s);
    assert_eq!(3, c);
    // median of {-16, -7, 3} is -7
    assert_eq!(vec![(500_000, -7)], q);
}

#[test]
fn clones_share_state() {
    let mut a = Summary::new(3, 30, vec![500_000], 10_000, 0).unwrap();
    let mut b = a.clone();
    for i in 0..50i64 {
        a.observe(i, 0);
        b.observe(i, 0);
    }
    let (s_a, c_a, _) = a.get();
    let (s_b, c_b, _) = b.get();
    assert_eq!(100, c_a);
    assert_eq!(100, c_b);
    assert_eq!(2 * (0..50i64).sum::<i64>() as i128, s_a);
    assert_eq!(s_a, s_b);
}

#[test]
fn quantile_ordering_holds() {
    let mut summary =
        Summary::new(5, 100, vec![100_000, 300_000, 600_000, 950_000], 10_000, 0).unwrap();
    for v in [12i64, 3, 47, 47, 1, 88, 20, 5, 63, 30] {
        summary.observe(v, 0);
    }
    let (_, _, q) = summary.get();
    assert_eq!(4, q.len());
    for w in q.windows(2) {
        assert!(w[0].0 < w[1].0);
        assert!(w[0].1 <= w[1].1);
    }
}

#[test]
fn bounded_error_on_uniform_distribution() {
    // Values 1..=1000 observed once each: the value equals its own rank, so
    // the answer for quantile q must be exactly ceil(q * 1000) — a rank
    // error of zero, well within the configured tolerance.
    let mut summary =
        Summary::new(1, 1000, vec![10_000, 250_000, 500_000, 900_000, 990_000], 10_000, 0)
            .unwrap();
    for v in 1..=1000i64 {
        summary.observe(v, 0);
    }
    let (_, c, q) = summary.get();
    assert_eq!(1000, c);
    assert_eq!(
        vec![(10_000, 10), (250_000, 250), (500_000, 500), (900_000, 900), (990_000, 990)],
        q
    );
}

#[test]
fn window_forgetting() {
    // Window of 10 s over 5 buckets: one rotation every 2 s. Old large
    // values observed at t = 0 must stop affecting quantile reads once the
    // cursor has gone all the way round, while sum and count keep them.
    let mut summary = Summary::new(5, 10, vec![500_000], 10_000, 0).unwrap();
    summary.observe(1000, 0);
    summary.observe(2000, 0);
    summary.observe(3000, 0);
    let (_, _, q) = summary.get();
    assert_eq!(vec![(500_000, 2000)], q);

    summary.observe(7, 2);
    summary.observe(8, 4);
    summary.observe(9, 6);
    summary.observe(10, 8);
    summary.observe(11, 10);

    let (s, c, q) = summary.get();
    assert_eq!(8, c);
    assert_eq!(6000 + 7 + 8 + 9 + 10 + 11, s);
    // The head bucket was re-stamped at t = 10 and has seen only the latest
    // observation; the old thousands are gone from the estimate.
    assert_eq!(vec![(500_000, 11)], q);
}

#[test]
fn zero_width_slice_rotates_on_every_observe() {
    // A window shorter than the bucket count gives a slice width of zero
    // seconds, so every observation rotates; the head then carries only the
    // latest value while the totals keep them all.
    let mut summary = Summary::new(5, 2, vec![500_000], 10_000, 0).unwrap();
    summary.observe(10, 0);
    summary.observe(20, 0);
    summary.observe(30, 0);
    let (s, c, q) = summary.get();
    assert_eq!(60, s);
    assert_eq!(3, c);
    assert_eq!(vec![(500_000, 30)], q);
}

#[test]
fn clock_running_backwards_never_rotates() {
    // Stamps lie in the future of the supplied time: the head bucket is not
    // considered aged and keeps everything.
    let mut summary = Summary::new(3, 3, vec![500_000], 10_000, 1_000).unwrap();
    summary.observe(1, 0);
    summary.observe(2, 0);
    summary.observe(3, 0);
    let (s, c, q) = summary.get();
    assert_eq!(6, s);
    assert_eq!(3, c);
    assert_eq!(vec![(500_000, 2)], q);
}

#[test]
fn summary_declares_its_metric_type() {
    assert_eq!(MetricType::Summary, <Summary as TypedMetric>::metric_type());
}
