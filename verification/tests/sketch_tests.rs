use metrics_core::metrics::sketch::{QuantileSketch, QUANTILE_SCALE};

#[test]
fn empty_sketch_answers_nothing() {
    let sk = QuantileSketch::new();
    assert_eq!(0, sk.len());
    assert_eq!(None, sk.query(500_000));
}

#[test]
fn single_value_answers_every_quantile() {
    let mut sk = QuantileSketch::new();
    sk.insert(42);
    assert_eq!(Some(42), sk.query(1));
    assert_eq!(Some(42), sk.query(500_000));
    assert_eq!(Some(42), sk.query(QUANTILE_SCALE - 1));
}

#[test]
fn queries_answer_by_exact_rank() {
    let mut sk = QuantileSketch::new();
    // Inserted out of order; the sketch keeps them sorted.
    for v in [30i64, 10, 50, 20, 40] {
        sk.insert(v);
    }
    assert_eq!(5, sk.len());
    // Ranks over 5 samples: ceil(q * 5 / 1e6).
    assert_eq!(Some(10), sk.query(200_000));
    assert_eq!(Some(20), sk.query(400_000));
    assert_eq!(Some(30), sk.query(500_000));
    assert_eq!(Some(30), sk.query(600_000));
    assert_eq!(Some(50), sk.query(999_999));
}

#[test]
fn duplicates_are_all_kept() {
    let mut sk = QuantileSketch::new();
    for v in [5i64, 5, 5, 1, 9] {
        sk.insert(v);
    }
    assert_eq!(5, sk.len());
    assert_eq!(Some(5), sk.query(500_000));
    assert_eq!(Some(1), sk.query(100_000));
    assert_eq!(Some(9), sk.query(900_000));
}

#[test]
fn reset_forgets_everything() {
    let mut sk = QuantileSketch::new();
    sk.insert(7);
    sk.insert(8);
    sk.reset();
    assert_eq!(0, sk.len());
    assert_eq!(None, sk.query(500_000));
    sk.insert(3);
    assert_eq!(Some(3), sk.query(500_000));
}
