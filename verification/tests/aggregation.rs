use boar::error::BoarError;
use boar::stats::{Ratio, Stats};

fn stats_of(samples: Vec<u64>) -> Stats {
    Stats::new("TestKind".to_string(), samples)
}

#[test]
fn percentile_100_is_max_and_0_is_min() {
    let s = stats_of(vec![7, 3, 9, 1, 4]);
    assert_eq!(s.percentile(100).unwrap(), Ratio { num: 900, den: 100 });
    assert_eq!(s.percentile(0).unwrap(), Ratio { num: 100, den: 100 });
}

#[test]
fn percentile_interpolates_linearly() {
    // Sorted: [10, 20, 30, 40]; rank of p25 is 0.75, so the value is
    // 10 * 0.25 + 20 * 0.75 = 17.5, i.e. 1750/100.
    let s = stats_of(vec![40, 10, 30, 20]);
    assert_eq!(s.percentile(25).unwrap(), Ratio { num: 1750, den: 100 });
    assert_eq!(s.percentile(50).unwrap(), Ratio { num: 2500, den: 100 });
    assert_eq!(s.percentile(75).unwrap(), Ratio { num: 3250, den: 100 });
}

#[test]
fn percentile_on_empty_fails_with_empty_dataset() {
    let s = stats_of(Vec::new());
    assert_eq!(s.percentile(50).unwrap_err(), BoarError::EmptyDataset);
}

#[test]
fn mean_on_empty_fails_with_empty_dataset() {
    let s = stats_of(Vec::new());
    assert_eq!(s.mean().unwrap_err(), BoarError::EmptyDataset);
}

#[test]
fn aggregate_on_empty_fails_with_empty_dataset() {
    let s = stats_of(Vec::new());
    assert_eq!(s.aggregate().unwrap_err(), BoarError::EmptyDataset);
}

#[test]
fn mean_is_exact() {
    let s = stats_of(vec![1, 2, 3]);
    assert_eq!(s.mean().unwrap(), Ratio { num: 6, den: 3 });
}

#[test]
fn aggregate_exact_values() {
    // Sorted: [10, 20, 30, 40].
    let s = stats_of(vec![40, 10, 30, 20]);
    let a = s.aggregate().unwrap();
    assert_eq!(a.p0, Ratio { num: 1000, den: 100 });
    assert_eq!(a.p25, Ratio { num: 1750, den: 100 });
    assert_eq!(a.p50, Ratio { num: 2500, den: 100 });
    assert_eq!(a.median, Ratio { num: 2500, den: 100 });
    assert_eq!(a.p75, Ratio { num: 3250, den: 100 });
    assert_eq!(a.p100, Ratio { num: 4000, den: 100 });
    assert_eq!(a.mean, Some(Ratio { num: 100, den: 4 }));
    // Trimean: (17.5 + 2 * 25 + 32.5) / 4 = 25, i.e. 10000/400.
    assert_eq!(a.trimean, Ratio { num: 10000, den: 400 });
}

#[test]
fn cdf_collapses_duplicates() {
    // The CDF of [1, 1, 2] has exactly two pairs: (1, 2/3) and (2, 3/3).
    let s = stats_of(vec![1, 1, 2]);
    let curve = s.cdf();
    assert_eq!(curve.len(), 2);
    assert_eq!(curve[0].value, 1);
    assert_eq!(curve[0].count, 2);
    assert_eq!(curve[0].total, 3);
    assert_eq!(curve[1].value, 2);
    assert_eq!(curve[1].count, 3);
    assert_eq!(curve[1].total, 3);
}

#[test]
fn cdf_ends_at_one_and_is_strictly_increasing() {
    let s = stats_of(vec![5, 2, 8, 2, 5, 9]);
    let curve = s.cdf();
    assert!(!curve.is_empty());
    let last = &curve[curve.len() - 1];
    assert_eq!(last.count, last.total);
    for w in curve.windows(2) {
        assert!(w[0].value < w[1].value);
        assert!(w[0].count < w[1].count);
    }
}

#[test]
fn cdf_of_empty_is_empty() {
    let s = stats_of(Vec::new());
    assert!(s.cdf().is_empty());
}

#[test]
fn single_sample_aggregate() {
    let s = stats_of(vec![42]);
    let a = s.aggregate().unwrap();
    assert_eq!(a.p0, Ratio { num: 4200, den: 100 });
    assert_eq!(a.p50, Ratio { num: 4200, den: 100 });
    assert_eq!(a.p100, Ratio { num: 4200, den: 100 });
    assert_eq!(a.mean, Some(Ratio { num: 42, den: 1 }));
    let curve = s.cdf();
    assert_eq!(curve.len(), 1);
    assert_eq!(curve[0].count, 1);
    assert_eq!(curve[0].total, 1);
}
