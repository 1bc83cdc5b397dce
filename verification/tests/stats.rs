use flowgen::stats::{Rational, Statistic};

fn as_f64(r: Rational) -> f64 {
    r.num as f64 / r.den as f64
}

// The empty sample: zero count and sum, every optional field absent.
#[test]
fn test_empty_sample() {
    let statistic = Statistic::new(&Vec::new());
    assert_eq!(statistic.length, 0);
    assert_eq!(statistic.sum, 0);
    assert_eq!(statistic.min, None);
    assert_eq!(statistic.max, None);
    assert_eq!(statistic.mean, None);
    assert_eq!(statistic.variance, None);
    assert_eq!(statistic.standard_deviation, None);
}

#[test]
fn test_3_values() {
    let statistic = Statistic::new(&vec![150, 50, 350]);
    assert_eq!(Some(50), statistic.min);
    assert_eq!(Some(350), statistic.max);
    assert_eq!(550, statistic.sum);
    assert_eq!(3, statistic.length);
    // mean = 550/3
    assert_eq!(statistic.mean, Some(Rational { num: 550, den: 3 }));
    assert_eq!(as_f64(statistic.mean.unwrap()), 183.33333333333334);
    // population variance = (3 * 147500 - 550^2) / 3^2 = 140000/9
    assert_eq!(statistic.variance, Some(Rational { num: 140000, den: 9 }));
    assert!((as_f64(statistic.variance.unwrap()) - 15555.555555555557).abs() < 1e-6);
    // standard deviation: the millionth-fine floor square root
    assert_eq!(
        statistic.standard_deviation,
        Some(Rational { num: 374165738, den: 3000000 })
    );
    assert!((as_f64(statistic.standard_deviation.unwrap()) - 124.72191289246472).abs() < 1e-6);
}

#[test]
fn test_3_first_values() {
    let statistic = Statistic::new(&vec![1, 2, 3]);
    assert_eq!(Some(1), statistic.min);
    assert_eq!(Some(3), statistic.max);
    assert_eq!(6, statistic.sum);
    assert_eq!(3, statistic.length);
    assert_eq!(statistic.mean, Some(Rational { num: 6, den: 3 }));
    assert_eq!(as_f64(statistic.mean.unwrap()), 2.0);
    // population variance = (3 * 14 - 36) / 9 = 6/9
    assert_eq!(statistic.variance, Some(Rational { num: 6, den: 9 }));
    assert_eq!(as_f64(statistic.variance.unwrap()), 0.6666666666666666);
    // standard deviation: the millionth-fine floor square root
    assert_eq!(
        statistic.standard_deviation,
        Some(Rational { num: 2449489, den: 3000000 })
    );
    assert!((as_f64(statistic.standard_deviation.unwrap()) - 0.816496580927726).abs() < 1e-6);
}

// The magnitude rule for the extrema: with negative samples, min and max
// select by absolute value, not by the signed order.
#[test]
fn test_magnitude_extrema() {
    let statistic = Statistic::new(&vec![-100, 5, 60]);
    assert_eq!(statistic.min, Some(5));
    assert_eq!(statistic.max, Some(-100));
}

// On ties of magnitude the later sample wins for max and the earlier one
// for min.
#[test]
fn test_magnitude_ties() {
    let statistic = Statistic::new(&vec![-7, 7]);
    assert_eq!(statistic.max, Some(7));
    assert_eq!(statistic.min, Some(-7));
}

// A perfect-square variance gives an exact standard deviation.
#[test]
fn test_exact_standard_deviation() {
    // samples 2 and 8: mean 5, variance ((2-5)^2 + (8-5)^2)/2 = 9
    let statistic = Statistic::new(&vec![2, 8]);
    assert_eq!(statistic.variance, Some(Rational { num: 36, den: 4 }));
    assert_eq!(
        statistic.standard_deviation,
        Some(Rational { num: 6000000, den: 2000000 })
    );
    assert_eq!(as_f64(statistic.standard_deviation.unwrap()), 3.0);
}
