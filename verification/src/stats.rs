use vstd::prelude::*;

verus! {

/// Largest magnitude a statistical sample may have.
///
/// Together with [`MAX_SAMPLE_COUNT`] this bound keeps every intermediate
/// value of the variance computation inside `i128`.
pub const MAX_SAMPLE_MAGNITUDE: i64 = 0x7FFF_FFFF;

/// Largest number of samples a statistic may be computed over.
///
/// Together with [`MAX_SAMPLE_MAGNITUDE`] this bound keeps every intermediate
/// value of the variance computation inside `i128`.
pub const MAX_SAMPLE_COUNT: usize = 0x4000_0000;

/// An exact rational number; the denominator is positive and the fraction is
/// not necessarily in lowest terms.
#[derive(Clone, Copy, Debug, PartialEq, Eq, Structural)]
pub struct Rational {
    /// Numerator.
    pub num: i128,
    /// Denominator, strictly positive.
    pub den: i128,
}

/// The sum of the samples.
pub open spec fn spec_sum(s: Seq<i64>) -> int
    decreases s.len(),
{
    if s.len() == 0 {
        0
    } else {
        spec_sum(s.drop_last()) + s.last()
    }
}

/// The sum of the squared samples.
pub open spec fn spec_sum_sq(s: Seq<i64>) -> int
    decreases s.len(),
{
    if s.len() == 0 {
        0
    } else {
        spec_sum_sq(s.drop_last()) + s.last() * s.last()
    }
}

/// The sum of `(a * x - b)^2` over the samples `x`.
///
/// With `a` the sample count and `b` the sample sum, the term `a * x - b` is
/// the deviation of `x` from the mean, scaled by the count; this sum is the
/// bridge between the closed variance formula and its definition as the
/// average squared deviation.
pub open spec fn spec_sum_sq_dev(s: Seq<i64>, a: int, b: int) -> int
    decreases s.len(),
{
    if s.len() == 0 {
        0
    } else {
        spec_sum_sq_dev(s.drop_last(), a, b) + (a * s.last() - b) * (a * s.last() - b)
    }
}

/// The absolute value of a sample.
pub open spec fn spec_abs(x: i64) -> int {
    if x < 0 {
        -(x as int)
    } else {
        x as int
    }
}

/// The sample selected by the magnitude-maximum rule: the element of largest
/// absolute value, the later one on ties.
pub open spec fn spec_abs_max(s: Seq<i64>) -> i64
    recommends
        s.len() > 0,
    decreases s.len(),
{
    if s.len() <= 1 {
        s[0]
    } else {
        let m = spec_abs_max(s.drop_last());
        if spec_abs(s.last()) >= spec_abs(m) {
            s.last()
        } else {
            m
        }
    }
}

/// The sample selected by the magnitude-minimum rule: the element of smallest
/// absolute value, the earlier one on ties.
pub open spec fn spec_abs_min(s: Seq<i64>) -> i64
    recommends
        s.len() > 0,
    decreases s.len(),
{
    if s.len() <= 1 {
        s[0]
    } else {
        let m = spec_abs_min(s.drop_last());
        if spec_abs(s.last()) < spec_abs(m) {
            s.last()
        } else {
            m
        }
    }
}

/// A sum of squares is never negative.
proof fn lemma_sum_sq_dev_nonneg(s: Seq<i64>, a: int, b: int)
    ensures
        spec_sum_sq_dev(s, a, b) >= 0,
    decreases s.len(),
{
    if s.len() > 0 {
        lemma_sum_sq_dev_nonneg(s.drop_last(), a, b);
        let d = a * s.last() - b;
        assert(d * d >= 0) by (nonlinear_arith);
    }
}

/// Expansion of the scaled squared deviations: summing `(a*x - b)^2` over the
/// samples equals `a^2 * sum_sq - 2*a*b * sum + len * b^2`.
proof fn lemma_sum_sq_dev_expand(s: Seq<i64>, a: int, b: int)
    ensures
        spec_sum_sq_dev(s, a, b) == a * a * spec_sum_sq(s) - 2 * a * b * spec_sum(s) + s.len()
            * (b * b),
    decreases s.len(),
{
    if s.len() > 0 {
        lemma_sum_sq_dev_expand(s.drop_last(), a, b);
        let x = s.last() as int;
        let n = s.len() as int;
        let s1 = spec_sum(s);
        let s2 = spec_sum_sq(s);
        let s1p = spec_sum(s.drop_last());
        let s2p = spec_sum_sq(s.drop_last());
        let dev = spec_sum_sq_dev(s, a, b);
        let devp = spec_sum_sq_dev(s.drop_last(), a, b);
        assert(dev == a * a * s2 - 2 * a * b * s1 + n * (b * b)) by (nonlinear_arith)
            requires
                dev == devp + (a * x - b) * (a * x - b),
                devp == a * a * s2p - 2 * a * b * s1p + (n - 1) * (b * b),
                s2 == s2p + x * x,
                s1 == s1p + x,
        ;
    }
}

/// The numerator of the population variance, `len * sum_sq - sum^2`, is never
/// negative: scaled by `len` it is a sum of squares.
pub proof fn lemma_variance_numerator_nonneg(s: Seq<i64>)
    requires
        s.len() > 0,
    ensures
        s.len() * spec_sum_sq(s) - spec_sum(s) * spec_sum(s) >= 0,
{
    let n = s.len() as int;
    let s1 = spec_sum(s);
    let s2 = spec_sum_sq(s);
    lemma_sum_sq_dev_nonneg(s, n, s1);
    lemma_sum_sq_dev_expand(s, n, s1);
    let dev = spec_sum_sq_dev(s, n, s1);
    assert(n * s2 - s1 * s1 >= 0) by (nonlinear_arith)
        requires
            dev >= 0,
            dev == n * n * s2 - 2 * n * s1 * s1 + n * (s1 * s1),
            n > 0,
    ;
}

/// The integer square root: the largest `r` with `r^2 <= n`.
///
/// The bound on `n` is two to the 126th power, so that the squares taken
/// while searching stay inside `u128`.
pub fn isqrt(n: u128) -> (r: u128)
    requires
        n < 85070591730234615865843651857942052864u128,
    ensures
        r * r <= n,
        n < (r + 1) * (r + 1),
{
    let mut lo: u128 = 0;
    let mut hi: u128 = 9223372036854775808u128;
    proof {
        assert(9223372036854775808u128 * 9223372036854775808u128
            == 85070591730234615865843651857942052864u128);
    }
    while lo + 1 < hi
        invariant
            lo < hi <= 9223372036854775808u128,
            lo * lo <= n,
            n < hi * hi,
        decreases hi - lo,
    {
        let mid = lo + (hi - lo) / 2;
        proof {
            assert(mid * mid < 85070591730234615865843651857942052864u128)
                by (nonlinear_arith)
                requires
                    mid < 9223372036854775808u128,
            ;
        }
        if mid * mid <= n {
            lo = mid;
        } else {
            hi = mid;
        }
    }
    lo
}

/// Descriptive statistics of a finite sample, computed once from the whole
/// sample.
///
/// `min` and `max` select extrema by comparing absolute values, not by the
/// signed order: this magnitude-based rule is deliberate, and coincides
/// with the signed rule whenever no sample is negative. `mean` and `variance` are exact
/// rationals; `standard_deviation` is a floor integer square root of the
/// variance: whenever the variance numerator is small enough for the
/// millionfold-scaled square root to stay in range, the result is exact to
/// within one millionth of the count's reciprocal, and to within the
/// count's reciprocal otherwise. The empty sample has zero `sum` and all
/// optional fields absent.
#[derive(Clone, Copy, Debug, PartialEq, Eq, Structural)]
pub struct Statistic {
    /// Number of samples.
    pub length: usize,
    /// Sample of largest magnitude; absent when the sample is empty.
    pub max: Option<i64>,
    /// Arithmetic mean; absent when the sample is empty.
    pub mean: Option<Rational>,
    /// Sample of smallest magnitude; absent when the sample is empty.
    pub min: Option<i64>,
    /// Square root of the population variance; absent when the sample is
    /// empty.
    pub standard_deviation: Option<Rational>,
    /// Arithmetic sum of the samples.
    pub sum: i64,
    /// Population variance (squared deviations averaged over `length`, not
    /// `length - 1`); absent when the sample is empty.
    pub variance: Option<Rational>,
}

/// Whether every sample is small enough for the exact statistics to be
/// computed in fixed-width integers.
pub open spec fn samples_bounded(s: Seq<i64>) -> bool {
    forall|i: int|
        0 <= i < s.len() ==> -MAX_SAMPLE_MAGNITUDE <= #[trigger] s[i] <= MAX_SAMPLE_MAGNITUDE
}

/// What [`Statistic::new`] computes from a sample, field by field: the
/// exact counts, sum, magnitude extrema, rational mean and population
/// variance, and the floor-square-root standard deviation.
pub open spec fn spec_statistic_of(data: Seq<i64>, r: Statistic) -> bool {
    &&& r.length == data.len()
    &&& r.sum == spec_sum(data)
    &&& (data.len() == 0 ==> r.max is None && r.min is None && r.mean is None && r.variance
        is None && r.standard_deviation is None)
    &&& (data.len() > 0 ==> {
        &&& r.max == Some(spec_abs_max(data))
        &&& r.min == Some(spec_abs_min(data))
        &&& r.mean == Some(Rational { num: spec_sum(data) as i128, den: data.len() as i128 })
        &&& r.variance == Some(
            Rational {
                num: (data.len() * spec_sum_sq(data) - spec_sum(data) * spec_sum(data)) as i128,
                den: (data.len() * data.len()) as i128,
            },
        )
        &&& match r.standard_deviation {
            Some(sd) => {
                let v = data.len() * spec_sum_sq(data) - spec_sum(data) * spec_sum(data);
                let sc: int = if v <= 85070591730234615865843651 {
                    1000000
                } else {
                    1
                };
                &&& sd.den == data.len() * sc
                &&& sd.num >= 0
                &&& sd.num * sd.num <= v * (sc * sc)
                &&& v * (sc * sc) < (sd.num + 1) * (sd.num + 1)
            },
            None => false,
        }
    })
}

impl Statistic {
    /// Compute the descriptive statistics of `data`.
    ///
    /// The bounds on the sample count and magnitude are what lets the exact
    /// rational arithmetic stay inside the machine's integer widths.
    pub fn new(data: &Vec<i64>) -> (r: Statistic)
        requires
            data@.len() <= MAX_SAMPLE_COUNT,
            samples_bounded(data@),
        ensures
            spec_statistic_of(data@, r),
    {
        let n = data.len();
        let mut sum: i64 = 0;
        let mut sum_sq: i128 = 0;
        let mut i: usize = 0;
        while i < n
            invariant
                data@.len() == n <= MAX_SAMPLE_COUNT,
                samples_bounded(data@),
                0 <= i <= n,
                sum == spec_sum(data@.subrange(0, i as int)),
                sum_sq == spec_sum_sq(data@.subrange(0, i as int)),
                -(i as int) * 2147483647 <= sum as int <= (i as int) * 2147483647,
                0 <= sum_sq as int <= (i as int) * 4611686014132420609,
            decreases n - i,
        {
            let x = data[i];
            proof {
                assert(data@.subrange(0, i + 1).drop_last() =~= data@.subrange(0, i as int));
                assert(x * x <= 4611686014132420609 && x * x >= 0) by (nonlinear_arith)
                    requires
                        -2147483647 <= x as int <= 2147483647,
                ;
            }
            sum = sum + x;
            sum_sq = sum_sq + (x as i128) * (x as i128);
            i = i + 1;
        }
        proof {
            assert(data@.subrange(0, n as int) =~= data@);
        }
        if n == 0 {
            Statistic {
                length: 0,
                max: None,
                mean: None,
                min: None,
                standard_deviation: None,
                sum,
                variance: None,
            }
        } else {
            let mut mx: i64 = data[0];
            let mut mn: i64 = data[0];
            let mut j: usize = 1;
            while j < n
                invariant
                    data@.len() == n,
                    samples_bounded(data@),
                    1 <= j <= n,
                    mx == spec_abs_max(data@.subrange(0, j as int)),
                    mn == spec_abs_min(data@.subrange(0, j as int)),
                    -2147483647 <= mx <= 2147483647,
                    -2147483647 <= mn <= 2147483647,
                decreases n - j,
            {
                let x = data[j];
                proof {
                    assert(data@.subrange(0, j + 1).drop_last() =~= data@.subrange(0, j as int));
                }
                let x_abs = if x < 0 { -x } else { x };
                let mx_abs = if mx < 0 { -mx } else { mx };
                let mn_abs = if mn < 0 { -mn } else { mn };
                if x_abs >= mx_abs {
                    mx = x;
                }
                if x_abs < mn_abs {
                    mn = x;
                }
                j = j + 1;
            }
            proof {
                assert(data@.subrange(0, n as int) =~= data@);
            }
            proof {
                let nn = n as int;
                let s1 = spec_sum(data@);
                let s2 = spec_sum_sq(data@);
                lemma_variance_numerator_nonneg(data@);
                assert(0 <= nn * s2 <= 85070591730234615865843651857942052863int)
                    by (nonlinear_arith)
                    requires
                        0 <= s2 <= nn * 4611686014132420609,
                        0 <= nn <= 1073741824,
                ;
                assert(0 <= s1 * s1 <= 85070591730234615865843651857942052863int)
                    by (nonlinear_arith)
                    requires
                        -(nn * 2147483647) <= s1 <= nn * 2147483647,
                        0 <= nn <= 1073741824,
                ;
                assert(0 <= nn * nn <= 1152921504606846976int) by (nonlinear_arith)
                    requires
                        0 <= nn <= 1073741824,
                ;
            }
            let var_num: i128 = (n as i128) * sum_sq - (sum as i128) * (sum as i128);
            // Scale the numerator by a million squared where that fits the
            // square root's domain, for a millionth-fine result.
            let ghost v = data@.len() * spec_sum_sq(data@) - spec_sum(data@) * spec_sum(
                data@,
            );
            proof {
                assert(var_num == v);
            }
            let sd: Rational = if var_num as u128 <= 85070591730234615865843651u128 {
                let scaled = var_num as u128 * 1000000000000u128;
                proof {
                    assert(scaled == v * 1000000000000);
                }
                let sd_num = isqrt(scaled);
                proof {
                    assert(sd_num < 9223372036854775809u128) by (nonlinear_arith)
                        requires
                            sd_num * sd_num <= 85070591730234615865843651857942052863u128,
                    ;
                    assert(sd_num * sd_num <= v * (1000000 * 1000000));
                    assert(v * (1000000 * 1000000) < (sd_num + 1) * (sd_num + 1));
                    assert(v <= 85070591730234615865843651);
                }
                Rational { num: sd_num as i128, den: (n as i128) * 1000000 }
            } else {
                let sd_num = isqrt(var_num as u128);
                proof {
                    assert(sd_num < 9223372036854775809u128) by (nonlinear_arith)
                        requires
                            sd_num * sd_num <= 85070591730234615865843651857942052863u128,
                    ;
                    assert(!(v <= 85070591730234615865843651));
                    assert(sd_num * sd_num <= v);
                    assert(v < (sd_num + 1) * (sd_num + 1));
                }
                Rational { num: sd_num as i128, den: n as i128 }
            };
            proof {
                let sc: int = if v <= 85070591730234615865843651 {
                    1000000int
                } else {
                    1int
                };
                if v <= 85070591730234615865843651 {
                    assert(sc == 1000000);
                    assert(sc * sc == 1000000000000);
                    assert(sd.den == data@.len() * sc);
                    assert(sd.num * sd.num <= v * (sc * sc));
                    assert(v * (sc * sc) < (sd.num + 1) * (sd.num + 1));
                } else {
                    assert(sc == 1);
                    assert(sc * sc == 1);
                    assert(sd.den == data@.len() * sc);
                    assert(sd.num * sd.num <= v * (sc * sc));
                    assert(v * (sc * sc) < (sd.num + 1) * (sd.num + 1));
                }
                assert(sd.num >= 0);
            }
            Statistic {
                length: n,
                max: Some(mx),
                mean: Some(Rational { num: sum as i128, den: n as i128 }),
                min: Some(mn),
                standard_deviation: Some(sd),
                sum,
                variance: Some(
                    Rational { num: var_num, den: (n as i128) * (n as i128) },
                ),
            }
        }
    }
}

} // verus!
