//! What the statistics satisfy, in terms of the operations on the data alone.

use vstd::prelude::*;

use crate::arith::{log, minus, over, root, times, total, whole, Arithmetic};
use crate::num::{Num, HALF, INFINITE, ONE, ZERO};
use crate::stats::cointegration::{
    adf_of, changes, cointegration_of, half_life_of, lagged, measured_guard, momentum_of, newest, ou_fit_of,
    reversion_of, spread_of, squared_residuals, stability_of, unit_root_statistic, zscore_of,
};
use crate::stats::math::{
    block_sizes, deviations, highest, hurst_of, joint_deviations, line_of, lowest, mean_of, mean_rescaled_range,
    pearson_of, rescaled_range, rescaled_ranges, running_totals, scaling, squared_deviations, std_dev_of,
};

verus! {

/// `1e-15`
pub const NEARLY_NOTHING: u64 = 0x3cd2_03af_9ee7_5616;

/// `1e-10`
pub const HARDLY_ANYTHING: u64 = 0x3ddb_7cdf_d9d7_bdbb;

/// Is this below `1e-15`?
pub open spec fn nearly_nothing(x: Num) -> bool {
    x.less(Num { bits: NEARLY_NOTHING })
}

/// Does the division leave nothing over: is the quotient times the divisor the dividend again?
pub open spec fn divides(m: Arithmetic, a: Num, b: Num) -> bool {
    times(m, over(m, a, b), b) == a
}

/// The level of a series: the sum of its values divided by how many there are.
pub open spec fn level(m: Arithmetic, s: Seq<Num>) -> Num {
    over(m, total(m, s), whole(m, s.len() as int))
}

/// How much two series vary together: the sum of the products of their distances from their levels.
pub open spec fn covariation(m: Arithmetic, x: Seq<Num>, y: Seq<Num>) -> Num {
    total(m, Seq::new(x.len(), |i: int| times(m, minus(m, x[i], level(m, x)), minus(m, y[i], level(m, y)))))
}

/// The steps of a series, from each value to the next.
pub open spec fn steps(m: Arithmetic, s: Seq<Num>) -> Seq<Num> {
    Seq::new((s.len() - 1) as nat, |i: int| minus(m, s[i + 1], s[i]))
}

/// The values of a series from which a step leads on.
pub open spec fn starts(s: Seq<Num>) -> Seq<Num> {
    Seq::new((s.len() - 1) as nat, |i: int| s[i])
}

/// What is left of a step when the line with this slope, which goes through the level of the steps
/// at the level of the values, is taken from it.
pub open spec fn rest(m: Arithmetic, step: Num, at: Num, slope: Num, step_level: Num, value_level: Num) -> Num {
    minus(m, minus(m, step, minus(m, step_level, times(m, slope, value_level))), times(m, slope, at))
}

proof fn lemma_mean_is_level(m: Arithmetic, s: Seq<Num>)
    requires
        s.len() > 0,
    ensures
        mean_of(m, s) == level(m, s),
{
}

proof fn lemma_covariation(m: Arithmetic, x: Seq<Num>, y: Seq<Num>)
    requires
        x.len() == y.len(),
        x.len() > 0,
    ensures
        total(m, joint_deviations(m, x, y, mean_of(m, x), mean_of(m, y))) == covariation(m, x, y),
        total(m, squared_deviations(m, x, mean_of(m, x))) == covariation(m, x, x),
        total(m, squared_deviations(m, y, mean_of(m, y))) == covariation(m, y, y),
{
    let d = Seq::new(x.len(), |i: int| times(m, minus(m, x[i], level(m, x)), minus(m, y[i], level(m, y))));
    assert(joint_deviations(m, x, y, mean_of(m, x), mean_of(m, y)) =~= d);
    let dx = Seq::new(x.len(), |i: int| times(m, minus(m, x[i], level(m, x)), minus(m, x[i], level(m, x))));
    assert(squared_deviations(m, x, mean_of(m, x)) =~= dx);
    let dy = Seq::new(y.len(), |i: int| times(m, minus(m, y[i], level(m, y)), minus(m, y[i], level(m, y))));
    assert(squared_deviations(m, y, mean_of(m, y)) =~= dy);
}

proof fn lemma_steps(m: Arithmetic, s: Seq<Num>)
    requires
        s.len() > 1,
    ensures
        changes(m, s) == steps(m, s),
        lagged(s) == starts(s),
{
    assert(changes(m, s) =~= steps(m, s));
    assert(lagged(s) =~= starts(s));
}

/// The correlation, times the product of the roots of what each series varies by itself, is what
/// they vary together, where the division leaves nothing over. There is none where that product is
/// nearly nothing, where the lengths differ and where there are fewer than three values.
pub proof fn correlation_times_roots_is_covariation(m: Arithmetic, x: Seq<Num>, y: Seq<Num>)
    ensures
        ({
            let d = times(m, root(m, covariation(m, x, x)), root(m, covariation(m, y, y)));
            let r = pearson_of(m, x, y);
            if x.len() != y.len() || x.len() < 3 || nearly_nothing(d) {
                r.bits == 0
            } else {
                &&& r == over(m, covariation(m, x, y), d)
                &&& divides(m, covariation(m, x, y), d) ==> times(m, r, d) == covariation(m, x, y)
            }
        }),
{
    if x.len() == y.len() && x.len() >= 3 {
        lemma_covariation(m, x, y);
    }
}

/// The standard deviation squared, times the number of values, is what the series varies by itself,
/// where the square undoes the root and the division leaves nothing over.
pub proof fn deviation_squared_is_variation(m: Arithmetic, x: Seq<Num>)
    requires
        x.len() >= 2,
    ensures
        ({
            let (v, n, sd) = (covariation(m, x, x), whole(m, x.len() as int), std_dev_of(m, x));
            &&& sd == root(m, over(m, v, n))
            &&& divides(m, v, n) && times(m, root(m, over(m, v, n)), root(m, over(m, v, n))) == over(m, v, n)
                ==> times(m, times(m, sd, sd), n) == v
        }),
{
    lemma_covariation(m, x, x);
}

/// The mean times the number of values is their sum, where the division leaves nothing over.
pub proof fn mean_times_count_is_total(m: Arithmetic, x: Seq<Num>)
    requires
        x.len() > 0,
        divides(m, total(m, x), whole(m, x.len() as int)),
    ensures
        times(m, mean_of(m, x), whole(m, x.len() as int)) == total(m, x),
{
}

/// The slope of the line through two series, times what the first varies by itself, is what they
/// vary together, where the division leaves nothing over. The line goes through both levels. A first
/// series that hardly varies has a level line, and one that is too short the diagonal.
pub proof fn slope_times_variation_is_covariation(m: Arithmetic, x: Seq<Num>, y: Seq<Num>)
    ensures
        ({
            let (alpha, beta) = line_of(m, x, y);
            let v = covariation(m, x, x);
            if x.len() != y.len() || x.len() < 3 {
                alpha.bits == 0 && beta.bits == ONE
            } else if nearly_nothing(v.absolute()) {
                alpha == level(m, y) && beta.bits == 0
            } else {
                &&& beta == over(m, covariation(m, x, y), v)
                &&& divides(m, covariation(m, x, y), v) ==> times(m, beta, v) == covariation(m, x, y)
                &&& alpha == minus(m, level(m, y), times(m, beta, level(m, x)))
            }
        }),
{
    if x.len() == y.len() && x.len() >= 3 {
        lemma_covariation(m, x, y);
    }
}

proof fn lemma_residuals(m: Arithmetic, s: Seq<Num>)
    requires
        s.len() >= 4,
    ensures
        reversion_of(m, s) == line_of(m, starts(s), steps(m, s)),
        !nearly_nothing(covariation(m, starts(s), starts(s)).absolute()) ==> squared_residuals(m, s) == Seq::new(
            (s.len() - 1) as nat,
            |i: int|
                times(
                    m,
                    rest(
                        m,
                        steps(m, s)[i],
                        s[i],
                        line_of(m, starts(s), steps(m, s)).1,
                        level(m, steps(m, s)),
                        level(m, starts(s)),
                    ),
                    rest(
                        m,
                        steps(m, s)[i],
                        s[i],
                        line_of(m, starts(s), steps(m, s)).1,
                        level(m, steps(m, s)),
                        level(m, starts(s)),
                    ),
                ),
        ),
{
    lemma_steps(m, s);
    lemma_covariation(m, starts(s), steps(m, s));
    let beta = line_of(m, starts(s), steps(m, s)).1;
    let direct = Seq::new(
        (s.len() - 1) as nat,
        |i: int|
            times(
                m,
                rest(m, steps(m, s)[i], s[i], beta, level(m, steps(m, s)), level(m, starts(s))),
                rest(m, steps(m, s)[i], s[i], beta, level(m, steps(m, s)), level(m, starts(s))),
            ),
    );
    if !nearly_nothing(covariation(m, starts(s), starts(s)).absolute()) {
        assert(squared_residuals(m, s) =~= direct);
    }
}

/// The squares of what the line leaves of the steps.
pub open spec fn rest_squares(m: Arithmetic, s: Seq<Num>, slope: Num) -> Seq<Num> {
    let d = steps(m, s);
    Seq::new(
        d.len(),
        |i: int|
            times(
                m,
                rest(m, d[i], s[i], slope, level(m, d), level(m, starts(s))),
                rest(m, d[i], s[i], slope, level(m, d), level(m, starts(s))),
            ),
    )
}

/// The unit-root statistic, times the standard error of the slope, is the slope of the steps over
/// the values they start from. The error is the root of the mean square of what the line leaves,
/// divided by what the values vary about their own level. Divisions are taken to leave nothing over.
pub proof fn statistic_times_error_is_slope(m: Arithmetic, s: Seq<Num>)
    requires
        s.len() >= 30,
    ensures
        ({
            let (x, d) = (starts(s), steps(m, s));
            let v = covariation(m, x, x);
            let slope = over(m, covariation(m, x, d), v);
            let left = level(m, rest_squares(m, s, slope));
            let error = root(m, over(m, left, v));
            if nearly_nothing(v) {
                adf_of(m, s).0.bits == 0 && !adf_of(m, s).1
            } else if nearly_nothing(left) || nearly_nothing(error) {
                adf_of(m, s).0.bits == 0 && !adf_of(m, s).1
            } else {
                &&& adf_of(m, s).0 == over(m, slope, error)
                &&& divides(m, slope, error) ==> times(m, adf_of(m, s).0, error) == slope
                &&& adf_of(m, s).1 <==> adf_of(m, s).0.less(Num { bits: 0xc006_e147_ae14_7ae1 })
            }
        }),
{
    lemma_residuals(m, s);
    lemma_steps(m, s);
    lemma_covariation(m, starts(s), steps(m, s));
    let v = covariation(m, starts(s), starts(s));
    if !nearly_nothing(v.absolute()) {
        let slope = over(m, covariation(m, starts(s), steps(m, s)), v);
        assert(line_of(m, starts(s), steps(m, s)).1 == slope);
        assert(squared_residuals(m, s) =~= rest_squares(m, s, slope));
    }
}

/// Does the second series run at another level than the first and otherwise alike, and does the
/// arithmetic see that? The steps are the same, so are the distances from the level, and so is what
/// any line leaves of the steps.
pub open spec fn runs_alike(m: Arithmetic, s: Seq<Num>, t: Seq<Num>) -> bool {
    &&& s.len() == t.len()
    &&& steps(m, t) == steps(m, s)
    &&& forall|i: int|
        0 <= i < s.len() - 1 ==> minus(m, #[trigger] t[i], level(m, starts(t))) == minus(
            m,
            s[i],
            level(m, starts(s)),
        )
    &&& forall|i: int, slope: Num|
        0 <= i < s.len() - 1 ==> #[trigger] rest(
            m,
            steps(m, s)[i],
            t[i],
            slope,
            level(m, steps(m, s)),
            level(m, starts(t)),
        ) == rest(m, steps(m, s)[i], s[i], slope, level(m, steps(m, s)), level(m, starts(s)))
}

/// The unit-root statistic and the half-life do not depend on the level of the series: the same
/// number added to every value leaves them as they are.
pub proof fn statistic_does_not_depend_on_the_level(m: Arithmetic, s: Seq<Num>, t: Seq<Num>)
    requires
        runs_alike(m, s, t),
        s.len() >= 4,
    ensures
        unit_root_statistic(m, t) == unit_root_statistic(m, s),
        adf_of(m, t) == adf_of(m, s),
        half_life_of(m, t) == half_life_of(m, s),
{
    lemma_steps(m, s);
    lemma_steps(m, t);
    lemma_covariation(m, starts(s), steps(m, s));
    lemma_covariation(m, starts(t), steps(m, t));
    let d = steps(m, s);
    let (xs, xt) = (starts(s), starts(t));
    assert forall|i: int| 0 <= i < xs.len() implies minus(m, #[trigger] xt[i], level(m, xt)) == minus(
        m,
        xs[i],
        level(m, xs),
    ) by {
        assert(minus(m, t[i], level(m, xt)) == minus(m, s[i], level(m, xs)));
    }
    assert(Seq::new(xt.len(), |i: int| times(m, minus(m, xt[i], level(m, xt)), minus(m, xt[i], level(m, xt))))
        =~= Seq::new(xs.len(), |i: int| times(m, minus(m, xs[i], level(m, xs)), minus(m, xs[i], level(m, xs)))));
    assert(covariation(m, xt, xt) == covariation(m, xs, xs));
    assert(Seq::new(xt.len(), |i: int| times(m, minus(m, xt[i], level(m, xt)), minus(m, d[i], level(m, d))))
        =~= Seq::new(xs.len(), |i: int| times(m, minus(m, xs[i], level(m, xs)), minus(m, d[i], level(m, d)))));
    assert(covariation(m, xt, d) == covariation(m, xs, d));
    let v = covariation(m, xs, xs);
    assert(line_of(m, xt, d).1 == line_of(m, xs, d).1);
    lemma_residuals(m, s);
    lemma_residuals(m, t);
    if !nearly_nothing(v.absolute()) {
        let slope = line_of(m, xs, d).1;
        assert(rest_squares(m, t, slope) =~= rest_squares(m, s, slope)) by {
            assert forall|i: int| 0 <= i < d.len() implies rest_squares(m, t, slope)[i] == rest_squares(
                m,
                s,
                slope,
            )[i] by {
                assert(rest(m, d[i], t[i], slope, level(m, d), level(m, xt)) == rest(
                    m,
                    d[i],
                    s[i],
                    slope,
                    level(m, d),
                    level(m, xs),
                ));
            }
        }
        assert(squared_residuals(m, t) =~= rest_squares(m, t, slope));
        assert(squared_residuals(m, s) =~= rest_squares(m, s, slope));
    }
}

/// The half-life, times the slope of the steps over the values, is minus the logarithm of two, where
/// the division leaves nothing over. It is infinite where the slope is not below zero or hardly
/// anything, and where there are fewer than ten values.
pub proof fn half_life_times_slope_is_log_two(m: Arithmetic, s: Seq<Num>)
    ensures
        ({
            let slope = line_of(m, starts(s), steps(m, s)).1;
            let h = half_life_of(m, s);
            let ln2 = log(m, Num { bits: 0x4000_0000_0000_0000 });
            if s.len() < 10 || (Num { bits: ZERO }).at_most(slope) || slope.absolute().less(
                Num { bits: HARDLY_ANYTHING },
            ) {
                h.bits == INFINITE
            } else {
                let r = over(m, ln2.opposite(), slope);
                &&& h.bits == INFINITE <==> r.nan() || r.less(Num { bits: ZERO }) || r.bits == INFINITE
                &&& h.bits != INFINITE ==> h == r
                &&& h.bits != INFINITE && divides(m, ln2.opposite(), slope) ==> times(m, h, slope) == ln2.opposite()
            }
        }),
{
    if s.len() >= 10 {
        lemma_steps(m, s);
    }
}

/// The fit is the share of the variation of the steps that the line explains: one less what it
/// leaves, divided by what the steps vary by themselves, and within zero and one.
pub proof fn fit_is_the_explained_share(m: Arithmetic, s: Seq<Num>)
    requires
        s.len() >= 20,
        !nearly_nothing(covariation(m, starts(s), starts(s)).absolute()),
    ensures
        ({
            let (x, d) = (starts(s), steps(m, s));
            let slope = over(m, covariation(m, x, d), covariation(m, x, x));
            let share = minus(
                m,
                Num { bits: ONE },
                over(m, total(m, rest_squares(m, s, slope)), covariation(m, d, d)),
            );
            let r = ou_fit_of(m, s);
            if nearly_nothing(covariation(m, d, d)) || share.less(Num { bits: ZERO }) {
                r.bits == 0
            } else if (Num { bits: ONE }).less(share) {
                r.bits == ONE
            } else {
                r == share
            }
        }),
{
    lemma_residuals(m, s);
    lemma_steps(m, s);
    lemma_covariation(m, starts(s), steps(m, s));
    let slope = over(m, covariation(m, starts(s), steps(m, s)), covariation(m, starts(s), starts(s)));
    assert(line_of(m, starts(s), steps(m, s)).1 == slope);
    assert(squared_residuals(m, s) =~= rest_squares(m, s, slope));
}

/// The z-score times the deviation is how far the spread `b - ratio * a` is from its mean, where the
/// division leaves nothing over. A spread that hardly deviates is at zero.
pub proof fn zscore_times_deviation_is_distance(m: Arithmetic, a: Num, b: Num, ratio: Num, center: Num, sd: Num)
    ensures
        ({
            let distance = minus(m, minus(m, b, times(m, ratio, a)), center);
            let z = zscore_of(m, a, b, ratio, center, sd);
            if sd.less(Num { bits: HARDLY_ANYTHING }) {
                z.bits == 0
            } else {
                &&& z == over(m, distance, sd)
                &&& divides(m, distance, sd) ==> times(m, z, sd) == distance
            }
        }),
{
}

/// The spread runs over the newest candles that both have, candle by candle from the end.
pub proof fn spread_pairs_candles_from_the_end(m: Arithmetic, a: Seq<Num>, b: Seq<Num>, ratio: Num, back: int)
    requires
        1 <= back <= a.len(),
        back <= b.len(),
    ensures
        ({
            let s = spread_of(m, a, b, ratio);
            &&& s.len() <= a.len() && s.len() <= b.len()
            &&& s.len() == a.len() || s.len() == b.len()
            &&& s[s.len() - back] == minus(m, b[b.len() - back], times(m, ratio, a[a.len() - back]))
        }),
{
}

/// The guard of a pair with at least twenty candles on both sides is made of what its spread
/// measures, each over the newest values that the factor looks at.
///
/// The Hurst exponent is that of a spread which has only the newest `hurst_window` candles, and the
/// fit that of one which has only the newest five hundred.
pub proof fn guard_looks_at_the_newest_candles(
    m: Arithmetic,
    a: Seq<Num>,
    b: Seq<Num>,
    ratio: Num,
    center: Num,
    sd: Num,
    z: Num,
    momentum_window: int,
    hurst_window: int,
    threshold: Num,
)
    requires
        a.len() >= 20,
        b.len() >= 20,
        0 <= hurst_window,
    ensures
        ({
            let g = measured_guard(m, a, b, ratio, center, sd, z, momentum_window, hurst_window, threshold);
            let whole_spread = spread_of(m, a, b, ratio);
            &&& g.hurst == hurst_of(m, spread_of(m, last(a, hurst_window), last(b, hurst_window), ratio))
            &&& g.ou_r2 == ou_fit_of(m, spread_of(m, last(a, 500), last(b, 500), ratio))
            &&& g.adf_trend == stability_of(m, whole_spread).1
            &&& g.velocity == momentum_of(m, whole_spread, center, sd, momentum_window).0
            &&& g.acceleration == momentum_of(m, whole_spread, center, sd, momentum_window).1
        }),
{
    lemma_spread_of_newest(m, a, b, ratio, hurst_window);
    lemma_spread_of_newest(m, a, b, ratio, 500);
}

/// The last `k` values, or all where there are fewer.
pub open spec fn last(s: Seq<Num>, k: int) -> Seq<Num> {
    if s.len() <= k {
        s
    } else {
        s.skip(s.len() - k)
    }
}

proof fn lemma_spread_of_newest(m: Arithmetic, a: Seq<Num>, b: Seq<Num>, ratio: Num, k: int)
    requires
        0 <= k,
    ensures
        spread_of(m, last(a, k), last(b, k), ratio) == last(spread_of(m, a, b, ratio), k),
        newest(
            spread_of(m, a, b, ratio),
            if k <= spread_of(m, a, b, ratio).len() { k } else { spread_of(m, a, b, ratio).len() as int },
        ) == last(spread_of(m, a, b, ratio), k),
{
    let s = spread_of(m, a, b, ratio);
    let n = if k <= s.len() { k } else { s.len() as int };
    assert(newest(s, n) =~= last(s, k));
    assert(spread_of(m, last(a, k), last(b, k), ratio) =~= last(s, k));
}

/// The Hurst exponent of the guard depends on the newest `hurst_window` candles only: prices that
/// agree on those have the same.
pub proof fn older_candles_do_not_move_the_hurst_factor(
    m: Arithmetic,
    a: Seq<Num>,
    b: Seq<Num>,
    c: Seq<Num>,
    d: Seq<Num>,
    ratio: Num,
    center: Num,
    sd: Num,
    z: Num,
    momentum_window: int,
    hurst_window: int,
    threshold: Num,
)
    requires
        a.len() >= 20,
        b.len() >= 20,
        c.len() >= 20,
        d.len() >= 20,
        0 <= hurst_window <= a.len(),
        hurst_window <= b.len(),
        hurst_window <= c.len(),
        hurst_window <= d.len(),
        a.skip(a.len() - hurst_window) == c.skip(c.len() - hurst_window),
        b.skip(b.len() - hurst_window) == d.skip(d.len() - hurst_window),
    ensures
        ({
            let g = measured_guard(m, a, b, ratio, center, sd, z, momentum_window, hurst_window, threshold);
            let h = measured_guard(m, c, d, ratio, center, sd, z, momentum_window, hurst_window, threshold);
            g.hurst == h.hurst
        }),
{
    guard_looks_at_the_newest_candles(m, a, b, ratio, center, sd, z, momentum_window, hurst_window, threshold);
    guard_looks_at_the_newest_candles(m, c, d, ratio, center, sd, z, momentum_window, hurst_window, threshold);
    let k = hurst_window;
    assert(last(a, k) =~= a.skip(a.len() - k));
    assert(last(b, k) =~= b.skip(b.len() - k));
    assert(last(c, k) =~= c.skip(c.len() - k));
    assert(last(d, k) =~= d.skip(d.len() - k));
}

/// The guard passes a factor exactly where its measurement says so: a Hurst exponent below the
/// threshold, a velocity and then an acceleration against the sign of the z-score, a fit above
/// `0.005`, and a unit-root statistic that has not risen.
pub proof fn guard_passes_what_reverts(
    m: Arithmetic,
    a: Seq<Num>,
    b: Seq<Num>,
    ratio: Num,
    center: Num,
    sd: Num,
    z: Num,
    momentum_window: int,
    hurst_window: int,
    threshold: Num,
)
    requires
        a.len() >= 20,
        b.len() >= 20,
    ensures
        ({
            let g = measured_guard(m, a, b, ratio, center, sd, z, momentum_window, hurst_window, threshold);
            let back = z.rank() * g.velocity.rank() < 0 && !z.nan() && !g.velocity.nan();
            let h = if g.hurst.less(threshold) { 1int } else { 0 };
            let v = if back { 1int } else { 0 };
            let acc = if back && z.rank() * g.acceleration.rank() < 0 && !g.acceleration.nan() { 1int } else { 0 };
            let o = if (Num { bits: 0x3f74_7ae1_47ae_147b }).less(g.ou_r2) { 1int } else { 0 };
            let s = if g.adf_trend.at_most(Num { bits: ZERO }) { 1int } else { 0 };
            &&& g.score == h + v + acc + o + s
            &&& g.pass_mask == h + 2 * v + 4 * acc + 8 * o + 16 * s
        }),
{
    let g = measured_guard(m, a, b, ratio, center, sd, z, momentum_window, hurst_window, threshold);
    lemma_signs(z.rank(), g.velocity.rank());
    lemma_signs(z.rank(), g.acceleration.rank());
}

proof fn lemma_signs(x: int, y: int)
    ensures
        x * y < 0 <==> (x < 0 && y > 0) || (x > 0 && y < 0),
{
    assert(x * y < 0 <==> (x < 0 && y > 0) || (x > 0 && y < 0)) by (nonlinear_arith);
}

/// The velocity is the change of the z-score of the spread over the last window, and the
/// acceleration the change of that change. There is none in a still spread, or in one of no more
/// than three windows.
pub proof fn momentum_is_change_of_zscore(m: Arithmetic, s: Seq<Num>, center: Num, sd: Num, window: int)
    requires
        0 <= window,
        s.len() > 0,
    ensures
        ({
            let n = s.len();
            let (v, acc) = momentum_of(m, s, center, sd, window);
            if !(Num { bits: HARDLY_ANYTHING }).less(sd) || n <= 3 * window {
                v.bits == 0 && acc.bits == 0
            } else {
                let z0 = over(m, minus(m, s[n - 1], center), sd);
                let z1 = over(m, minus(m, s[n - 1 - window], center), sd);
                let z2 = over(m, minus(m, s[n - 1 - window - window], center), sd);
                v == minus(m, z0, z1) && acc == minus(m, minus(m, z0, z1), minus(m, z1, z2))
            }
        }),
{
}

/// The stability is the statistic of the newest three fifths of the values less that of all of them.
pub proof fn stability_compares_recent_with_all(m: Arithmetic, s: Seq<Num>)
    ensures
        ({
            let n = s.len() as int;
            let (recent, trend) = stability_of(m, s);
            if n < 60 {
                recent.bits == 0 && trend.bits == 0
            } else {
                recent == adf_of(m, s.skip(n - 3 * n / 5)).0 && trend == minus(m, recent, adf_of(m, s).0)
            }
        }),
{
    let n = s.len() as int;
    if n >= 60 {
        assert(newest(s, n * 3 / 5) =~= s.skip(n - 3 * n / 5));
    }
}

/// A test of two price series of at least fifty candles takes the newest candles that both have. The
/// hedge ratio is the slope of the prices of B over those of A, and everything else is measured on
/// the spread with that ratio.
pub proof fn test_measures_the_spread(
    m: Arithmetic,
    symbol_a: Seq<char>,
    symbol_b: Seq<char>,
    a: Seq<Num>,
    b: Seq<Num>,
    correlation: Num,
)
    requires
        a.len() >= 50,
        b.len() >= 50,
    ensures
        ({
            let r = cointegration_of(m, symbol_a, symbol_b, a, b, correlation);
            let s = spread_of(m, a, b, r.hedge_ratio);
            let n = s.len() as int;
            &&& r.symbol_a == symbol_a && r.symbol_b == symbol_b && r.correlation == correlation
            &&& r.hedge_ratio == line_of(m, last(a, n), last(b, n)).1
            &&& r.spread_mean == level(m, s)
            &&& r.spread_std == std_dev_of(m, s)
            &&& r.adf_stat == adf_of(m, s).0
            &&& r.is_cointegrated == adf_of(m, s).1
            &&& r.half_life_periods == half_life_of(m, s)
            &&& if (Num { bits: HARDLY_ANYTHING }).less(r.spread_std) {
                r.current_zscore == over(m, minus(m, s[n - 1], r.spread_mean), r.spread_std)
            } else {
                r.current_zscore.bits == 0
            }
        }),
{
    let r = cointegration_of(m, symbol_a, symbol_b, a, b, correlation);
    let n = spread_of(m, a, b, r.hedge_ratio).len() as int;
    assert(newest(a, n) =~= last(a, n));
    assert(newest(b, n) =~= last(b, n));
}

/// The highest and the lowest of some numbers are among them, and all others lie between.
pub proof fn extremes_are_extreme(s: Seq<Num>)
    requires
        s.len() > 0,
        forall|i: int| 0 <= i < s.len() ==> !(#[trigger] s[i]).nan(),
    ensures
        s.contains(highest(s)),
        s.contains(lowest(s)),
        forall|i: int| 0 <= i < s.len() ==> (#[trigger] s[i]).at_most(highest(s)) && lowest(s).at_most(s[i]),
    decreases s.len(),
{
    let head = s.drop_last();
    let n = s.len() - 1;
    assert(!s[n].nan());
    if head.len() == 0 {
        assert(highest(head).bits == 0xfff0_0000_0000_0000);
        assert(lowest(head).bits == INFINITE);
        assert(highest(s) == s[0]);
        assert(lowest(s) == s[0]);
    } else {
        assert forall|i: int| 0 <= i < head.len() implies !(#[trigger] head[i]).nan() by {
            assert(!s[i].nan());
        }
        extremes_are_extreme(head);
        let x = choose|x: int| 0 <= x < head.len() && head[x] == highest(head);
        let y = choose|y: int| 0 <= y < head.len() && head[y] == lowest(head);
        assert(s[x] == highest(head) && s[y] == lowest(head));
        assert(highest(s) == s[x] || highest(s) == s[n]);
        assert(lowest(s) == s[y] || lowest(s) == s[n]);
        assert forall|i: int| 0 <= i < s.len() implies (#[trigger] s[i]).at_most(highest(s)) && lowest(s).at_most(
            s[i],
        ) by {
            if i < n {
                assert(head[i] == s[i]);
            }
        }
    }
}

/// The rescaled range of a block, times its standard deviation, is the distance between the highest
/// and the lowest point of the path that its distances from the mean add up to, where the division
/// leaves nothing over. A block that hardly deviates, or whose path does not move, has none.
pub proof fn rescaled_range_times_deviation_is_range(m: Arithmetic, block: Seq<Num>)
    requires
        block.len() > 0,
    ensures
        ({
            let path = Seq::new(
                block.len(),
                |i: int| total(m, Seq::new((i + 1) as nat, |j: int| minus(m, block[j], level(m, block)))),
            );
            let range = minus(m, highest(path), lowest(path));
            let sd = std_dev_of(m, block);
            match rescaled_range(m, block) {
                Some(r) => {
                    &&& (Num { bits: HARDLY_ANYTHING }).less(sd)
                    &&& (Num { bits: ZERO }).less(range)
                    &&& r == over(m, range, sd)
                    &&& divides(m, range, sd) ==> times(m, r, sd) == range
                },
                None => !(Num { bits: HARDLY_ANYTHING }).less(sd) || !(Num { bits: ZERO }).less(range),
            }
        }),
{
    let path = Seq::new(
        block.len(),
        |i: int| total(m, Seq::new((i + 1) as nat, |j: int| minus(m, block[j], level(m, block)))),
    );
    let d = deviations(m, block, mean_of(m, block));
    assert forall|i: int| 0 <= i < path.len() implies #[trigger] running_totals(m, d)[i] == path[i] by {
        assert(d.take(i + 1) =~= Seq::new((i + 1) as nat, |j: int| minus(m, block[j], level(m, block))));
    }
    assert(running_totals(m, d) =~= path);
}

/// The mean rescaled range of a series for a block size is that of all its whole blocks which have a
/// range: each of those counts, and nothing else does.
pub proof fn mean_range_is_of_all_whole_blocks(m: Arithmetic, s: Seq<Num>, size: int, average: Num)
    requires
        size > 0,
        mean_rescaled_range(m, s, size) == Some(average),
    ensures
        ({
            let ranges = rescaled_ranges(m, s, size, s.len() as int / size);
            &&& average == level(m, ranges)
            &&& (Num { bits: ZERO }).less(average)
            &&& ranges.len() == moving_blocks(m, s, size, s.len() as int / size)
            &&& forall|x: int| 0 <= x < ranges.len() ==> is_range_of_block(m, s, size, #[trigger] ranges[x])
            &&& forall|j: int|
                0 <= j < s.len() as int / size ==> (#[trigger] rescaled_range(m, block(s, size, j)) matches Some(r)
                    ==> ranges.contains(r))
        }),
{
    lemma_ranges(m, s, size, s.len() as int / size);
}

/// Block number `j` of a series.
pub open spec fn block(s: Seq<Num>, size: int, j: int) -> Seq<Num> {
    s.subrange(j * size, (j + 1) * size)
}

/// Is this the rescaled range of a whole block?
pub open spec fn is_range_of_block(m: Arithmetic, s: Seq<Num>, size: int, r: Num) -> bool {
    exists|j: int| 0 <= j < s.len() as int / size && #[trigger] rescaled_range(m, block(s, size, j)) == Some(r)
}

/// How many of the first `k` blocks have a rescaled range.
pub open spec fn moving_blocks(m: Arithmetic, s: Seq<Num>, size: int, k: int) -> int
    decreases k,
{
    if k <= 0 {
        0
    } else {
        moving_blocks(m, s, size, k - 1) + if rescaled_range(m, block(s, size, k - 1)) is Some { 1int } else { 0int }
    }
}

proof fn lemma_ranges(m: Arithmetic, s: Seq<Num>, size: int, k: int)
    requires
        size > 0,
        0 <= k <= s.len() as int / size,
    ensures
        ({
            let ranges = rescaled_ranges(m, s, size, k);
            &&& ranges.len() == moving_blocks(m, s, size, k)
            &&& forall|x: int| 0 <= x < ranges.len() ==> is_range_of_block(m, s, size, #[trigger] ranges[x])
            &&& forall|j: int|
                0 <= j < k ==> (#[trigger] rescaled_range(m, block(s, size, j)) matches Some(r) ==> ranges.contains(r))
        }),
    decreases k,
{
    if k > 0 {
        lemma_ranges(m, s, size, k - 1);
        let before = rescaled_ranges(m, s, size, k - 1);
        let ranges = rescaled_ranges(m, s, size, k);
        assert(k - 1 + 1 == k);
        assert(block(s, size, k - 1) == s.subrange((k - 1) * size, k * size));
        assert forall|x: int| 0 <= x < ranges.len() implies is_range_of_block(m, s, size, #[trigger] ranges[x]) by {
            if x < before.len() {
                assert(ranges[x] == before[x]);
            } else {
                assert(rescaled_range(m, block(s, size, k - 1)) == Some(ranges[x]));
            }
        }
        assert forall|j: int| 0 <= j < k && (#[trigger] rescaled_range(m, block(s, size, j))) is Some implies ranges.contains(
            rescaled_range(m, block(s, size, j))->0,
        ) by {
            let r = rescaled_range(m, block(s, size, j))->0;
            if j < k - 1 {
                assert(before.contains(r));
                let x = choose|x: int| 0 <= x < before.len() && before[x] == r;
                assert(ranges[x] == r);
            } else {
                assert(ranges[before.len() as int] == r);
            }
        }
    }
}

/// Does the block size fit twice into the series, and does it have a mean rescaled range?
pub open spec fn scales(m: Arithmetic, s: Seq<Num>, size: int) -> bool {
    2 * size <= s.len() && mean_rescaled_range(m, s, size) is Some
}

/// The points of the block sizes, logarithm by logarithm: one for each of the sizes that scales.
pub open spec fn points(m: Arithmetic, s: Seq<Num>, sizes: Seq<int>) -> (Seq<Num>, Seq<Num>)
    decreases sizes.len(),
{
    if sizes.len() == 0 {
        (Seq::empty(), Seq::empty())
    } else {
        let (x, y) = points(m, s, sizes.drop_last());
        let size = sizes.last();
        if scales(m, s, size) {
            (x.push(log(m, whole(m, size))), y.push(log(m, mean_rescaled_range(m, s, size)->0)))
        } else {
            (x, y)
        }
    }
}

/// The Hurst exponent of a series of at least a hundred values is the slope of the line through the
/// logarithms of the block sizes 10, 20, 50, 100, 200 and 500, as far as they fit twice and have a
/// mean rescaled range, and the logarithms of those ranges: times what the sizes vary, it is what
/// both vary together. A slope above one counts as one. Where fewer than two sizes scale, where the
/// slope is below zero and where the series is shorter, the exponent is one half.
pub proof fn exponent_is_the_slope_of_log_ranges(m: Arithmetic, s: Seq<Num>)
    ensures
        ({
            let (x, y) = points(m, s, seq![10int, 20, 50, 100, 200, 500]);
            let (h, v) = (hurst_of(m, s), covariation(m, x, x));
            let slope = over(m, covariation(m, x, y), v);
            &&& x.len() == y.len()
            &&& if s.len() < 100 || x.len() < 2 {
                h.bits == HALF
            } else if nearly_nothing(v.absolute()) {
                h.bits == 0
            } else if slope.nan() || slope.less(Num { bits: ZERO }) {
                h.bits == HALF
            } else if (Num { bits: ONE }).less(slope) {
                h.bits == ONE
            } else {
                h == slope && (divides(m, covariation(m, x, y), v) ==> times(m, h, v) == covariation(m, x, y))
            }
        }),
{
    let all = seq![10int, 20, 50, 100, 200, 500];
    lemma_points(m, s, 6);
    assert(all.take(6) =~= all);
    let (x, y) = points(m, s, all);
    if x.len() >= 2 {
        lemma_covariation(m, x, y);
    }
}

proof fn lemma_points(m: Arithmetic, s: Seq<Num>, k: int)
    requires
        0 <= k <= 6,
    ensures
        scaling(m, s, k) == points(m, s, seq![10int, 20, 50, 100, 200, 500].take(k)),
        scaling(m, s, k).0.len() == scaling(m, s, k).1.len(),
    decreases k,
{
    let all = seq![10int, 20, 50, 100, 200, 500];
    if k > 0 {
        lemma_points(m, s, k - 1);
        assert(all.take(k).drop_last() =~= all.take(k - 1));
        assert(all.take(k).last() == block_sizes()[k - 1] as int);
    }
}

} // verus!
