//! Cointegration tests, mean-reversion measures and the entry guard.

use vstd::prelude::*;
use vstd::slice::slice_subrange;
use vstd::string::StringExecFns;

use crate::arith::{log, minus, over, root, square, times, total};
use crate::arith::{Arithmetic, Calculator, Op};
use crate::num::{Num, HALF, INFINITE, ONE, ZERO};
use crate::stats::math::{hurst_exponent, mean, ols, std_dev, sum_of_squares, STILL, VANISHING};
use crate::stats::math::{hurst_of, line_of, mean_of, squared_deviations, std_dev_of};

verus! {

/// `0.005`: the least fit of the mean-reversion model that counts.
pub const OU_MIN_FIT: u64 = 0x3f74_7ae1_47ae_147b;

/// `-2.86`: a unit-root statistic below this is significant at five percent.
pub const CRITICAL: u64 = 0xc006_e147_ae14_7ae1;

/// `2.0`
pub const TWO: u64 = 0x4000_0000_0000_0000;

/// The fewest common candles for which the entry guard measures anything.
pub const GUARD_MIN_CANDLES: usize = 20;

/// How many of the newest spread values the mean-reversion fit looks at.
pub const OU_WINDOW: usize = 500;

/// The fewest spread values that the mean-reversion model is fitted to.
pub const OU_MIN: usize = 20;

/// The fewest spread values for which the stability of cointegration is judged.
pub const STABILITY_MIN: usize = 60;

/// The fewest values that are tested for a unit root.
pub const ADF_MIN: usize = 30;

/// The fewest spread values that have a half-life.
pub const HALF_LIFE_MIN: usize = 10;

/// The fewest common prices that are tested for cointegration.
pub const COINT_MIN: usize = 50;

/// The five measurements behind an entry decision.
#[derive(Clone, Copy, PartialEq, Eq, Structural, Debug)]
pub struct GuardFactors {
    /// Hurst exponent of the newest spread values.
    pub hurst: Num,
    /// Change of the z-score over one momentum window.
    pub velocity: Num,
    /// Change of the velocity over one momentum window.
    pub acceleration: Num,
    /// Fit of the mean-reversion model, from 0 to 1.
    pub ou_r2: Num,
    /// Recent unit-root statistic less the statistic of the whole spread. Negative means that the
    /// relationship is getting stronger.
    pub adf_trend: Num,
}

/// Five independent signals, each passed or failed, and how many passed.
#[derive(Clone, Copy, PartialEq, Eq, Structural, Debug)]
pub struct EntryGuard {
    /// Hurst exponent of the newest spread values.
    pub hurst: Num,
    /// Change of the z-score over one momentum window.
    pub velocity: Num,
    /// Change of the velocity over one momentum window.
    pub acceleration: Num,
    /// Fit of the mean-reversion model, from 0 to 1.
    pub ou_r2: Num,
    /// Recent unit-root statistic less the statistic of the whole spread.
    pub adf_trend: Num,
    /// Number of factors that pass, 0 to 5.
    pub score: u8,
    /// One bit per passing factor: 1 Hurst, 2 velocity, 4 acceleration, 8 mean reversion,
    /// 16 stability.
    pub pass_mask: u8,
}

/// Outcome of a cointegration test for a pair.
pub struct CointResult {
    pub symbol_a: String,
    pub symbol_b: String,
    pub correlation: Num,
    /// Slope of the price of B over the price of A.
    pub hedge_ratio: Num,
    pub adf_stat: Num,
    pub is_cointegrated: bool,
    pub current_zscore: Num,
    pub half_life_periods: Num,
    pub spread_mean: Num,
    pub spread_std: Num,
}

/// Outcome of a cointegration test, with the names of the legs as sequences.
pub struct CointView {
    pub symbol_a: Seq<char>,
    pub symbol_b: Seq<char>,
    pub correlation: Num,
    pub hedge_ratio: Num,
    pub adf_stat: Num,
    pub is_cointegrated: bool,
    pub current_zscore: Num,
    pub half_life_periods: Num,
    pub spread_mean: Num,
    pub spread_std: Num,
}

impl View for CointResult {
    type V = CointView;

    open spec fn view(&self) -> CointView {
        CointView {
            symbol_a: self.symbol_a@,
            symbol_b: self.symbol_b@,
            correlation: self.correlation,
            hedge_ratio: self.hedge_ratio,
            adf_stat: self.adf_stat,
            is_cointegrated: self.is_cointegrated,
            current_zscore: self.current_zscore,
            half_life_periods: self.half_life_periods,
            spread_mean: self.spread_mean,
            spread_std: self.spread_std,
        }
    }
}

/// The least of two counts.
pub open spec fn smaller(a: int, b: int) -> int {
    if a <= b {
        a
    } else {
        b
    }
}

/// Three fifths of a count, rounded down.
pub open spec fn three_fifths(n: int) -> int {
    n * 3 / 5
}

/// The last `k` values.
pub open spec fn newest(s: Seq<Num>, k: int) -> Seq<Num> {
    s.subrange(s.len() - k, s.len() as int)
}

/// The change from each value to the next.
pub open spec fn changes(m: Arithmetic, s: Seq<Num>) -> Seq<Num> {
    Seq::new((s.len() - 1) as nat, |i: int| minus(m, s[i + 1], s[i]))
}

/// All values but the newest.
pub open spec fn lagged(s: Seq<Num>) -> Seq<Num> {
    s.take(s.len() - 1)
}

/// The regression of the change of a series on its value: `change = alpha + beta * value`.
pub open spec fn reversion_of(m: Arithmetic, s: Seq<Num>) -> (Num, Num) {
    line_of(m, lagged(s), changes(m, s))
}

/// What that regression leaves unexplained, squared.
pub open spec fn squared_residuals(m: Arithmetic, s: Seq<Num>) -> Seq<Num> {
    let (alpha, beta) = reversion_of(m, s);
    Seq::new(
        (s.len() - 1) as nat,
        |i: int| square(m, minus(m, minus(m, changes(m, s)[i], alpha), times(m, beta, s[i]))),
    )
}

/// The unit-root statistic: the slope of the regression over its standard error. `None` where the
/// series is too short or has no variance.
pub open spec fn unit_root_statistic(m: Arithmetic, s: Seq<Num>) -> Option<Num> {
    let tiny = Num { bits: VANISHING };
    if s.len() < ADF_MIN {
        None
    } else {
        let variance = mean_of(m, squared_residuals(m, s));
        let spread = total(m, squared_deviations(m, lagged(s), mean_of(m, lagged(s))));
        let error = root(m, over(m, variance, spread));
        if spread.less(tiny) || variance.less(tiny) || error.less(tiny) {
            None
        } else {
            Some(over(m, reversion_of(m, s).1, error))
        }
    }
}

/// The statistic and whether it is significant. Without a statistic it is zero and not.
pub open spec fn adf_of(m: Arithmetic, s: Seq<Num>) -> (Num, bool) {
    match unit_root_statistic(m, s) {
        Some(stat) => (stat, stat.less(Num { bits: CRITICAL })),
        None => (Num { bits: ZERO }, false),
    }
}

/// The number of steps in which half of a deviation is gone: `-ln(2) / beta`. Infinite where the
/// series is too short or does not revert.
pub open spec fn half_life_of(m: Arithmetic, s: Seq<Num>) -> Num {
    let never = Num { bits: INFINITE };
    if s.len() < HALF_LIFE_MIN {
        never
    } else {
        let beta = reversion_of(m, s).1;
        if (Num { bits: ZERO }).at_most(beta) || beta.absolute().less(Num { bits: STILL }) {
            never
        } else {
            let steps = over(m, log(m, Num { bits: TWO }).opposite(), beta);
            if steps.nan() || steps.less(Num { bits: ZERO }) {
                never
            } else {
                steps
            }
        }
    }
}

/// No less than zero and no more than one.
pub open spec fn clamped(x: Num) -> Num {
    if x.less(Num { bits: ZERO }) {
        Num { bits: ZERO }
    } else if (Num { bits: ONE }).less(x) {
        Num { bits: ONE }
    } else {
        x
    }
}

/// How much of the variance of the change the regression explains, from zero to one.
pub open spec fn ou_fit_of(m: Arithmetic, s: Seq<Num>) -> Num {
    if s.len() < OU_MIN {
        Num { bits: ZERO }
    } else {
        let dy = changes(m, s);
        let all = total(m, squared_deviations(m, dy, mean_of(m, dy)));
        let unexplained = total(m, squared_residuals(m, s));
        if all.less(Num { bits: VANISHING }) {
            Num { bits: ZERO }
        } else {
            clamped(minus(m, Num { bits: ONE }, over(m, unexplained, all)))
        }
    }
}

/// The unit-root statistic of the newest three fifths of the values, and how far it is above that
/// of all values. Both are zero where there are too few values.
pub open spec fn stability_of(m: Arithmetic, s: Seq<Num>) -> (Num, Num) {
    if s.len() < STABILITY_MIN {
        (Num { bits: ZERO }, Num { bits: ZERO })
    } else {
        let recent = adf_of(m, newest(s, three_fifths(s.len() as int))).0;
        (recent, minus(m, recent, adf_of(m, s).0))
    }
}

/// The spread of the newest prices that both series have: `b - hedge_ratio * a`.
pub open spec fn spread_of(m: Arithmetic, a: Seq<Num>, b: Seq<Num>, hedge_ratio: Num) -> Seq<Num> {
    let n = smaller(a.len() as int, b.len() as int);
    Seq::new(n as nat, |i: int| minus(m, newest(b, n)[i], times(m, hedge_ratio, newest(a, n)[i])))
}

/// Where a spread value lies, in standard deviations from the mean.
pub open spec fn standardized(m: Arithmetic, spread: Num, spread_mean: Num, spread_std: Num) -> Num {
    over(m, minus(m, spread, spread_mean), spread_std)
}

/// The z-score of live prices. A spread that does not move is always at zero.
pub open spec fn zscore_of(
    m: Arithmetic,
    price_a: Num,
    price_b: Num,
    hedge_ratio: Num,
    spread_mean: Num,
    spread_std: Num,
) -> Num {
    if spread_std.less(Num { bits: STILL }) {
        Num { bits: ZERO }
    } else {
        standardized(m, minus(m, price_b, times(m, hedge_ratio, price_a)), spread_mean, spread_std)
    }
}

/// The outcome of the two-step test.
pub open spec fn cointegration_of(
    m: Arithmetic,
    symbol_a: Seq<char>,
    symbol_b: Seq<char>,
    a: Seq<Num>,
    b: Seq<Num>,
    correlation: Num,
) -> CointView {
    let n = smaller(a.len() as int, b.len() as int);
    let zero = Num { bits: ZERO };
    if n < COINT_MIN {
        CointView {
            symbol_a,
            symbol_b,
            correlation,
            hedge_ratio: Num { bits: ONE },
            adf_stat: zero,
            is_cointegrated: false,
            current_zscore: zero,
            half_life_periods: Num { bits: INFINITE },
            spread_mean: zero,
            spread_std: zero,
        }
    } else {
        let beta = line_of(m, newest(a, n), newest(b, n)).1;
        let spread = spread_of(m, a, b, beta);
        let spread_mean = mean_of(m, spread);
        let spread_std = std_dev_of(m, spread);
        CointView {
            symbol_a,
            symbol_b,
            correlation,
            hedge_ratio: beta,
            adf_stat: adf_of(m, spread).0,
            is_cointegrated: adf_of(m, spread).1,
            current_zscore: if (Num { bits: STILL }).less(spread_std) {
                standardized(m, spread.last(), spread_mean, spread_std)
            } else {
                zero
            },
            half_life_periods: half_life_of(m, spread),
            spread_mean,
            spread_std,
        }
    }
}

/// The velocity and the acceleration of the z-score: its change over the last momentum window, and
/// the change of that change. Both are zero where the spread does not move or is too short.
pub open spec fn momentum_of(
    m: Arithmetic,
    spread: Seq<Num>,
    spread_mean: Num,
    spread_std: Num,
    window: int,
) -> (Num, Num) {
    let n = spread.len();
    if (Num { bits: STILL }).less(spread_std) && n > window * 3 {
        let now = standardized(m, spread[n - 1], spread_mean, spread_std);
        let before = standardized(m, spread[n - 1 - window], spread_mean, spread_std);
        let earlier = standardized(m, spread[n - 1 - 2 * window], spread_mean, spread_std);
        let velocity = minus(m, now, before);
        (velocity, minus(m, velocity, minus(m, before, earlier)))
    } else {
        (Num { bits: ZERO }, Num { bits: ZERO })
    }
}

/// The five measurements of a spread.
pub open spec fn factors_of(
    m: Arithmetic,
    spread: Seq<Num>,
    spread_mean: Num,
    spread_std: Num,
    momentum_window: int,
    hurst_window: int,
) -> GuardFactors {
    let n = spread.len() as int;
    let (velocity, acceleration) = momentum_of(m, spread, spread_mean, spread_std, momentum_window);
    GuardFactors {
        hurst: hurst_of(m, newest(spread, smaller(hurst_window, n))),
        velocity,
        acceleration,
        ou_r2: ou_fit_of(m, newest(spread, smaller(OU_WINDOW as int, n))),
        adf_trend: stability_of(m, spread).1,
    }
}

/// Is the sign of `v` against that of `z`, neither being zero?
pub open spec fn turning(z: Num, v: Num) -> bool {
    let zero = Num { bits: ZERO };
    (zero.less(z) && v.less(zero)) || (z.less(zero) && zero.less(v))
}

/// The Hurst exponent says that the spread reverts.
pub open spec fn hurst_passes(f: GuardFactors, threshold: Num) -> bool {
    f.hurst.less(threshold)
}

/// The spread is on its way back.
pub open spec fn velocity_passes(f: GuardFactors, z: Num) -> bool {
    turning(z, f.velocity)
}

/// The spread is on its way back and gaining speed.
pub open spec fn acceleration_passes(f: GuardFactors, z: Num) -> bool {
    turning(z, f.velocity) && turning(z, f.acceleration)
}

/// The mean-reversion model explains something.
pub open spec fn ou_passes(f: GuardFactors) -> bool {
    (Num { bits: OU_MIN_FIT }).less(f.ou_r2)
}

/// Cointegration is not getting weaker.
pub open spec fn stability_passes(f: GuardFactors) -> bool {
    f.adf_trend.at_most(Num { bits: ZERO })
}

/// 1 for a pass, 0 for a fail.
pub open spec fn point(pass: bool) -> int {
    if pass {
        1
    } else {
        0
    }
}

/// The guard for the given measurements.
pub open spec fn guard_of(f: GuardFactors, z: Num, threshold: Num) -> EntryGuard {
    let h = point(hurst_passes(f, threshold));
    let v = point(velocity_passes(f, z));
    let a = point(acceleration_passes(f, z));
    let o = point(ou_passes(f));
    let s = point(stability_passes(f));
    EntryGuard {
        hurst: f.hurst,
        velocity: f.velocity,
        acceleration: f.acceleration,
        ou_r2: f.ou_r2,
        adf_trend: f.adf_trend,
        score: (h + v + a + o + s) as u8,
        pass_mask: (h + 2 * v + 4 * a + 8 * o + 16 * s) as u8,
    }
}

/// The guard of a pair about which nothing is known: nothing passes.
pub open spec fn blank_guard() -> EntryGuard {
    let zero = Num { bits: ZERO };
    EntryGuard {
        hurst: Num { bits: HALF },
        velocity: zero,
        acceleration: zero,
        ou_r2: zero,
        adf_trend: zero,
        score: 0,
        pass_mask: 0,
    }
}

/// The guard of a pair with the given prices.
pub open spec fn measured_guard(
    m: Arithmetic,
    closes_a: Seq<Num>,
    closes_b: Seq<Num>,
    hedge_ratio: Num,
    spread_mean: Num,
    spread_std: Num,
    zscore: Num,
    momentum_window: int,
    hurst_window: int,
    hurst_threshold: Num,
) -> EntryGuard {
    if smaller(closes_a.len() as int, closes_b.len() as int) < GUARD_MIN_CANDLES {
        blank_guard()
    } else {
        let spread = spread_of(m, closes_a, closes_b, hedge_ratio);
        guard_of(
            factors_of(m, spread, spread_mean, spread_std, momentum_window, hurst_window),
            zscore,
            hurst_threshold,
        )
    }
}

/// Is bit number `k` of the mask set?
pub open spec fn passed(mask: u8, k: int) -> bool {
    if k == 0 {
        mask % 2 == 1
    } else if k == 1 {
        mask / 2 % 2 == 1
    } else if k == 2 {
        mask / 4 % 2 == 1
    } else if k == 3 {
        mask / 8 % 2 == 1
    } else {
        mask / 16 % 2 == 1
    }
}

/// A factor's name, behind a tilde where the factor fails.
pub open spec fn flag(pass: bool, name: Seq<char>) -> Seq<char> {
    if pass {
        name
    } else {
        "~"@ + name
    }
}

/// The five flags of a mask, one space between two.
pub open spec fn breakdown_text(mask: u8) -> Seq<char> {
    flag(passed(mask, 0), "H"@) + " "@ + flag(passed(mask, 1), "V"@) + " "@ + flag(passed(mask, 2), "A"@)
        + " "@ + flag(passed(mask, 3), "OU"@) + " "@ + flag(passed(mask, 4), "ADF"@)
}

impl Default for EntryGuard {
    fn default() -> (r: Self)
        ensures
            r == blank_guard(),
    {
        EntryGuard {
            hurst: Num { bits: HALF },
            velocity: Num { bits: ZERO },
            acceleration: Num { bits: ZERO },
            ou_r2: Num { bits: ZERO },
            adf_trend: Num { bits: ZERO },
            score: 0,
            pass_mask: 0,
        }
    }
}

fn turns(z: Num, v: Num) -> (r: bool)
    ensures
        r == turning(z, v),
{
    let zero: Num = Num { bits: ZERO };
    (zero.lt(z) && v.lt(zero)) || (z.lt(zero) && zero.lt(v))
}

/// The change of each value and the value it starts from, regressed and with the squared residuals.
struct Reversion {
    changes: Vec<Num>,
    beta: Num,
    residuals: Vec<Num>,
}

fn regress_changes<F: Fn(Op) -> Num>(series: &[Num], calc: &Calculator<F>) -> (r: Reversion)
    requires
        calc.reliable(),
        series@.len() > 0,
    ensures
        r.changes@ == changes(calc.meaning(), series@),
        r.beta == reversion_of(calc.meaning(), series@).1,
        r.residuals@ == squared_residuals(calc.meaning(), series@),
{
    let ghost m = calc.meaning();
    let n: usize = series.len();
    let mut dy: Vec<Num> = Vec::new();
    let mut i: usize = 1;
    while i < n
        invariant
            calc.reliable(),
            m == calc.meaning(),
            n == series@.len(),
            1 <= i <= n,
            dy@ == changes(m, series@).take(i - 1),
        decreases n - i,
    {
        dy.push(calc.minus(series[i], series[i - 1]));
        proof {
            assert(dy@ =~= changes(m, series@).take(i as int));
        }
        i += 1;
    }
    assert(dy@ =~= changes(m, series@));
    let lag: &[Num] = slice_subrange(series, 0, n - 1);
    let (alpha, beta) = ols(lag, dy.as_slice(), calc);
    let mut residuals: Vec<Num> = Vec::new();
    let mut j: usize = 0;
    while j < n - 1
        invariant
            calc.reliable(),
            m == calc.meaning(),
            n == series@.len(),
            n > 0,
            0 <= j <= n - 1,
            dy@ == changes(m, series@),
            (alpha, beta) == reversion_of(m, series@),
            residuals@ == squared_residuals(m, series@).take(j as int),
        decreases n - j,
    {
        residuals.push(calc.square(calc.minus(calc.minus(dy[j], alpha), calc.times(beta, series[j]))));
        proof {
            assert(residuals@ =~= squared_residuals(m, series@).take(j + 1));
        }
        j += 1;
    }
    assert(residuals@ =~= squared_residuals(m, series@));
    Reversion { changes: dy, beta, residuals }
}

/// How much of the variance of the change the mean-reversion model explains.
pub fn ou_r_squared<F: Fn(Op) -> Num>(spread: &[Num], calc: &Calculator<F>) -> (r: Num)
    requires
        calc.reliable(),
    ensures
        r == ou_fit_of(calc.meaning(), spread@),
{
    if spread.len() < OU_MIN {
        return Num { bits: ZERO };
    }
    let fit: Reversion = regress_changes(spread, calc);
    let center: Num = mean(fit.changes.as_slice(), calc);
    let all: Num = sum_of_squares(fit.changes.as_slice(), center, calc);
    let unexplained: Num = calc.total(fit.residuals.as_slice());
    if all.lt(Num { bits: VANISHING }) {
        return Num { bits: ZERO };
    }
    let r2: Num = calc.minus(Num { bits: ONE }, calc.over(unexplained, all));
    if r2.lt(Num { bits: ZERO }) {
        Num { bits: ZERO }
    } else if (Num { bits: ONE }).lt(r2) {
        Num { bits: ONE }
    } else {
        r2
    }
}

/// Unit-root test. Returns the statistic and whether it is significant at five percent.
pub fn adf_test<F: Fn(Op) -> Num>(series: &[Num], calc: &Calculator<F>) -> (r: (Num, bool))
    requires
        calc.reliable(),
    ensures
        r == adf_of(calc.meaning(), series@),
{
    let n: usize = series.len();
    if n < ADF_MIN {
        return (Num { bits: ZERO }, false);
    }
    let tiny: Num = Num { bits: VANISHING };
    let fit: Reversion = regress_changes(series, calc);
    let variance: Num = mean(fit.residuals.as_slice(), calc);
    let lag: &[Num] = slice_subrange(series, 0, n - 1);
    let spread: Num = sum_of_squares(lag, mean(lag, calc), calc);
    if spread.lt(tiny) || variance.lt(tiny) {
        return (Num { bits: ZERO }, false);
    }
    let error: Num = calc.root(calc.over(variance, spread));
    if error.lt(tiny) {
        return (Num { bits: ZERO }, false);
    }
    let stat: Num = calc.over(fit.beta, error);
    (stat, stat.lt(Num { bits: CRITICAL }))
}

/// Is cointegration getting weaker? Returns the unit-root statistic of the newest three fifths, and
/// how far it is above that of the whole: negative where the relationship gets stronger.
pub fn adf_stability<F: Fn(Op) -> Num>(spread: &[Num], calc: &Calculator<F>) -> (r: (Num, Num))
    requires
        calc.reliable(),
    ensures
        r == stability_of(calc.meaning(), spread@),
{
    let n: usize = spread.len();
    if n < STABILITY_MIN {
        return (Num { bits: ZERO }, Num { bits: ZERO });
    }
    let (full, _) = adf_test(spread, calc);
    let fifths: usize = n / 5;
    let recent_len: usize = fifths * 3 + (n % 5) * 3 / 5;
    assert(recent_len == three_fifths(n as int));
    let (recent, _) = adf_test(slice_subrange(spread, n - recent_len, n), calc);
    (recent, calc.minus(recent, full))
}

/// The number of candles in which half of a deviation is gone.
pub fn half_life<F: Fn(Op) -> Num>(spread: &[Num], calc: &Calculator<F>) -> (r: Num)
    requires
        calc.reliable(),
    ensures
        r == half_life_of(calc.meaning(), spread@),
{
    let never: Num = Num { bits: INFINITE };
    if spread.len() < HALF_LIFE_MIN {
        return never;
    }
    let beta: Num = regress_changes(spread, calc).beta;
    if (Num { bits: ZERO }).le(beta) || beta.abs().lt(Num { bits: STILL }) {
        return never;
    }
    let steps: Num = calc.over(calc.log(Num { bits: TWO }).neg(), beta);
    if steps.is_nan() || steps.lt(Num { bits: ZERO }) {
        never
    } else {
        steps
    }
}

fn spread_series<F: Fn(Op) -> Num>(a: &[Num], b: &[Num], hedge_ratio: Num, calc: &Calculator<F>) -> (r: Vec<Num>)
    requires
        calc.reliable(),
    ensures
        r@ == spread_of(calc.meaning(), a@, b@, hedge_ratio),
{
    let n: usize = if a.len() <= b.len() { a.len() } else { b.len() };
    let start_a: usize = a.len() - n;
    let start_b: usize = b.len() - n;
    let ghost whole = spread_of(calc.meaning(), a@, b@, hedge_ratio);
    let mut spread: Vec<Num> = Vec::new();
    let mut i: usize = 0;
    while i < n
        invariant
            calc.reliable(),
            n == smaller(a@.len() as int, b@.len() as int),
            start_a == a@.len() - n,
            start_b == b@.len() - n,
            start_a + n <= usize::MAX,
            start_b + n <= usize::MAX,
            0 <= i <= n,
            whole == spread_of(calc.meaning(), a@, b@, hedge_ratio),
            spread@ == whole.take(i as int),
        decreases n - i,
    {
        spread.push(calc.minus(b[start_b + i], calc.times(hedge_ratio, a[start_a + i])));
        proof {
            assert(spread@ =~= whole.take(i + 1));
        }
        i += 1;
    }
    assert(spread@ =~= whole);
    spread
}

/// Two-step cointegration test of two price series.
pub fn engle_granger<F: Fn(Op) -> Num>(
    symbol_a: &str,
    symbol_b: &str,
    prices_a: &[Num],
    prices_b: &[Num],
    correlation: Num,
    calc: &Calculator<F>,
) -> (r: CointResult)
    requires
        calc.reliable(),
    ensures
        r@ == cointegration_of(calc.meaning(), symbol_a@, symbol_b@, prices_a@, prices_b@, correlation),
{
    let zero: Num = Num { bits: ZERO };
    let n: usize = if prices_a.len() <= prices_b.len() { prices_a.len() } else { prices_b.len() };
    if n < COINT_MIN {
        return CointResult {
            symbol_a: symbol_a.to_owned(),
            symbol_b: symbol_b.to_owned(),
            correlation,
            hedge_ratio: Num { bits: ONE },
            adf_stat: zero,
            is_cointegrated: false,
            current_zscore: zero,
            half_life_periods: Num { bits: INFINITE },
            spread_mean: zero,
            spread_std: zero,
        };
    }
    let pa: &[Num] = slice_subrange(prices_a, prices_a.len() - n, prices_a.len());
    let pb: &[Num] = slice_subrange(prices_b, prices_b.len() - n, prices_b.len());
    let (_, beta) = ols(pa, pb, calc);
    let spread: Vec<Num> = spread_series(prices_a, prices_b, beta, calc);
    let (adf_stat, is_cointegrated) = adf_test(spread.as_slice(), calc);
    let spread_mean: Num = mean(spread.as_slice(), calc);
    let spread_std: Num = std_dev(spread.as_slice(), calc);
    let current_zscore: Num = if (Num { bits: STILL }).lt(spread_std) {
        calc.over(calc.minus(spread[n - 1], spread_mean), spread_std)
    } else {
        zero
    };
    let half_life_periods: Num = half_life(spread.as_slice(), calc);
    CointResult {
        symbol_a: symbol_a.to_owned(),
        symbol_b: symbol_b.to_owned(),
        correlation,
        hedge_ratio: beta,
        adf_stat,
        is_cointegrated,
        current_zscore,
        half_life_periods,
        spread_mean,
        spread_std,
    }
}

fn momentum<F: Fn(Op) -> Num>(
    spread: &[Num],
    spread_mean: Num,
    spread_std: Num,
    window: usize,
    calc: &Calculator<F>,
) -> (r: (Num, Num))
    requires
        calc.reliable(),
        spread@.len() > 0,
    ensures
        r == momentum_of(calc.meaning(), spread@, spread_mean, spread_std, window as int),
{
    let n: usize = spread.len();
    if !((Num { bits: STILL }).lt(spread_std) && window <= (n - 1) / 3) {
        return (Num { bits: ZERO }, Num { bits: ZERO });
    }
    let now: Num = calc.over(calc.minus(spread[n - 1], spread_mean), spread_std);
    let before: Num = calc.over(calc.minus(spread[n - 1 - window], spread_mean), spread_std);
    let earlier: Num = calc.over(calc.minus(spread[n - 1 - 2 * window], spread_mean), spread_std);
    let velocity: Num = calc.minus(now, before);
    (velocity, calc.minus(velocity, calc.minus(before, earlier)))
}

impl EntryGuard {
    /// The guard for the given measurements.
    pub fn from_factors(f: GuardFactors, zscore: Num, hurst_threshold: Num) -> (r: EntryGuard)
        ensures
            r == guard_of(f, zscore, hurst_threshold),
    {
        let mut score: u8 = 0;
        let mut pass_mask: u8 = 0;
        if f.hurst.lt(hurst_threshold) {
            score += 1;
            pass_mask += 1;
        }
        if turns(zscore, f.velocity) {
            score += 1;
            pass_mask += 2;
        }
        if turns(zscore, f.velocity) && turns(zscore, f.acceleration) {
            score += 1;
            pass_mask += 4;
        }
        if (Num { bits: OU_MIN_FIT }).lt(f.ou_r2) {
            score += 1;
            pass_mask += 8;
        }
        if f.adf_trend.le(Num { bits: ZERO }) {
            score += 1;
            pass_mask += 16;
        }
        EntryGuard {
            hurst: f.hurst,
            velocity: f.velocity,
            acceleration: f.acceleration,
            ou_r2: f.ou_r2,
            adf_trend: f.adf_trend,
            score,
            pass_mask,
        }
    }

    /// Measures the spread of two price series and scores the five factors.
    ///
    /// A pair with too few candles is not measured and gets the blank guard.
    pub fn compute<F: Fn(Op) -> Num>(
        closes_a: &[Num],
        closes_b: &[Num],
        hedge_ratio: Num,
        spread_mean: Num,
        spread_std: Num,
        zscore: Num,
        momentum_window: usize,
        hurst_window: usize,
        hurst_threshold: Num,
        calc: &Calculator<F>,
    ) -> (r: EntryGuard)
        requires
            calc.reliable(),
        ensures
            r == measured_guard(
                calc.meaning(),
                closes_a@,
                closes_b@,
                hedge_ratio,
                spread_mean,
                spread_std,
                zscore,
                momentum_window as int,
                hurst_window as int,
                hurst_threshold,
            ),
    {
        if closes_a.len() < GUARD_MIN_CANDLES || closes_b.len() < GUARD_MIN_CANDLES {
            return EntryGuard::default();
        }
        let series: Vec<Num> = spread_series(closes_a, closes_b, hedge_ratio, calc);
        let spread: &[Num] = series.as_slice();
        let n: usize = spread.len();
        let hurst_n: usize = if hurst_window <= n { hurst_window } else { n };
        let hurst: Num = hurst_exponent(slice_subrange(spread, n - hurst_n, n), calc);
        let (velocity, acceleration) = momentum(spread, spread_mean, spread_std, momentum_window, calc);
        let ou_n: usize = if OU_WINDOW <= n { OU_WINDOW } else { n };
        let ou_r2: Num = ou_r_squared(slice_subrange(spread, n - ou_n, n), calc);
        let (_, adf_trend) = adf_stability(spread, calc);
        EntryGuard::from_factors(
            GuardFactors { hurst, velocity, acceleration, ou_r2, adf_trend },
            zscore,
            hurst_threshold,
        )
    }

    /// Do at least `min_factors` factors pass?
    pub fn is_passing(&self, min_factors: u8) -> (r: bool)
        ensures
            r == (self.score >= min_factors),
    {
        self.score >= min_factors
    }

    /// Which factors pass and, behind a tilde, which fail.
    pub fn breakdown(&self) -> (r: String)
        ensures
            r@ == breakdown_text(self.pass_mask),
    {
        let mask: u8 = self.pass_mask;
        let mut out: String = String::new();
        append_flag(&mut out, mask % 2 == 1, "H");
        out.append(" ");
        append_flag(&mut out, mask / 2 % 2 == 1, "V");
        out.append(" ");
        append_flag(&mut out, mask / 4 % 2 == 1, "A");
        out.append(" ");
        append_flag(&mut out, mask / 8 % 2 == 1, "OU");
        out.append(" ");
        append_flag(&mut out, mask / 16 % 2 == 1, "ADF");
        assert(out@ =~= breakdown_text(mask));
        out
    }
}

/// The z-score of live prices.
pub fn live_zscore<F: Fn(Op) -> Num>(
    price_a: Num,
    price_b: Num,
    hedge_ratio: Num,
    spread_mean: Num,
    spread_std: Num,
    calc: &Calculator<F>,
) -> (r: Num)
    requires
        calc.reliable(),
    ensures
        r == zscore_of(calc.meaning(), price_a, price_b, hedge_ratio, spread_mean, spread_std),
{
    if spread_std.lt(Num { bits: STILL }) {
        return Num { bits: ZERO };
    }
    let spread: Num = calc.minus(price_b, calc.times(hedge_ratio, price_a));
    calc.over(calc.minus(spread, spread_mean), spread_std)
}

fn append_flag(out: &mut String, pass: bool, name: &str)
    ensures
        final(out)@ == old(out)@ + flag(pass, name@),
{
    if !pass {
        out.append("~");
        out.append(name);
        assert(out@ =~= old(out)@ + flag(pass, name@));
    } else {
        out.append(name);
    }
}

/// The score is the number of factors that pass, never more than five, and the mask has the bit of
/// exactly those.
pub proof fn score_counts_passes(f: GuardFactors, z: Num, threshold: Num)
    ensures
        ({
            let g = guard_of(f, z, threshold);
            &&& g.score <= 5
            &&& g.pass_mask < 32
            &&& g.score == point(passed(g.pass_mask, 0)) + point(passed(g.pass_mask, 1)) + point(
                passed(g.pass_mask, 2),
            ) + point(passed(g.pass_mask, 3)) + point(passed(g.pass_mask, 4))
            &&& passed(g.pass_mask, 0) == hurst_passes(f, threshold)
            &&& passed(g.pass_mask, 1) == velocity_passes(f, z)
            &&& passed(g.pass_mask, 2) == acceleration_passes(f, z)
            &&& passed(g.pass_mask, 3) == ou_passes(f)
            &&& passed(g.pass_mask, 4) == stability_passes(f)
        }),
{
}

/// A guard on which four factors pass is one of a spread that is on its way back: without velocity
/// there is no acceleration either.
pub proof fn four_factors_need_velocity(f: GuardFactors, z: Num, threshold: Num)
    requires
        guard_of(f, z, threshold).score >= 4,
    ensures
        velocity_passes(f, z),
        z.rank() != 0,
{
}

/// The flags of a mask from number `k` on.
spec fn flags_from(mask: u8, k: int) -> Seq<char>
    decreases 5 - k,
{
    if k == 0 {
        flag(passed(mask, 0), "H"@) + (" "@ + flags_from(mask, 1))
    } else if k == 1 {
        flag(passed(mask, 1), "V"@) + (" "@ + flags_from(mask, 2))
    } else if k == 2 {
        flag(passed(mask, 2), "A"@) + (" "@ + flags_from(mask, 3))
    } else if k == 3 {
        flag(passed(mask, 3), "OU"@) + (" "@ + flags_from(mask, 4))
    } else {
        flag(passed(mask, 4), "ADF"@) + Seq::empty()
    }
}

proof fn lemma_flags_in_a_row(mask: u8)
    ensures
        breakdown_text(mask) == flags_from(mask, 0),
{
    reveal_with_fuel(flags_from, 6);
    assert(breakdown_text(mask) =~= flags_from(mask, 0));
}

proof fn lemma_first_flag(p: bool, q: bool, name: Seq<char>, rest_p: Seq<char>, rest_q: Seq<char>)
    requires
        name.len() > 0,
        name[0] != '~',
        flag(p, name) + rest_p == flag(q, name) + rest_q,
    ensures
        p == q,
        rest_p == rest_q,
{
    reveal_strlit("~");
    let left = flag(p, name) + rest_p;
    let right = flag(q, name) + rest_q;
    assert(left[0] == if p { name[0] } else { '~' });
    assert(right[0] == if q { name[0] } else { '~' });
    let n = flag(p, name).len() as int;
    assert(left.skip(n) =~= rest_p);
    assert(right.skip(n) =~= rest_q);
}

proof fn lemma_same_tail(x: Seq<char>, y: Seq<char>)
    requires
        " "@ + x == " "@ + y,
    ensures
        x == y,
{
    reveal_strlit(" ");
    assert((" "@ + x).skip(1) =~= x);
    assert((" "@ + y).skip(1) =~= y);
}

/// The text of a guard tells which factors pass: masks with the same text agree on all five.
pub proof fn breakdown_tells_factors(a: u8, b: u8)
    requires
        breakdown_text(a) == breakdown_text(b),
    ensures
        forall|k: int| 0 <= k < 5 ==> passed(a, k) == passed(b, k),
{
    lemma_flags_in_a_row(a);
    lemma_flags_in_a_row(b);
    reveal_strlit("H");
    reveal_strlit("V");
    reveal_strlit("A");
    reveal_strlit("OU");
    reveal_strlit("ADF");
    let space = " "@;
    lemma_first_flag(passed(a, 0), passed(b, 0), "H"@, space + flags_from(a, 1), space + flags_from(b, 1));
    lemma_same_tail(flags_from(a, 1), flags_from(b, 1));
    lemma_first_flag(passed(a, 1), passed(b, 1), "V"@, space + flags_from(a, 2), space + flags_from(b, 2));
    lemma_same_tail(flags_from(a, 2), flags_from(b, 2));
    lemma_first_flag(passed(a, 2), passed(b, 2), "A"@, space + flags_from(a, 3), space + flags_from(b, 3));
    lemma_same_tail(flags_from(a, 3), flags_from(b, 3));
    lemma_first_flag(passed(a, 3), passed(b, 3), "OU"@, space + flags_from(a, 4), space + flags_from(b, 4));
    lemma_same_tail(flags_from(a, 4), flags_from(b, 4));
    lemma_first_flag(passed(a, 4), passed(b, 4), "ADF"@, Seq::empty(), Seq::empty());
}

/// A half-life is a number, is never below zero, and is finite only where the spread reverts.
pub proof fn half_life_is_sound(m: Arithmetic, s: Seq<Num>)
    ensures
        (Num { bits: ZERO }).at_most(half_life_of(m, s)),
        half_life_of(m, s).finite() ==> s.len() >= HALF_LIFE_MIN && !(Num { bits: ZERO }).at_most(
            reversion_of(m, s).1,
        ),
{
}

/// The fit of the mean-reversion model, where it is a number, lies between zero and one.
pub proof fn fit_is_bounded(m: Arithmetic, s: Seq<Num>)
    requires
        !ou_fit_of(m, s).nan(),
    ensures
        (Num { bits: ZERO }).at_most(ou_fit_of(m, s)),
        ou_fit_of(m, s).at_most(Num { bits: ONE }),
{
}

/// Only a pair with enough prices and a statistic below the critical value is cointegrated, and
/// every such pair is.
pub proof fn cointegration_is_significance(
    m: Arithmetic,
    symbol_a: Seq<char>,
    symbol_b: Seq<char>,
    a: Seq<Num>,
    b: Seq<Num>,
    correlation: Num,
)
    ensures
        ({
            let r = cointegration_of(m, symbol_a, symbol_b, a, b, correlation);
            r.is_cointegrated <==> a.len() >= COINT_MIN && b.len() >= COINT_MIN && r.adf_stat.less(
                Num { bits: CRITICAL },
            )
        }),
{
}

} // verus!
