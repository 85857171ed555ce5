//! Core statistics.

use vstd::prelude::*;
use vstd::slice::slice_subrange;

use crate::arith::{Arithmetic, Calculator, Op};
use crate::arith::{log, minus, over, plus, root, square, times, total, total_of_one_more, whole};
use crate::num::{Num, HALF, INFINITE, ONE, ZERO};

verus! {

/// `1e-15`: a sum of squares below this is as good as zero.
pub const VANISHING: u64 = 0x3cd2_03af_9ee7_5616;

/// `1e-10`: a series that deviates less than this does not move.
pub const STILL: u64 = 0x3ddb_7cdf_d9d7_bdbb;

/// Minus infinity.
pub const MINUS_INFINITE: u64 = 0xfff0_0000_0000_0000;

/// The shortest series that has a Hurst exponent of its own.
pub const HURST_MIN: usize = 100;

/// Arithmetic mean. Nothing has the mean zero.
pub open spec fn mean_of(m: Arithmetic, data: Seq<Num>) -> Num {
    if data.len() == 0 {
        Num { bits: ZERO }
    } else {
        over(m, total(m, data), whole(m, data.len() as int))
    }
}

/// The squared distance of each value from `center`.
pub open spec fn squared_deviations(m: Arithmetic, data: Seq<Num>, center: Num) -> Seq<Num> {
    Seq::new(data.len(), |i: int| square(m, minus(m, data[i], center)))
}

/// Population standard deviation. Fewer than two values do not deviate.
pub open spec fn std_dev_of(m: Arithmetic, data: Seq<Num>) -> Num {
    if data.len() < 2 {
        Num { bits: ZERO }
    } else {
        root(
            m,
            over(
                m,
                total(m, squared_deviations(m, data, mean_of(m, data))),
                whole(m, data.len() as int),
            ),
        )
    }
}

/// The product of the two distances from the centers, for each pair of values.
pub open spec fn joint_deviations(m: Arithmetic, x: Seq<Num>, y: Seq<Num>, cx: Num, cy: Num) -> Seq<Num> {
    Seq::new(x.len(), |i: int| times(m, minus(m, x[i], cx), minus(m, y[i], cy)))
}

/// Pearson correlation coefficient. Series of different lengths, of fewer than three values or
/// without variance have none, which is zero.
pub open spec fn pearson_of(m: Arithmetic, x: Seq<Num>, y: Seq<Num>) -> Num {
    if x.len() != y.len() || x.len() < 3 {
        Num { bits: ZERO }
    } else {
        let mx = mean_of(m, x);
        let my = mean_of(m, y);
        let d = times(
            m,
            root(m, total(m, squared_deviations(m, x, mx))),
            root(m, total(m, squared_deviations(m, y, my))),
        );
        if d.less(Num { bits: VANISHING }) {
            Num { bits: ZERO }
        } else {
            over(m, total(m, joint_deviations(m, x, y, mx, my)), d)
        }
    }
}

/// Least squares: the `alpha` and `beta` of `y = alpha + beta * x`. Values of `x` that are all the
/// same give a level line.
pub open spec fn fitted_line(m: Arithmetic, x: Seq<Num>, y: Seq<Num>) -> (Num, Num) {
    let mx = mean_of(m, x);
    let my = mean_of(m, y);
    let den = total(m, squared_deviations(m, x, mx));
    if den.absolute().less(Num { bits: VANISHING }) {
        (my, Num { bits: ZERO })
    } else {
        let beta = over(m, total(m, joint_deviations(m, x, y, mx, my)), den);
        (minus(m, my, times(m, beta, mx)), beta)
    }
}

/// The regression line of two series. Series of different lengths or of fewer than three values
/// give the diagonal.
pub open spec fn line_of(m: Arithmetic, x: Seq<Num>, y: Seq<Num>) -> (Num, Num) {
    if x.len() != y.len() || x.len() < 3 {
        (Num { bits: ZERO }, Num { bits: ONE })
    } else {
        fitted_line(m, x, y)
    }
}

/// The distance of each value from `center`.
pub open spec fn deviations(m: Arithmetic, data: Seq<Num>, center: Num) -> Seq<Num> {
    Seq::new(data.len(), |i: int| minus(m, data[i], center))
}

/// The sums of the first value, the first two values and so on.
pub open spec fn running_totals(m: Arithmetic, values: Seq<Num>) -> Seq<Num> {
    Seq::new(values.len(), |i: int| total(m, values.take(i + 1)))
}

/// The largest value, or minus infinity.
pub open spec fn highest(values: Seq<Num>) -> Num
    decreases values.len(),
{
    if values.len() == 0 {
        Num { bits: MINUS_INFINITE }
    } else {
        highest(values.drop_last()).larger(values.last())
    }
}

/// The smallest value, or infinity.
pub open spec fn lowest(values: Seq<Num>) -> Num
    decreases values.len(),
{
    if values.len() == 0 {
        Num { bits: INFINITE }
    } else {
        lowest(values.drop_last()).smaller(values.last())
    }
}

/// How far the running deviation from the mean swings.
pub open spec fn swing(m: Arithmetic, block: Seq<Num>) -> Num {
    let path = running_totals(m, deviations(m, block, mean_of(m, block)));
    minus(m, highest(path), lowest(path))
}

/// The swing of a block on the scale of its standard deviation, where the block moves.
pub open spec fn rescaled_range(m: Arithmetic, block: Seq<Num>) -> Option<Num> {
    let s = std_dev_of(m, block);
    let r = swing(m, block);
    if (Num { bits: STILL }).less(s) && (Num { bits: ZERO }).less(r) {
        Some(over(m, r, s))
    } else {
        None
    }
}

/// The rescaled ranges of the first `k` blocks of `size` values.
pub open spec fn rescaled_ranges(m: Arithmetic, series: Seq<Num>, size: int, k: int) -> Seq<Num>
    decreases k,
{
    if k <= 0 {
        Seq::empty()
    } else {
        let before = rescaled_ranges(m, series, size, k - 1);
        match rescaled_range(m, series.subrange((k - 1) * size, k * size)) {
            Some(x) => before.push(x),
            None => before,
        }
    }
}

/// The mean rescaled range of all whole blocks of `size` values, where it is above zero.
pub open spec fn mean_rescaled_range(m: Arithmetic, series: Seq<Num>, size: int) -> Option<Num> {
    let ranges = rescaled_ranges(m, series, size, series.len() as int / size);
    let average = mean_of(m, ranges);
    if ranges.len() > 0 && (Num { bits: ZERO }).less(average) {
        Some(average)
    } else {
        None
    }
}

/// The block sizes that are tried.
pub open spec fn block_sizes() -> Seq<usize> {
    seq![10usize, 20, 50, 100, 200, 500]
}

/// For the first `k` block sizes: the logarithms of those that fit the series at least twice and
/// have a mean rescaled range, and the logarithms of those ranges.
pub open spec fn scaling(m: Arithmetic, series: Seq<Num>, k: int) -> (Seq<Num>, Seq<Num>)
    decreases k,
{
    if k <= 0 {
        (Seq::empty(), Seq::empty())
    } else {
        let (sizes, ranges) = scaling(m, series, k - 1);
        let size = block_sizes()[k - 1] as int;
        if size > series.len() as int / 2 {
            (sizes, ranges)
        } else {
            match mean_rescaled_range(m, series, size) {
                Some(average) => (sizes.push(log(m, whole(m, size))), ranges.push(log(m, average))),
                None => (sizes, ranges),
            }
        }
    }
}

/// A slope as a Hurst exponent: what is below zero or no number says nothing, and one is the most.
pub open spec fn as_exponent(h: Num) -> Num {
    if h.nan() || h.less(Num { bits: ZERO }) {
        Num { bits: HALF }
    } else if (Num { bits: ONE }).less(h) {
        Num { bits: ONE }
    } else {
        h
    }
}

/// The Hurst exponent: the slope of the logarithm of the mean rescaled range over the logarithm of
/// the block size, over two or more sizes. One half, as of a random walk, where the series is too
/// short or moves too little.
pub open spec fn hurst_of(m: Arithmetic, series: Seq<Num>) -> Num {
    if series.len() < HURST_MIN {
        Num { bits: HALF }
    } else {
        let (sizes, ranges) = scaling(m, series, block_sizes().len() as int);
        if sizes.len() < 2 {
            Num { bits: HALF }
        } else {
            as_exponent(fitted_line(m, sizes, ranges).1)
        }
    }
}

/// Arithmetic mean.
pub fn mean<F: Fn(Op) -> Num>(data: &[Num], calc: &Calculator<F>) -> (r: Num)
    requires
        calc.reliable(),
    ensures
        r == mean_of(calc.meaning(), data@),
{
    if data.len() == 0 {
        return Num { bits: ZERO };
    }
    calc.over(calc.total(data), calc.whole(data.len()))
}

pub(crate) fn sum_of_squares<F: Fn(Op) -> Num>(data: &[Num], center: Num, calc: &Calculator<F>) -> (r: Num)
    requires
        calc.reliable(),
    ensures
        r == total(calc.meaning(), squared_deviations(calc.meaning(), data@, center)),
{
    let ghost squares = squared_deviations(calc.meaning(), data@, center);
    let mut sum: Num = Num { bits: ZERO };
    let mut i: usize = 0;
    while i < data.len()
        invariant
            calc.reliable(),
            0 <= i <= data@.len(),
            squares == squared_deviations(calc.meaning(), data@, center),
            sum == total(calc.meaning(), squares.take(i as int)),
        decreases data@.len() - i,
    {
        proof {
            total_of_one_more(calc.meaning(), squares, i as int);
        }
        sum = calc.plus(sum, calc.square(calc.minus(data[i], center)));
        i += 1;
    }
    proof {
        assert(squares.take(squares.len() as int) =~= squares);
    }
    sum
}

fn sum_of_products<F: Fn(Op) -> Num>(x: &[Num], y: &[Num], cx: Num, cy: Num, calc: &Calculator<F>) -> (r: Num)
    requires
        calc.reliable(),
        x@.len() == y@.len(),
    ensures
        r == total(calc.meaning(), joint_deviations(calc.meaning(), x@, y@, cx, cy)),
{
    let ghost products = joint_deviations(calc.meaning(), x@, y@, cx, cy);
    let mut sum: Num = Num { bits: ZERO };
    let mut i: usize = 0;
    while i < x.len()
        invariant
            calc.reliable(),
            0 <= i <= x@.len(),
            x@.len() == y@.len(),
            products == joint_deviations(calc.meaning(), x@, y@, cx, cy),
            sum == total(calc.meaning(), products.take(i as int)),
        decreases x@.len() - i,
    {
        proof {
            total_of_one_more(calc.meaning(), products, i as int);
        }
        sum = calc.plus(sum, calc.times(calc.minus(x[i], cx), calc.minus(y[i], cy)));
        i += 1;
    }
    proof {
        assert(products.take(products.len() as int) =~= products);
    }
    sum
}

/// Population standard deviation.
pub fn std_dev<F: Fn(Op) -> Num>(data: &[Num], calc: &Calculator<F>) -> (r: Num)
    requires
        calc.reliable(),
    ensures
        r == std_dev_of(calc.meaning(), data@),
{
    if data.len() < 2 {
        return Num { bits: ZERO };
    }
    let center: Num = mean(data, calc);
    calc.root(calc.over(sum_of_squares(data, center, calc), calc.whole(data.len())))
}

/// Pearson correlation coefficient.
pub fn pearson<F: Fn(Op) -> Num>(x: &[Num], y: &[Num], calc: &Calculator<F>) -> (r: Num)
    requires
        calc.reliable(),
    ensures
        r == pearson_of(calc.meaning(), x@, y@),
{
    if x.len() != y.len() || x.len() < 3 {
        return Num { bits: ZERO };
    }
    let mx: Num = mean(x, calc);
    let my: Num = mean(y, calc);
    let d: Num = calc.times(
        calc.root(sum_of_squares(x, mx, calc)),
        calc.root(sum_of_squares(y, my, calc)),
    );
    if d.lt(Num { bits: VANISHING }) {
        Num { bits: ZERO }
    } else {
        calc.over(sum_of_products(x, y, mx, my, calc), d)
    }
}

/// Least squares regression: `y = alpha + beta * x`.
pub fn ols<F: Fn(Op) -> Num>(x: &[Num], y: &[Num], calc: &Calculator<F>) -> (r: (Num, Num))
    requires
        calc.reliable(),
    ensures
        r == line_of(calc.meaning(), x@, y@),
{
    if x.len() != y.len() || x.len() < 3 {
        return (Num { bits: ZERO }, Num { bits: ONE });
    }
    fit_line(x, y, calc)
}

fn fit_line<F: Fn(Op) -> Num>(x: &[Num], y: &[Num], calc: &Calculator<F>) -> (r: (Num, Num))
    requires
        calc.reliable(),
        x@.len() == y@.len(),
    ensures
        r == fitted_line(calc.meaning(), x@, y@),
{
    let mx: Num = mean(x, calc);
    let my: Num = mean(y, calc);
    let den: Num = sum_of_squares(x, mx, calc);
    if den.abs().lt(Num { bits: VANISHING }) {
        return (my, Num { bits: ZERO });
    }
    let beta: Num = calc.over(sum_of_products(x, y, mx, my, calc), den);
    (calc.minus(my, calc.times(beta, mx)), beta)
}

fn swing_of<F: Fn(Op) -> Num>(block: &[Num], calc: &Calculator<F>) -> (r: Num)
    requires
        calc.reliable(),
    ensures
        r == swing(calc.meaning(), block@),
{
    let center: Num = mean(block, calc);
    let ghost m = calc.meaning();
    let ghost steps = deviations(m, block@, center);
    let ghost path = running_totals(m, steps);
    let mut running: Num = Num { bits: ZERO };
    let mut high: Num = Num { bits: MINUS_INFINITE };
    let mut low: Num = Num { bits: INFINITE };
    let mut i: usize = 0;
    while i < block.len()
        invariant
            calc.reliable(),
            m == calc.meaning(),
            0 <= i <= block@.len(),
            steps == deviations(m, block@, center),
            path == running_totals(m, steps),
            running == total(m, steps.take(i as int)),
            high == highest(path.take(i as int)),
            low == lowest(path.take(i as int)),
        decreases block@.len() - i,
    {
        proof {
            total_of_one_more(m, steps, i as int);
            assert(path.take(i + 1).drop_last() =~= path.take(i as int));
        }
        running = calc.plus(running, calc.minus(block[i], center));
        high = high.max(running);
        low = low.min(running);
        i += 1;
    }
    proof {
        assert(path.take(path.len() as int) =~= path);
    }
    calc.minus(high, low)
}

fn mean_range<F: Fn(Op) -> Num>(series: &[Num], size: usize, calc: &Calculator<F>) -> (r: Option<Num>)
    requires
        calc.reliable(),
        size > 0,
    ensures
        r == mean_rescaled_range(calc.meaning(), series@, size as int),
{
    let ghost m = calc.meaning();
    let n: usize = series.len();
    let blocks: usize = n / size;
    let mut ranges: Vec<Num> = Vec::new();
    let mut i: usize = 0;
    while i < blocks
        invariant
            calc.reliable(),
            m == calc.meaning(),
            size > 0,
            n == series@.len(),
            blocks == n / size,
            0 <= i <= blocks,
            ranges@ == rescaled_ranges(m, series@, size as int, i as int),
        decreases blocks - i,
    {
        proof {
            block_fits(n as int, size as int, i as int);
        }
        let block: &[Num] = slice_subrange(series, i * size, (i + 1) * size);
        let s: Num = std_dev(block, calc);
        let r: Num = swing_of(block, calc);
        if (Num { bits: STILL }).lt(s) && (Num { bits: ZERO }).lt(r) {
            ranges.push(calc.over(r, s));
        }
        i += 1;
    }
    if ranges.len() == 0 {
        return None;
    }
    let average: Num = mean(ranges.as_slice(), calc);
    if (Num { bits: ZERO }).lt(average) {
        Some(average)
    } else {
        None
    }
}

proof fn block_fits(len: int, size: int, i: int)
    requires
        size > 0,
        0 <= i < len / size,
    ensures
        0 <= i * size <= (i + 1) * size <= len,
{
    assert(0 <= i * size <= (i + 1) * size <= len) by (nonlinear_arith)
        requires
            size > 0,
            0 <= i < len / size,
    ;
}

/// Hurst exponent by rescaled range analysis.
///
/// Below one half the series reverts to its mean, at one half it is a random walk, above it trends.
pub fn hurst_exponent<F: Fn(Op) -> Num>(series: &[Num], calc: &Calculator<F>) -> (r: Num)
    requires
        calc.reliable(),
    ensures
        r == hurst_of(calc.meaning(), series@),
{
    let n: usize = series.len();
    if n < HURST_MIN {
        return Num { bits: HALF };
    }
    let ghost m = calc.meaning();
    let tried: [usize; 6] = [10, 20, 50, 100, 200, 500];
    let mut sizes: Vec<Num> = Vec::new();
    let mut ranges: Vec<Num> = Vec::new();
    let mut k: usize = 0;
    while k < 6
        invariant
            calc.reliable(),
            m == calc.meaning(),
            n == series@.len(),
            tried@ == block_sizes(),
            0 <= k <= 6,
            sizes@.len() == ranges@.len(),
            (sizes@, ranges@) == scaling(m, series@, k as int),
        decreases 6 - k,
    {
        let size: usize = tried[k];
        if size <= n / 2 {
            match mean_range(series, size, calc) {
                Some(average) => {
                    sizes.push(calc.log(calc.whole(size)));
                    ranges.push(calc.log(average));
                },
                None => {},
            }
        }
        k += 1;
    }
    if sizes.len() < 2 {
        return Num { bits: HALF };
    }
    let (_, h) = fit_line(sizes.as_slice(), ranges.as_slice(), calc);
    if h.is_nan() || h.lt(Num { bits: ZERO }) {
        Num { bits: HALF }
    } else if (Num { bits: ONE }).lt(h) {
        Num { bits: ONE }
    } else {
        h
    }
}

/// A Hurst exponent lies between zero and one.
pub proof fn exponent_is_bounded(m: Arithmetic, series: Seq<Num>)
    ensures
        (Num { bits: ZERO }).at_most(hurst_of(m, series)),
        hurst_of(m, series).at_most(Num { bits: ONE }),
{
}

/// The same value: equal but for the sign of a zero, or both not a number.
pub open spec fn alike(a: Num, b: Num) -> bool {
    (a.nan() && b.nan()) || (!a.nan() && !b.nan() && a.rank() == b.rank())
}

/// The order of factors does not matter.
pub open spec fn commutes(m: Arithmetic) -> bool {
    forall|a: Num, b: Num| #[trigger] times(m, a, b) == times(m, b, a)
}

/// Operations go by values: alike operands give alike results. A divisor must not be zero.
pub open spec fn goes_by_values(m: Arithmetic) -> bool {
    &&& forall|a: Num, b: Num, c: Num, d: Num| #![trigger plus(m, a, b), plus(m, c, d)]
        alike(a, c) && alike(b, d) ==> alike(plus(m, a, b), plus(m, c, d))
    &&& forall|a: Num, b: Num, c: Num, d: Num| #![trigger minus(m, a, b), minus(m, c, d)]
        alike(a, c) && alike(b, d) ==> alike(minus(m, a, b), minus(m, c, d))
    &&& forall|a: Num, b: Num, c: Num, d: Num| #![trigger times(m, a, b), times(m, c, d)]
        alike(a, c) && alike(b, d) ==> alike(times(m, a, b), times(m, c, d))
    &&& forall|a: Num, b: Num, c: Num, d: Num| #![trigger over(m, a, b), over(m, c, d)]
        alike(a, c) && alike(b, d) && b.rank() != 0 ==> alike(over(m, a, b), over(m, c, d))
    &&& forall|a: Num, c: Num| #![trigger root(m, a), root(m, c)] alike(a, c) ==> alike(root(m, a), root(m, c))
    &&& forall|n: int| 0 < n <= u64::MAX ==> (#[trigger] whole(m, n)).rank() != 0
}

/// Signs go through operations: two flipped operands of a sum or a difference flip the result, and
/// so does one flipped operand of a product or a flipped dividend.
pub open spec fn keeps_signs(m: Arithmetic) -> bool {
    &&& forall|a: Num, b: Num|
        alike(#[trigger] plus(m, a.opposite(), b.opposite()), plus(m, a, b).opposite())
    &&& forall|a: Num, b: Num|
        alike(#[trigger] minus(m, a.opposite(), b.opposite()), minus(m, a, b).opposite())
    &&& forall|a: Num, b: Num| alike(#[trigger] times(m, a, b.opposite()), times(m, a, b).opposite())
    &&& forall|a: Num, b: Num| alike(#[trigger] times(m, a.opposite(), b.opposite()), times(m, a, b))
    &&& forall|a: Num, b: Num| alike(#[trigger] over(m, a.opposite(), b), over(m, a, b).opposite())
}

/// Zeros come out as zeros: of a finite number less itself, of zero times a finite number, of two
/// zeros added, and of the root of zero.
pub open spec fn keeps_zeros(m: Arithmetic) -> bool {
    &&& forall|a: Num, b: Num| alike(a, b) && a.finite() ==> (#[trigger] minus(m, a, b)).rank() == 0
    &&& forall|a: Num, b: Num|
        (a.rank() == 0 && b.finite()) || (b.rank() == 0 && a.finite()) ==> (#[trigger] times(m, a, b)).rank() == 0
    &&& forall|a: Num, b: Num| a.rank() == 0 && b.rank() == 0 ==> (#[trigger] plus(m, a, b)).rank() == 0
    &&& forall|a: Num| a.rank() == 0 ==> (#[trigger] root(m, a)).rank() == 0
}

/// The same series with all signs flipped.
pub open spec fn flipped(values: Seq<Num>) -> Seq<Num> {
    values.map_values(|v: Num| v.opposite())
}

/// Correlation does not depend on the order of the two series.
pub proof fn correlation_is_symmetric(m: Arithmetic, x: Seq<Num>, y: Seq<Num>)
    requires
        commutes(m),
    ensures
        pearson_of(m, x, y) == pearson_of(m, y, x),
{
    if x.len() == y.len() {
        let mx = mean_of(m, x);
        let my = mean_of(m, y);
        assert(joint_deviations(m, x, y, mx, my) =~= joint_deviations(m, y, x, my, mx));
    }
}

/// Series of different lengths, or of fewer than three values, are not correlated.
pub proof fn short_series_are_not_correlated(m: Arithmetic, x: Seq<Num>, y: Seq<Num>)
    requires
        x.len() != y.len() || x.len() < 3,
    ensures
        pearson_of(m, x, y) == (Num { bits: ZERO }),
{
}

proof fn lemma_total_of_alike(m: Arithmetic, a: Seq<Num>, b: Seq<Num>)
    requires
        goes_by_values(m),
        a.len() == b.len(),
        forall|i: int| 0 <= i < a.len() ==> alike(#[trigger] a[i], b[i]),
    ensures
        alike(total(m, a), total(m, b)),
    decreases a.len(),
{
    if a.len() > 0 {
        let (p, q) = (a.drop_last(), b.drop_last());
        assert forall|i: int| 0 <= i < p.len() implies alike(#[trigger] p[i], q[i]) by {
            assert(alike(a[i], b[i]));
        }
        lemma_total_of_alike(m, p, q);
        assert(alike(a[a.len() - 1], b[b.len() - 1]));
        assert(total(m, a) == plus(m, total(m, p), a.last()));
        assert(total(m, b) == plus(m, total(m, q), b.last()));
    }
}

proof fn lemma_total_of_flipped(m: Arithmetic, a: Seq<Num>, b: Seq<Num>)
    requires
        goes_by_values(m),
        keeps_signs(m),
        a.len() == b.len(),
        forall|i: int| 0 <= i < a.len() ==> alike(#[trigger] b[i], a[i].opposite()),
    ensures
        alike(total(m, b), total(m, a).opposite()),
    decreases a.len(),
{
    if a.len() > 0 {
        let (p, q) = (a.drop_last(), b.drop_last());
        assert forall|i: int| 0 <= i < p.len() implies alike(#[trigger] q[i], p[i].opposite()) by {
            assert(alike(b[i], a[i].opposite()));
        }
        lemma_total_of_flipped(m, p, q);
        assert(alike(b[b.len() - 1], a[a.len() - 1].opposite()));
        let sum = total(m, p);
        assert(total(m, a) == plus(m, sum, a.last()));
        assert(total(m, b) == plus(m, total(m, q), b.last()));
        assert(alike(plus(m, total(m, q), b.last()), plus(m, sum.opposite(), a.last().opposite())));
        assert(alike(plus(m, sum.opposite(), a.last().opposite()), plus(m, sum, a.last()).opposite()));
    }
}

proof fn lemma_flipped_mean(m: Arithmetic, y: Seq<Num>)
    requires
        goes_by_values(m),
        keeps_signs(m),
        0 < y.len() <= u64::MAX,
    ensures
        alike(mean_of(m, flipped(y)), mean_of(m, y).opposite()),
{
    lemma_total_of_flipped(m, y, flipped(y));
    let sum = total(m, y);
    let n = whole(m, y.len() as int);
    assert(alike(over(m, total(m, flipped(y)), n), over(m, sum.opposite(), n)));
    assert(alike(over(m, sum.opposite(), n), over(m, sum, n).opposite()));
}

/// Turning one series upside down turns the correlation round.
pub proof fn flipping_a_series_flips_correlation(m: Arithmetic, x: Seq<Num>, y: Seq<Num>)
    requires
        goes_by_values(m),
        keeps_signs(m),
        y.len() <= u64::MAX,
    ensures
        alike(pearson_of(m, x, flipped(y)), pearson_of(m, x, y).opposite()),
{
    let z = flipped(y);
    if x.len() == y.len() && x.len() >= 3 {
        let mx = mean_of(m, x);
        let my = mean_of(m, y);
        let mz = mean_of(m, z);
        lemma_flipped_mean(m, y);
        assert forall|i: int| 0 <= i < y.len() implies alike(
            #[trigger] minus(m, z[i], mz),
            minus(m, y[i], my).opposite(),
        ) by {
            assert(alike(minus(m, z[i], mz), minus(m, y[i].opposite(), my.opposite())));
        }
        let sy = squared_deviations(m, y, my);
        let sz = squared_deviations(m, z, mz);
        assert forall|i: int| 0 <= i < sy.len() implies alike(#[trigger] sy[i], sz[i]) by {
            let d = minus(m, y[i], my);
            let e = minus(m, z[i], mz);
            assert(alike(times(m, e, e), times(m, d.opposite(), d.opposite())));
            assert(alike(times(m, d.opposite(), d.opposite()), times(m, d, d)));
        }
        lemma_total_of_alike(m, sy, sz);
        let jy = joint_deviations(m, x, y, mx, my);
        let jz = joint_deviations(m, x, z, mx, mz);
        assert forall|i: int| 0 <= i < jy.len() implies alike(#[trigger] jz[i], jy[i].opposite()) by {
            let c = minus(m, x[i], mx);
            let d = minus(m, y[i], my);
            let e = minus(m, z[i], mz);
            assert(alike(times(m, c, e), times(m, c, d.opposite())));
            assert(alike(times(m, c, d.opposite()), times(m, c, d).opposite()));
        }
        lemma_total_of_flipped(m, jy, jz);
        let rx = root(m, total(m, squared_deviations(m, x, mx)));
        let dy = times(m, rx, root(m, total(m, sy)));
        let dz = times(m, rx, root(m, total(m, sz)));
        assert(alike(dy, dz));
        if !dy.less(Num { bits: VANISHING }) {
            let c = total(m, jy);
            assert(alike(over(m, total(m, jz), dz), over(m, c.opposite(), dy)));
            assert(alike(over(m, c.opposite(), dy), over(m, c, dy).opposite()));
        }
    }
}

proof fn lemma_zeros_add_up_to_zero(m: Arithmetic, a: Seq<Num>)
    requires
        keeps_zeros(m),
        forall|i: int| 0 <= i < a.len() ==> (#[trigger] a[i]).rank() == 0,
    ensures
        total(m, a).rank() == 0,
    decreases a.len(),
{
    if a.len() > 0 {
        let p = a.drop_last();
        assert forall|i: int| 0 <= i < p.len() implies (#[trigger] p[i]).rank() == 0 by {
            assert(a[i].rank() == 0);
        }
        lemma_zeros_add_up_to_zero(m, p);
        assert(a[a.len() - 1].rank() == 0);
        assert(total(m, a) == plus(m, total(m, p), a.last()));
    }
}

/// A series that does not move is not correlated with anything, on either side. Its mean must come
/// out as its value, and the deviation of the other series must be finite.
pub proof fn constant_series_are_not_correlated(m: Arithmetic, x: Seq<Num>, y: Seq<Num>, value: Num)
    requires
        keeps_zeros(m),
        x.len() == y.len(),
        value.finite(),
        forall|i: int| 0 <= i < x.len() ==> #[trigger] x[i] == value,
        alike(value, mean_of(m, x)),
        root(m, total(m, squared_deviations(m, y, mean_of(m, y)))).finite(),
    ensures
        pearson_of(m, x, y) == (Num { bits: ZERO }),
        pearson_of(m, y, x) == (Num { bits: ZERO }),
{
    let mx = mean_of(m, x);
    let squares = squared_deviations(m, x, mx);
    assert forall|i: int| 0 <= i < squares.len() implies (#[trigger] squares[i]).rank() == 0 by {
        let d = minus(m, x[i], mx);
        assert(d.rank() == 0);
        assert(times(m, d, d).rank() == 0);
    }
    lemma_zeros_add_up_to_zero(m, squares);
    let rx = root(m, total(m, squares));
    let ry = root(m, total(m, squared_deviations(m, y, mean_of(m, y))));
    assert(rx.rank() == 0);
    assert(times(m, rx, ry).rank() == 0);
    assert(times(m, ry, rx).rank() == 0);
}

} // verus!
