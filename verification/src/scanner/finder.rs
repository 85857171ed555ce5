//! The two-phase search for cointegrated pairs.

use vstd::prelude::*;
use vstd::slice::slice_subrange;

use crate::arith::{log, over};
use crate::arith::{Arithmetic, Calculator, Op};
use crate::num::Num;
use crate::rank::{comparable, descending, ranked, ranked_with_one_more};
use crate::rank::{ranking_descends, ranking_has_the_same_members, ranking_keeps_apart, ranking_keeps_members};
use crate::rank::place;
use crate::stats::cointegration::{cointegration_of, newest, smaller, CointView};
use crate::stats::cointegration::{engle_granger, CointResult};
use crate::stats::math::pearson;
use crate::stats::math::pearson_of;
use crate::symbols::SymbolMap;
use crate::trading::engine::same_pair;

verus! {

/// The fewest candles that a symbol needs to be looked at.
pub const MIN_CANDLES: usize = 50;

/// Finds correlated and cointegrated pairs in two phases: a cheap correlation filter over all
/// pairs, and a cointegration test of those that pass.
pub struct CointFinder {
    pub min_correlation: Num,
    pub min_candles: usize,
}

/// A pair with its correlation.
pub type PairView = (Seq<char>, Seq<char>, Num);

/// What a pair with its correlation says.
pub open spec fn pair_views(pairs: Seq<(String, String, Num)>) -> Seq<PairView> {
    pairs.map_values(|p: (String, String, Num)| (p.0@, p.1@, p.2))
}

/// Pairs are ranked by how strong their correlation is, whatever its sign.
pub open spec fn strength() -> spec_fn(PairView) -> Num {
    |p: PairView| p.2.absolute()
}

/// Test results are ranked by how far the spread is from its mean.
pub open spec fn divergence() -> spec_fn(CointView) -> Num {
    |r: CointView| r.current_zscore.absolute()
}

/// The symbols with enough candles among the first `n` of the order.
pub open spec fn eligible(
    order: Seq<Seq<char>>,
    data: Map<Seq<char>, Vec<Num>>,
    min_candles: int,
    n: int,
) -> Seq<Seq<char>>
    decreases n,
{
    if n <= 0 {
        Seq::empty()
    } else {
        let before = eligible(order, data, min_candles, n - 1);
        if data[order[n - 1]]@.len() >= min_candles {
            before.push(order[n - 1])
        } else {
            before
        }
    }
}

/// The logarithmic return from each price to the next.
pub open spec fn log_returns(m: Arithmetic, prices: Seq<Num>) -> Seq<Num> {
    if prices.len() == 0 {
        Seq::empty()
    } else {
        Seq::new((prices.len() - 1) as nat, |i: int| log(m, over(m, prices[i + 1], prices[i])))
    }
}

/// The correlation of the newest returns that both series have. `None` where either has fewer than
/// `min_candles` candles.
pub open spec fn correlation_of(m: Arithmetic, a: Seq<Num>, b: Seq<Num>, min_candles: int) -> Option<Num> {
    let ra = log_returns(m, a);
    let rb = log_returns(m, b);
    let n = smaller(ra.len() as int, rb.len() as int);
    if smaller(a.len() as int, b.len() as int) < min_candles {
        None
    } else {
        Some(pearson_of(m, newest(ra, n), newest(rb, n)))
    }
}

/// The pair at `i` and `j`, where it is correlated enough.
pub open spec fn pair_at(
    m: Arithmetic,
    f: CointFinder,
    data: Map<Seq<char>, Vec<Num>>,
    names: Seq<Seq<char>>,
    i: int,
    j: int,
) -> Option<PairView> {
    match correlation_of(m, data[names[i]]@, data[names[j]]@, f.min_candles as int) {
        Some(c) => if f.min_correlation.at_most(c.absolute()) {
            Some((names[i], names[j], c))
        } else {
            None
        },
        None => None,
    }
}

/// The correlated pairs of the symbol at `i` with those after it and before `j`.
pub open spec fn pairs_of(
    m: Arithmetic,
    f: CointFinder,
    data: Map<Seq<char>, Vec<Num>>,
    names: Seq<Seq<char>>,
    i: int,
    j: int,
) -> Seq<PairView>
    decreases j - i,
{
    if j <= i + 1 {
        Seq::empty()
    } else {
        let before = pairs_of(m, f, data, names, i, j - 1);
        match pair_at(m, f, data, names, i, j - 1) {
            Some(p) => before.push(p),
            None => before,
        }
    }
}

/// The correlated pairs of the first `n` symbols, each with those after it.
pub open spec fn all_pairs(
    m: Arithmetic,
    f: CointFinder,
    data: Map<Seq<char>, Vec<Num>>,
    names: Seq<Seq<char>>,
    n: int,
) -> Seq<PairView>
    decreases n,
{
    if n <= 0 {
        Seq::empty()
    } else {
        all_pairs(m, f, data, names, n - 1) + pairs_of(m, f, data, names, n - 1, names.len() as int)
    }
}

/// All correlated pairs, strongest correlation first.
pub open spec fn correlated_pairs(
    m: Arithmetic,
    f: CointFinder,
    order: Seq<Seq<char>>,
    data: Map<Seq<char>, Vec<Num>>,
) -> Seq<PairView> {
    let names = eligible(order, data, f.min_candles as int, order.len() as int);
    ranked(all_pairs(m, f, data, names, names.len() as int), strength())
}

/// The test result of a pair, where both symbols have enough candles, and it is cointegrated and
/// reverts in finite time.
pub open spec fn verdict(
    m: Arithmetic,
    f: CointFinder,
    data: Map<Seq<char>, Vec<Num>>,
    p: PairView,
) -> Option<CointView> {
    if data.contains_key(p.0) && data.contains_key(p.1) && data[p.0]@.len() >= f.min_candles && data[p.1]@.len()
        >= f.min_candles {
        let r = cointegration_of(m, p.0, p.1, data[p.0]@, data[p.1]@, p.2);
        if r.is_cointegrated && r.half_life_periods.finite() {
            Some(r)
        } else {
            None
        }
    } else {
        None
    }
}

/// The verdicts on the first `n` pairs.
pub open spec fn verdicts(
    m: Arithmetic,
    f: CointFinder,
    data: Map<Seq<char>, Vec<Num>>,
    pairs: Seq<PairView>,
    n: int,
) -> Seq<CointView>
    decreases n,
{
    if n <= 0 {
        Seq::empty()
    } else {
        let before = verdicts(m, f, data, pairs, n - 1);
        match verdict(m, f, data, pairs[n - 1]) {
            Some(r) => before.push(r),
            None => before,
        }
    }
}

/// The cointegrated pairs among the given ones, farthest from the mean first.
pub open spec fn cointegrated_pairs(
    m: Arithmetic,
    f: CointFinder,
    data: Map<Seq<char>, Vec<Num>>,
    pairs: Seq<PairView>,
) -> Seq<CointView> {
    ranked(verdicts(m, f, data, pairs, pairs.len() as int), divergence())
}

/// What test results say.
pub open spec fn coint_views(results: Seq<CointResult>) -> Seq<CointView> {
    results.map_values(|r: CointResult| r@)
}

/// What a scan has found.
pub struct Scan {
    /// Symbols with enough candles.
    pub valid: usize,
    /// Pairs that passed the correlation filter.
    pub correlated: usize,
    /// Cointegrated pairs, farthest from the mean first.
    pub cointegrated: Vec<CointResult>,
}

fn returns_of<F: Fn(Op) -> Num>(prices: &Vec<Num>, calc: &Calculator<F>) -> (r: Vec<Num>)
    requires
        calc.reliable(),
    ensures
        r@ == log_returns(calc.meaning(), prices@),
{
    let ghost goal = log_returns(calc.meaning(), prices@);
    let n: usize = prices.len();
    let mut out: Vec<Num> = Vec::new();
    if n == 0 {
        return out;
    }
    let mut i: usize = 1;
    while i < n
        invariant
            calc.reliable(),
            n == prices@.len(),
            1 <= i <= n,
            goal == log_returns(calc.meaning(), prices@),
            out@ == goal.take(i - 1),
        decreases n - i,
    {
        out.push(calc.log(calc.over(prices[i], prices[i - 1])));
        assert(out@ =~= goal.take(i as int));
        i += 1;
    }
    assert(out@ =~= goal);
    out
}

/// How many symbols have at least `min_candles` candles.
pub fn valid_count(kline_data: &SymbolMap<Vec<Num>>, min_candles: usize) -> (r: usize)
    requires
        kline_data.well_formed(),
    ensures
        r == eligible(kline_data.order(), kline_data@, min_candles as int, kline_data.order().len() as int).len(),
{
    let mut count: usize = 0;
    let mut i: usize = 0;
    while i < kline_data.len()
        invariant
            kline_data.well_formed(),
            0 <= i <= kline_data.order().len(),
            count <= i,
            count == eligible(kline_data.order(), kline_data@, min_candles as int, i as int).len(),
        decreases kline_data.order().len() - i,
    {
        if kline_data.value(i).len() >= min_candles {
            count += 1;
        }
        i += 1;
    }
    count
}

impl CointFinder {
    /// A finder with the given correlation filter.
    pub fn new(min_correlation: Num) -> (r: Self)
        ensures
            r.min_correlation == min_correlation,
            r.min_candles == MIN_CANDLES,
    {
        CointFinder { min_correlation, min_candles: MIN_CANDLES }
    }

    /// Phase one: all pairs whose returns are correlated, strongest correlation first.
    pub fn find_correlated<F: Fn(Op) -> Num>(
        &self,
        kline_data: &SymbolMap<Vec<Num>>,
        calc: &Calculator<F>,
    ) -> (r: Vec<(String, String, Num)>)
        requires
            calc.reliable(),
            kline_data.well_formed(),
        ensures
            pair_views(r@) == correlated_pairs(calc.meaning(), *self, kline_data.order(), kline_data@),
    {
        let ghost m = calc.meaning();
        let ghost data = kline_data@;
        let ghost order = kline_data.order();
        let ghost names = eligible(order, data, self.min_candles as int, order.len() as int);
        let mut at: Vec<usize> = Vec::new();
        let mut rates: Vec<Vec<Num>> = Vec::new();
        let mut i: usize = 0;
        while i < kline_data.len()
            invariant
                calc.reliable(),
                kline_data.well_formed(),
                m == calc.meaning(),
                data == kline_data@,
                order == kline_data.order(),
                0 <= i <= order.len(),
                at@.len() == eligible(order, data, self.min_candles as int, i as int).len(),
                rates@.len() == at@.len(),
                forall|k: int|
                    0 <= k < at@.len() ==> (#[trigger] at@[k]) < order.len() && order[at@[k] as int] == eligible(
                        order,
                        data,
                        self.min_candles as int,
                        i as int,
                    )[k] && rates@[k]@ == log_returns(m, data[order[at@[k] as int]]@)
                        && data[order[at@[k] as int]]@.len() >= self.min_candles,
            decreases order.len() - i,
        {
            let prices: &Vec<Num> = kline_data.value(i);
            if prices.len() >= self.min_candles {
                let row: Vec<Num> = returns_of(prices, calc);
                at.push(i);
                rates.push(row);
            }
            i += 1;
        }
        let n: usize = at.len();
        let mut pairs: Vec<(String, String, Num)> = Vec::new();
        let mut keys: Vec<Num> = Vec::new();
        let ghost mut listed: Seq<PairView> = Seq::empty();
        let mut a: usize = 0;
        proof {
            assert(pair_views(pairs@) =~= ranked(listed, strength()));
            assert(keys@ =~= pair_views(pairs@).map_values(strength()));
        }
        while a < n
            invariant
                calc.reliable(),
                kline_data.well_formed(),
                m == calc.meaning(),
                data == kline_data@,
                order == kline_data.order(),
                n == names.len(),
                n == at@.len(),
                n == rates@.len(),
                forall|k: int|
                    0 <= k < n ==> (#[trigger] at@[k]) < order.len() && order[at@[k] as int] == names[k]
                        && rates@[k]@ == log_returns(m, data[order[at@[k] as int]]@)
                        && data[order[at@[k] as int]]@.len() >= self.min_candles,
                0 <= a <= n,
                listed == all_pairs(m, *self, data, names, a as int),
                pair_views(pairs@) == ranked(listed, strength()),
                keys@ == pair_views(pairs@).map_values(strength()),
            decreases n - a,
        {
            let ghost earlier = listed;
            let mut b: usize = a + 1;
            assert(earlier + pairs_of(m, *self, data, names, a as int, a + 1) =~= earlier);
            while b < n
                invariant
                    calc.reliable(),
                    kline_data.well_formed(),
                    m == calc.meaning(),
                    data == kline_data@,
                    order == kline_data.order(),
                    n == names.len(),
                    n == at@.len(),
                    n == rates@.len(),
                    forall|k: int|
                        0 <= k < n ==> (#[trigger] at@[k]) < order.len() && order[at@[k] as int] == names[k]
                            && rates@[k]@ == log_returns(m, data[order[at@[k] as int]]@)
                            && data[order[at@[k] as int]]@.len() >= self.min_candles,
                    0 <= a < n,
                    a + 1 <= b <= n,
                    listed == earlier + pairs_of(m, *self, data, names, a as int, b as int),
                    pair_views(pairs@) == ranked(listed, strength()),
                    keys@ == pair_views(pairs@).map_values(strength()),
                decreases n - b,
            {
                assert(order[at@[a as int] as int] == names[a as int]);
                assert(order[at@[b as int] as int] == names[b as int]);
                let ra: &[Num] = rates[a].as_slice();
                let rb: &[Num] = rates[b].as_slice();
                let len: usize = if ra.len() <= rb.len() { ra.len() } else { rb.len() };
                let ghost before = pairs_of(m, *self, data, names, a as int, b as int);
                let c: Num = pearson(
                    slice_subrange(ra, ra.len() - len, ra.len()),
                    slice_subrange(rb, rb.len() - len, rb.len()),
                    calc,
                );
                let key: Num = c.abs();
                if self.min_correlation.le(key) {
                    let name_a: String = kline_data.name(at[a]).clone();
                    let name_b: String = kline_data.name(at[b]).clone();
                    let ghost p: PairView = (names[a as int], names[b as int], c);
                    let ghost old_pairs = pairs@;
                    place(&mut pairs, &mut keys, (name_a, name_b, c), key);
                    proof {
                        assert(pair_at(m, *self, data, names, a as int, b as int) == Some(p));
                        ranked_with_one_more(listed, strength(), p);
                        listed = listed.push(p);
                        assert(listed =~= earlier + before.push(p));
                        let slot = crate::rank::slot_of(pair_views(old_pairs).map_values(strength()), key);
                        assert(pair_views(pairs@) =~= pair_views(old_pairs).insert(slot, p));
                    }
                }
                b += 1;
            }
            a += 1;
        }
        pairs
    }

    /// Phase two: the cointegrated pairs among the correlated ones, farthest from the mean first.
    pub fn find_cointegrated<F: Fn(Op) -> Num>(
        &self,
        kline_data: &SymbolMap<Vec<Num>>,
        correlated: &Vec<(String, String, Num)>,
        calc: &Calculator<F>,
    ) -> (r: Vec<CointResult>)
        requires
            calc.reliable(),
            kline_data.well_formed(),
        ensures
            coint_views(r@) == cointegrated_pairs(calc.meaning(), *self, kline_data@, pair_views(correlated@)),
    {
        let ghost m = calc.meaning();
        let ghost data = kline_data@;
        let ghost pairs = pair_views(correlated@);
        let mut results: Vec<CointResult> = Vec::new();
        let mut keys: Vec<Num> = Vec::new();
        let mut i: usize = 0;
        proof {
            assert(coint_views(results@) =~= ranked(verdicts(m, *self, data, pairs, 0), divergence()));
            assert(keys@ =~= coint_views(results@).map_values(divergence()));
        }
        while i < correlated.len()
            invariant
                calc.reliable(),
                kline_data.well_formed(),
                m == calc.meaning(),
                data == kline_data@,
                pairs == pair_views(correlated@),
                0 <= i <= correlated@.len(),
                coint_views(results@) == ranked(verdicts(m, *self, data, pairs, i as int), divergence()),
                keys@ == coint_views(results@).map_values(divergence()),
            decreases correlated@.len() - i,
        {
            let p: &(String, String, Num) = &correlated[i];
            let ghost before = verdicts(m, *self, data, pairs, i as int);
            assert(pairs[i as int] == (p.0@, p.1@, p.2));
            match (kline_data.get(p.0.as_str()), kline_data.get(p.1.as_str())) {
                (Some(prices_a), Some(prices_b)) => {
                    if prices_a.len() >= self.min_candles && prices_b.len() >= self.min_candles {
                        let r: CointResult = engle_granger(
                            p.0.as_str(),
                            p.1.as_str(),
                            prices_a.as_slice(),
                            prices_b.as_slice(),
                            p.2,
                            calc,
                        );
                        if r.is_cointegrated && r.half_life_periods.is_finite() {
                            let key: Num = r.current_zscore.abs();
                            let ghost v = r@;
                            let ghost old_results = results@;
                            place(&mut results, &mut keys, r, key);
                            proof {
                                assert(verdict(m, *self, data, pairs[i as int]) == Some(v));
                                ranked_with_one_more(before, divergence(), v);
                                let slot = crate::rank::slot_of(
                                    coint_views(old_results).map_values(divergence()),
                                    key,
                                );
                                assert(coint_views(results@) =~= coint_views(old_results).insert(slot, v));
                            }
                        }
                    }
                },
                _ => {},
            }
            i += 1;
        }
        results
    }

    /// Both phases.
    pub fn scan<F: Fn(Op) -> Num>(&self, kline_data: &SymbolMap<Vec<Num>>, calc: &Calculator<F>) -> (r: Scan)
        requires
            calc.reliable(),
            kline_data.well_formed(),
        ensures
            ({
                let m = calc.meaning();
                let order = kline_data.order();
                let pairs = correlated_pairs(m, *self, order, kline_data@);
                &&& r.valid == eligible(order, kline_data@, self.min_candles as int, order.len() as int).len()
                &&& r.correlated == pairs.len()
                &&& coint_views(r.cointegrated@) == cointegrated_pairs(m, *self, kline_data@, pairs)
            }),
    {
        let valid: usize = valid_count(kline_data, self.min_candles);
        let pairs: Vec<(String, String, Num)> = self.find_correlated(kline_data, calc);
        let cointegrated: Vec<CointResult> = self.find_cointegrated(kline_data, &pairs, calc);
        Scan { valid, correlated: pairs.len(), cointegrated }
    }
}

/// The pair is the one at some `i` below `n` and some `j` after it.
spec fn from_cell(
    m: Arithmetic,
    f: CointFinder,
    data: Map<Seq<char>, Vec<Num>>,
    names: Seq<Seq<char>>,
    p: PairView,
    n: int,
) -> bool {
    exists|i: int, j: int| 0 <= i < n && i < j < names.len() && #[trigger] pair_at(m, f, data, names, i, j) == Some(p)
}

proof fn lemma_row(
    m: Arithmetic,
    f: CointFinder,
    data: Map<Seq<char>, Vec<Num>>,
    names: Seq<Seq<char>>,
    i: int,
    j: int,
)
    requires
        0 <= i < j <= names.len(),
        names.no_duplicates(),
    ensures
        forall|x: int|
            0 <= x < pairs_of(m, f, data, names, i, j).len() ==> in_row(
                m,
                f,
                data,
                names,
                #[trigger] pairs_of(m, f, data, names, i, j)[x],
                i,
                j,
            ),
        forall|x: int, y: int|
            0 <= x < y < pairs_of(m, f, data, names, i, j).len() ==> different_pairs()(
                #[trigger] pairs_of(m, f, data, names, i, j)[x],
                #[trigger] pairs_of(m, f, data, names, i, j)[y],
            ),
    decreases j - i,
{
    if j > i + 1 {
        lemma_row(m, f, data, names, i, j - 1);
        let before = pairs_of(m, f, data, names, i, j - 1);
        let after = pairs_of(m, f, data, names, i, j);
        assert forall|x: int| 0 <= x < after.len() implies in_row(m, f, data, names, #[trigger] after[x], i, j) by {
            if x < before.len() {
                assert(in_row(m, f, data, names, before[x], i, j - 1));
                let k = choose|k: int| i < k < j - 1 && #[trigger] pair_at(m, f, data, names, i, k) == Some(before[x]);
                assert(pair_at(m, f, data, names, i, k) == Some(after[x]));
            } else {
                assert(pair_at(m, f, data, names, i, j - 1) == Some(after[x]));
            }
        }
        assert forall|x: int, y: int| 0 <= x < y < after.len() implies different_pairs()(
            #[trigger] after[x],
            #[trigger] after[y],
        ) by {
            if y < before.len() {
                assert(different_pairs()(before[x], before[y]));
            } else {
                assert(in_row(m, f, data, names, before[x], i, j - 1));
                let k = choose|k: int| i < k < j - 1 && #[trigger] pair_at(m, f, data, names, i, k) == Some(before[x]);
                assert(names[k] != names[j - 1] && names[i] != names[j - 1]);
            }
        }
    }
}

spec fn in_row(
    m: Arithmetic,
    f: CointFinder,
    data: Map<Seq<char>, Vec<Num>>,
    names: Seq<Seq<char>>,
    p: PairView,
    i: int,
    j: int,
) -> bool {
    exists|k: int| i < k < j && #[trigger] pair_at(m, f, data, names, i, k) == Some(p)
}

/// The two pairs do not have the same symbols.
pub open spec fn different_pairs() -> spec_fn(PairView, PairView) -> bool {
    |p: PairView, q: PairView| !same_pair(p.0, p.1, q.0, q.1)
}

proof fn lemma_cells(
    m: Arithmetic,
    f: CointFinder,
    data: Map<Seq<char>, Vec<Num>>,
    names: Seq<Seq<char>>,
    n: int,
)
    requires
        0 <= n <= names.len(),
        names.no_duplicates(),
    ensures
        forall|x: int|
            0 <= x < all_pairs(m, f, data, names, n).len() ==> from_cell(
                m,
                f,
                data,
                names,
                #[trigger] all_pairs(m, f, data, names, n)[x],
                n,
            ),
        forall|x: int, y: int|
            0 <= x < y < all_pairs(m, f, data, names, n).len() ==> different_pairs()(
                #[trigger] all_pairs(m, f, data, names, n)[x],
                #[trigger] all_pairs(m, f, data, names, n)[y],
            ),
    decreases n,
{
    if n > 0 {
        lemma_cells(m, f, data, names, n - 1);
        let i = n - 1;
        let end = names.len() as int;
        lemma_row(m, f, data, names, i, end);
        let before = all_pairs(m, f, data, names, n - 1);
        let row = pairs_of(m, f, data, names, i, end);
        let after = all_pairs(m, f, data, names, n);
        assert forall|x: int| 0 <= x < after.len() implies from_cell(m, f, data, names, #[trigger] after[x], n) by {
            if x < before.len() {
                assert(from_cell(m, f, data, names, before[x], n - 1));
                let (a, b) = choose|a: int, b: int|
                    0 <= a < n - 1 && a < b < end && #[trigger] pair_at(m, f, data, names, a, b) == Some(before[x]);
                assert(pair_at(m, f, data, names, a, b) == Some(after[x]));
            } else {
                assert(in_row(m, f, data, names, row[x - before.len()], i, end));
                let k = choose|k: int|
                    i < k < end && #[trigger] pair_at(m, f, data, names, i, k) == Some(row[x - before.len()]);
                assert(pair_at(m, f, data, names, i, k) == Some(after[x]));
            }
        }
        assert forall|x: int, y: int| 0 <= x < y < after.len() implies different_pairs()(
            #[trigger] after[x],
            #[trigger] after[y],
        ) by {
            if y < before.len() {
                assert(different_pairs()(before[x], before[y]));
            } else if x >= before.len() {
                assert(different_pairs()(row[x - before.len()], row[y - before.len()]));
            } else {
                assert(from_cell(m, f, data, names, before[x], n - 1));
                let (a, b) = choose|a: int, b: int|
                    0 <= a < n - 1 && a < b < end && #[trigger] pair_at(m, f, data, names, a, b) == Some(before[x]);
                assert(in_row(m, f, data, names, row[y - before.len()], i, end));
                let k = choose|k: int|
                    i < k < end && #[trigger] pair_at(m, f, data, names, i, k) == Some(row[y - before.len()]);
                assert(names[a] != names[i] && names[a] != names[k]);
            }
        }
    }
}

proof fn lemma_eligible(order: Seq<Seq<char>>, data: Map<Seq<char>, Vec<Num>>, min_candles: int, n: int)
    requires
        0 <= n <= order.len(),
        order.no_duplicates(),
    ensures
        eligible(order, data, min_candles, n).no_duplicates(),
        forall|x: int|
            0 <= x < eligible(order, data, min_candles, n).len() ==> order.take(n).contains(
                #[trigger] eligible(order, data, min_candles, n)[x],
            ) && data[eligible(order, data, min_candles, n)[x]]@.len() >= min_candles,
    decreases n,
{
    if n > 0 {
        lemma_eligible(order, data, min_candles, n - 1);
        let before = eligible(order, data, min_candles, n - 1);
        let after = eligible(order, data, min_candles, n);
        assert forall|x: int| 0 <= x < before.len() implies order.take(n).contains(#[trigger] before[x]) && before[x]
            != order[n - 1] by {
            let head = order.take(n - 1);
            assert(head.contains(before[x]));
            let k = choose|k: int| 0 <= k < head.len() && head[k] == before[x];
            assert(order.take(n)[k] == before[x]);
            assert(order[k] != order[n - 1]);
        }
        assert(order.take(n)[n - 1] == order[n - 1]);
        assert forall|x: int| 0 <= x < after.len() implies order.take(n).contains(#[trigger] after[x]) && data[after[x]]@.len()
            >= min_candles by {
            if x < before.len() {
                assert(after[x] == before[x]);
            }
        }
    }
}

/// Every pair that passes the filter is made of two different symbols with enough candles, is
/// correlated at least as strongly as asked, and is listed once. Stronger pairs come first.
pub proof fn correlated_pairs_are_sound(
    m: Arithmetic,
    f: CointFinder,
    order: Seq<Seq<char>>,
    data: Map<Seq<char>, Vec<Num>>,
)
    requires
        order.no_duplicates(),
    ensures
        ({
            let pairs = correlated_pairs(m, f, order, data);
            &&& descending(pairs, strength())
            &&& forall|x: int| 0 <= x < pairs.len() ==> sound_pair(m, f, order, data, #[trigger] pairs[x])
            &&& forall|x: int, y: int|
                0 <= x < y < pairs.len() ==> different_pairs()(#[trigger] pairs[x], #[trigger] pairs[y])
        }),
{
    let n = order.len() as int;
    let names = eligible(order, data, f.min_candles as int, n);
    lemma_eligible(order, data, f.min_candles as int, n);
    assert(order.take(n) =~= order);
    lemma_cells(m, f, data, names, names.len() as int);
    let all = all_pairs(m, f, data, names, names.len() as int);
    let pairs = correlated_pairs(m, f, order, data);
    assert forall|x: int| 0 <= x < all.len() implies sound_pair(m, f, order, data, #[trigger] all[x]) by {
        assert(from_cell(m, f, data, names, all[x], names.len() as int));
        let (i, j) = choose|i: int, j: int|
            0 <= i < names.len() && i < j < names.len() && #[trigger] pair_at(m, f, data, names, i, j) == Some(all[x]);
        assert(order.contains(names[i]) && order.contains(names[j]));
        assert(names[i] != names[j]);
    }
    assert forall|x: int| 0 <= x < all.len() implies !strength()(#[trigger] all[x]).nan() by {
        assert(sound_pair(m, f, order, data, all[x]));
    }
    ranking_descends(all, strength());
    ranking_keeps_members(all, strength());
    assert forall|x: int| 0 <= x < pairs.len() implies sound_pair(m, f, order, data, #[trigger] pairs[x]) by {
        assert(all.contains(pairs[x]));
    }
    ranking_keeps_apart(all, strength(), different_pairs());
}

/// Two different symbols of the order with enough candles and a correlation that is strong enough.
pub open spec fn sound_pair(
    m: Arithmetic,
    f: CointFinder,
    order: Seq<Seq<char>>,
    data: Map<Seq<char>, Vec<Num>>,
    p: PairView,
) -> bool {
    &&& order.contains(p.0)
    &&& order.contains(p.1)
    &&& p.0 != p.1
    &&& data[p.0]@.len() >= f.min_candles
    &&& data[p.1]@.len() >= f.min_candles
    &&& correlation_of(m, data[p.0]@, data[p.1]@, f.min_candles as int) == Some(p.2)
    &&& f.min_correlation.at_most(p.2.absolute())
}

proof fn lemma_place_of_eligible(
    order: Seq<Seq<char>>,
    data: Map<Seq<char>, Vec<Num>>,
    min_candles: int,
    n: int,
    i: int,
)
    requires
        0 <= i < n <= order.len(),
        data[order[i]]@.len() >= min_candles,
    ensures
        eligible(order, data, min_candles, i).len() < eligible(order, data, min_candles, n).len(),
        eligible(order, data, min_candles, n)[eligible(order, data, min_candles, i).len() as int] == order[i],
    decreases n,
{
    if i < n - 1 {
        lemma_place_of_eligible(order, data, min_candles, n - 1, i);
    }
}

proof fn lemma_pair_is_in_row(
    m: Arithmetic,
    f: CointFinder,
    data: Map<Seq<char>, Vec<Num>>,
    names: Seq<Seq<char>>,
    i: int,
    k: int,
    j: int,
)
    requires
        0 <= i < k < j <= names.len(),
        pair_at(m, f, data, names, i, k) is Some,
    ensures
        pairs_of(m, f, data, names, i, j).contains(pair_at(m, f, data, names, i, k)->0),
    decreases j - i,
{
    let p = pair_at(m, f, data, names, i, k)->0;
    let after = pairs_of(m, f, data, names, i, j);
    if k < j - 1 {
        lemma_pair_is_in_row(m, f, data, names, i, k, j - 1);
        let before = pairs_of(m, f, data, names, i, j - 1);
        let x = choose|x: int| 0 <= x < before.len() && before[x] == p;
        assert(after[x] == p);
    } else {
        assert(after[after.len() - 1] == p);
    }
}

proof fn lemma_pair_is_listed(
    m: Arithmetic,
    f: CointFinder,
    data: Map<Seq<char>, Vec<Num>>,
    names: Seq<Seq<char>>,
    n: int,
    i: int,
    k: int,
)
    requires
        0 <= i < n <= names.len(),
        i < k < names.len(),
        pair_at(m, f, data, names, i, k) is Some,
    ensures
        all_pairs(m, f, data, names, n).contains(pair_at(m, f, data, names, i, k)->0),
    decreases n,
{
    let p = pair_at(m, f, data, names, i, k)->0;
    let before = all_pairs(m, f, data, names, n - 1);
    let after = all_pairs(m, f, data, names, n);
    if i < n - 1 {
        lemma_pair_is_listed(m, f, data, names, n - 1, i, k);
        let x = choose|x: int| 0 <= x < before.len() && before[x] == p;
        assert(after[x] == p);
    } else {
        let row = pairs_of(m, f, data, names, i, names.len() as int);
        lemma_pair_is_in_row(m, f, data, names, i, k, names.len() as int);
        let x = choose|x: int| 0 <= x < row.len() && row[x] == p;
        assert(after[before.len() + x] == p);
    }
}

/// No correlated pair is missed: two symbols with enough candles whose returns are correlated
/// strongly enough are listed.
pub proof fn no_correlated_pair_is_missed(
    m: Arithmetic,
    f: CointFinder,
    order: Seq<Seq<char>>,
    data: Map<Seq<char>, Vec<Num>>,
    i: int,
    j: int,
    correlation: Num,
)
    requires
        0 <= i < j < order.len(),
        data[order[i]]@.len() >= f.min_candles,
        data[order[j]]@.len() >= f.min_candles,
        correlation_of(m, data[order[i]]@, data[order[j]]@, f.min_candles as int) == Some(correlation),
        f.min_correlation.at_most(correlation.absolute()),
    ensures
        correlated_pairs(m, f, order, data).contains((order[i], order[j], correlation)),
{
    let n = order.len() as int;
    let min = f.min_candles as int;
    let names = eligible(order, data, min, n);
    let a = eligible(order, data, min, i).len() as int;
    let b = eligible(order, data, min, j).len() as int;
    lemma_place_of_eligible(order, data, min, n, i);
    lemma_place_of_eligible(order, data, min, n, j);
    lemma_place_of_eligible(order, data, min, j, i);
    lemma_pair_is_listed(m, f, data, names, names.len() as int, a, b);
    ranking_has_the_same_members(
        all_pairs(m, f, data, names, names.len() as int),
        strength(),
        (order[i], order[j], correlation),
    );
}

proof fn lemma_verdict_is_there(
    m: Arithmetic,
    f: CointFinder,
    data: Map<Seq<char>, Vec<Num>>,
    pairs: Seq<PairView>,
    n: int,
    k: int,
)
    requires
        0 <= k < n <= pairs.len(),
        verdict(m, f, data, pairs[k]) is Some,
    ensures
        verdicts(m, f, data, pairs, n).contains(verdict(m, f, data, pairs[k])->0),
    decreases n,
{
    let r = verdict(m, f, data, pairs[k])->0;
    let after = verdicts(m, f, data, pairs, n);
    if k < n - 1 {
        lemma_verdict_is_there(m, f, data, pairs, n - 1, k);
        let before = verdicts(m, f, data, pairs, n - 1);
        let x = choose|x: int| 0 <= x < before.len() && before[x] == r;
        assert(after[x] == r);
    } else {
        assert(after[after.len() - 1] == r);
    }
}

/// No cointegrated pair is missed: every pair that goes into the second phase, is cointegrated and
/// reverts in finite time comes out of it.
pub proof fn no_cointegrated_pair_is_missed(
    m: Arithmetic,
    f: CointFinder,
    data: Map<Seq<char>, Vec<Num>>,
    pairs: Seq<PairView>,
    k: int,
)
    requires
        0 <= k < pairs.len(),
        verdict(m, f, data, pairs[k]) is Some,
    ensures
        cointegrated_pairs(m, f, data, pairs).contains(verdict(m, f, data, pairs[k])->0),
{
    let n = pairs.len() as int;
    lemma_verdict_is_there(m, f, data, pairs, n, k);
    ranking_has_the_same_members(verdicts(m, f, data, pairs, n), divergence(), verdict(m, f, data, pairs[k])->0);
}

proof fn lemma_verdicts(
    m: Arithmetic,
    f: CointFinder,
    data: Map<Seq<char>, Vec<Num>>,
    pairs: Seq<PairView>,
    n: int,
)
    requires
        0 <= n <= pairs.len(),
    ensures
        forall|x: int|
            0 <= x < verdicts(m, f, data, pairs, n).len() ==> sound_result(
                m,
                f,
                data,
                pairs,
                #[trigger] verdicts(m, f, data, pairs, n)[x],
            ),
    decreases n,
{
    if n > 0 {
        lemma_verdicts(m, f, data, pairs, n - 1);
        let before = verdicts(m, f, data, pairs, n - 1);
        let after = verdicts(m, f, data, pairs, n);
        assert forall|x: int| 0 <= x < after.len() implies sound_result(m, f, data, pairs, #[trigger] after[x]) by {
            if x < before.len() {
                assert(after[x] == before[x]);
            } else {
                assert(verdict(m, f, data, pairs[n - 1]) == Some(after[x]));
            }
        }
    }
}

/// The verdict on one of the pairs: cointegrated, and reverting in finite time.
pub open spec fn sound_result(
    m: Arithmetic,
    f: CointFinder,
    data: Map<Seq<char>, Vec<Num>>,
    pairs: Seq<PairView>,
    r: CointView,
) -> bool {
    &&& r.is_cointegrated
    &&& r.half_life_periods.finite()
    &&& exists|k: int| 0 <= k < pairs.len() && verdict(m, f, data, #[trigger] pairs[k]) == Some(r)
}

/// Every pair that comes out of the second phase went into it, is cointegrated and reverts in
/// finite time. Where all z-scores are numbers, those farther from the mean come first.
pub proof fn cointegrated_pairs_are_sound(
    m: Arithmetic,
    f: CointFinder,
    data: Map<Seq<char>, Vec<Num>>,
    pairs: Seq<PairView>,
)
    ensures
        ({
            let all = verdicts(m, f, data, pairs, pairs.len() as int);
            let results = cointegrated_pairs(m, f, data, pairs);
            &&& forall|x: int| 0 <= x < results.len() ==> sound_result(m, f, data, pairs, #[trigger] results[x])
            &&& comparable(all, divergence()) ==> descending(results, divergence())
        }),
{
    let all = verdicts(m, f, data, pairs, pairs.len() as int);
    let results = cointegrated_pairs(m, f, data, pairs);
    lemma_verdicts(m, f, data, pairs, pairs.len() as int);
    ranking_keeps_members(all, divergence());
    assert forall|x: int| 0 <= x < results.len() implies sound_result(m, f, data, pairs, #[trigger] results[x]) by {
        assert(all.contains(results[x]));
    }
    if comparable(all, divergence()) {
        ranking_descends(all, divergence());
    }
}

} // verus!
