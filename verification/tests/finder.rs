use lead_lag::arith::{Calculator, Op};
use lead_lag::num::Num;
use lead_lag::scanner::finder::{valid_count, CointFinder, MIN_CANDLES};
use lead_lag::symbols::SymbolMap;

fn num(x: f64) -> Num {
    Num::from_bits(x.to_bits())
}

fn value(n: Num) -> f64 {
    f64::from_bits(n.to_bits())
}

fn answer(op: Op) -> Num {
    num(match op {
        Op::Sum(a, b) => value(a) + value(b),
        Op::Difference(a, b) => value(a) - value(b),
        Op::Product(a, b) => value(a) * value(b),
        Op::Quotient(a, b) => value(a) / value(b),
        Op::Root(a) => value(a).sqrt(),
        Op::Log(a) => value(a).ln(),
        Op::Whole(n) => n as f64,
    })
}

fn calc() -> Calculator<fn(Op) -> Num> {
    Calculator::new(answer)
}

fn nums(xs: &[f64]) -> Vec<Num> {
    xs.iter().map(|x| num(*x)).collect()
}

fn walk(seed: u64, n: usize) -> Vec<f64> {
    let mut state = seed;
    let mut x = 100.0;
    let mut out = Vec::new();
    for _ in 0..n {
        state = state.wrapping_mul(6364136223846793005).wrapping_add(1442695040888963407);
        x += (state >> 33) as f64 / (1u64 << 31) as f64 - 0.5;
        out.push(x);
    }
    out
}

fn market() -> SymbolMap<Vec<Num>> {
    let base = walk(42, 300);
    let twice: Vec<f64> = base.iter().enumerate().map(|(i, x)| 2.0 * x + (i as f64 * 1.3).sin() * 0.2).collect();
    let thrice: Vec<f64> = base.iter().enumerate().map(|(i, x)| 3.0 * x + (i as f64 * 0.9).cos() * 0.9).collect();
    let mut m = SymbolMap::new();
    m.insert("BASE", nums(&base));
    m.insert("SHORT", nums(&base[..49]));
    m.insert("TWICE", nums(&twice));
    m.insert("OTHER", nums(&walk(7, 300)));
    m.insert("THRICE", nums(&thrice));
    m
}

#[test]
fn correlated_pairs_are_found_strongest_first() {
    let finder = CointFinder::new(num(0.7));
    assert_eq!(finder.min_candles, MIN_CANDLES);
    let pairs = finder.find_correlated(&market(), &calc());
    let names: Vec<(&str, &str)> = pairs.iter().map(|p| (p.0.as_str(), p.1.as_str())).collect();
    assert_eq!(names, vec![("BASE", "TWICE"), ("BASE", "THRICE"), ("TWICE", "THRICE")]);
    for p in &pairs {
        assert!(value(p.2) >= 0.7 && value(p.2) <= 1.0);
    }
    assert!(value(pairs[0].2) >= value(pairs[1].2) && value(pairs[1].2) >= value(pairs[2].2));
}

#[test]
fn correlation_is_taken_on_logarithmic_returns() {
    let a: Vec<f64> = walk(3, 60);
    let b: Vec<f64> = walk(4, 60);
    let returns = |p: &[f64]| -> Vec<f64> { p.windows(2).map(|w| (w[1] / w[0]).ln()).collect() };
    let expected = lead_lag::stats::math::pearson(&nums(&returns(&a)), &nums(&returns(&b)), &calc());
    let mut m = SymbolMap::new();
    m.insert("A", nums(&a));
    m.insert("B", nums(&b));
    let pairs = CointFinder::new(num(0.0)).find_correlated(&m, &calc());
    assert_eq!(pairs.len(), 1);
    assert_eq!(pairs[0].2, expected);
}

#[test]
fn negative_correlation_counts() {
    let a = walk(5, 80);
    let b: Vec<f64> = a.iter().map(|x| 10000.0 / x).collect();
    let mut m = SymbolMap::new();
    m.insert("A", nums(&a));
    m.insert("B", nums(&b));
    let pairs = CointFinder::new(num(0.9)).find_correlated(&m, &calc());
    assert_eq!(pairs.len(), 1);
    assert!(value(pairs[0].2) < -0.99);
}

#[test]
fn fifty_candles_are_enough() {
    let p: Vec<f64> = (0..50).map(|i| if i % 2 == 0 { 100.0 } else { 101.0 }).collect();
    let mut m = SymbolMap::new();
    m.insert("A", nums(&p));
    m.insert("B", nums(&p));
    let finder = CointFinder::new(num(0.7));
    assert_eq!(valid_count(&m, 50), 2);
    let pairs = finder.find_correlated(&m, &calc());
    assert_eq!(pairs.len(), 1);
    assert!((value(pairs[0].2) - 1.0).abs() < 1e-10);
    m.insert("B", nums(&p[1..]));
    assert!(finder.find_correlated(&m, &calc()).is_empty());
    let empty: SymbolMap<Vec<Num>> = SymbolMap::new();
    assert!(finder.find_correlated(&empty, &calc()).is_empty());
}

#[test]
fn a_scan_goes_through_both_phases() {
    let finder = CointFinder::new(num(0.7));
    let m = market();
    let scan = finder.scan(&m, &calc());
    assert_eq!(scan.valid, 4);
    assert_eq!(scan.correlated, 3);
    assert!(!scan.cointegrated.is_empty());
    let mut last = f64::INFINITY;
    for r in &scan.cointegrated {
        assert!(r.is_cointegrated);
        assert!(value(r.half_life_periods).is_finite());
        assert!(value(r.adf_stat) < -2.86);
        assert!(value(r.current_zscore).abs() <= last);
        last = value(r.current_zscore).abs();
    }
    let pairs = finder.find_correlated(&m, &calc());
    assert_eq!(finder.find_cointegrated(&m, &pairs, &calc()).len(), scan.cointegrated.len());
}

#[test]
fn unknown_and_short_symbols_are_skipped_in_the_second_phase() {
    let finder = CointFinder::new(num(0.7));
    let pairs = vec![
        ("BASE".to_string(), "MISSING".to_string(), num(0.9)),
        ("BASE".to_string(), "SHORT".to_string(), num(0.9)),
        ("MISSING".to_string(), "TWICE".to_string(), num(0.9)),
    ];
    assert!(finder.find_cointegrated(&market(), &pairs, &calc()).is_empty());
}
