use lead_lag::arith::{Calculator, Op};
use lead_lag::num::{Num, HALF, INFINITE, ONE};
use lead_lag::stats::cointegration::{
    adf_stability, adf_test, engle_granger, half_life, live_zscore, ou_r_squared, EntryGuard, GuardFactors, CRITICAL,
    OU_MIN_FIT, TWO,
};
use lead_lag::stats::math::{hurst_exponent, mean, ols, pearson, std_dev, MINUS_INFINITE, STILL, VANISHING};

fn num(x: f64) -> Num {
    Num::from_bits(x.to_bits())
}

fn value(n: Num) -> f64 {
    f64::from_bits(n.to_bits())
}

fn nums(xs: &[f64]) -> Vec<Num> {
    xs.iter().map(|x| num(*x)).collect()
}

fn answer(op: Op) -> Num {
    num(match op {
        Op::Sum(a, b) => value(a) + value(b),
        Op::Difference(a, b) => value(a) - value(b),
        Op::Product(a, b) => value(a) * value(b),
        Op::Quotient(a, b) => value(a) / value(b),
        Op::Root(a) => value(a).sqrt(),
        Op::Log(a) => value(a).ln(),
        Op::Whole(n) => n as f64,
    })
}

fn calc() -> Calculator<fn(Op) -> Num> {
    Calculator::new(answer)
}

#[test]
fn test_pearson_perfect() {
    let x = nums(&[1.0, 2.0, 3.0, 4.0, 5.0]);
    let y = nums(&[2.0, 4.0, 6.0, 8.0, 10.0]);
    assert!((value(pearson(&x, &y, &calc())) - 1.0).abs() < 1e-10);
}

#[test]
fn test_pearson_negative() {
    let x = nums(&[1.0, 2.0, 3.0, 4.0, 5.0]);
    let y = nums(&[10.0, 8.0, 6.0, 4.0, 2.0]);
    assert!((value(pearson(&x, &y, &calc())) + 1.0).abs() < 1e-10);
}

#[test]
fn test_ols() {
    let x = nums(&[1.0, 2.0, 3.0, 4.0, 5.0]);
    let y = nums(&[3.0, 5.0, 7.0, 9.0, 11.0]); // y = 1 + 2x
    let (alpha, beta) = ols(&x, &y, &calc());
    assert!((value(alpha) - 1.0).abs() < 1e-10);
    assert!((value(beta) - 2.0).abs() < 1e-10);
}

#[test]
fn test_mean() {
    assert!((value(mean(&nums(&[2.0, 4.0, 6.0]), &calc())) - 4.0).abs() < 1e-10);
}

#[test]
fn test_std_dev() {
    let data = nums(&[2.0, 4.0, 4.0, 4.0, 5.0, 5.0, 7.0, 9.0]);
    let s = value(std_dev(&data, &calc()));
    assert!((s - 2.0).abs() < 0.1);
}

#[test]
fn test_cointegrated_pair() {
    let a: Vec<f64> = (0..300).map(|i| 100.0 + (i as f64 * 0.01).sin() * 5.0).collect();
    let b: Vec<f64> = a.iter().map(|x| 2.0 * x + (x * 0.1).sin() * 0.5).collect();

    let result = engle_granger("A", "B", &nums(&a), &nums(&b), num(0.99), &calc());
    assert!(result.is_cointegrated);
    assert!((value(result.hedge_ratio) - 2.0).abs() < 0.1);
    assert!(value(result.half_life_periods) < 100.0);
}

#[test]
fn test_non_cointegrated_pair() {
    let mut a = vec![0.0; 500];
    let mut b = vec![0.0; 500];
    for i in 1..500 {
        a[i] = a[i - 1] + 1.0 + (i as f64 * 0.01).sin() * 0.5;
        b[i] = b[i - 1] - 0.5 + (i as f64 * 0.03).cos() * 0.3;
    }
    let result = engle_granger("A", "B", &nums(&a), &nums(&b), num(0.3), &calc());
    assert!(!result.is_cointegrated);
}

#[test]
fn test_half_life() {
    let mut spread = vec![0.0; 500];
    spread[0] = 2.0;
    for i in 1..500 {
        spread[i] = spread[i - 1] * 0.95;
    }
    let hl = value(half_life(&nums(&spread), &calc()));
    assert!(hl > 8.0 && hl < 25.0, "half_life = {}", hl);
}

#[test]
fn test_live_zscore() {
    let z = live_zscore(num(100.0), num(200.0), num(2.0), num(0.0), num(1.0), &calc());
    assert!(value(z).abs() < 0.01);

    let z2 = live_zscore(num(100.0), num(203.0), num(2.0), num(0.0), num(1.0), &calc());
    assert!((value(z2) - 3.0).abs() < 0.01);
}

#[test]
fn test_ou_r_squared_mean_reverting() {
    // Pure mean-reverting series: should have high R²
    let mut spread = vec![0.0; 500];
    spread[0] = 3.0;
    for i in 1..500 {
        spread[i] = spread[i - 1] * 0.95; // strong mean-reversion
    }
    let r2 = value(ou_r_squared(&nums(&spread), &calc()));
    assert!(r2 > 0.8, "OU R² for strong mean-reverting series should be high, got {}", r2);
}

#[test]
fn test_ou_r_squared_random_walk() {
    // Random walk: should have R² ≈ 0
    let mut spread = vec![0.0; 500];
    let mut rng_state: f64 = 42.0;
    for i in 1..500 {
        // Simple pseudo-random (LCG-like)
        rng_state = (rng_state * 1103515245.0 + 12345.0) % 2147483648.0;
        let noise = (rng_state / 2147483648.0 - 0.5) * 2.0;
        spread[i] = spread[i - 1] + noise;
    }
    let r2 = value(ou_r_squared(&nums(&spread), &calc()));
    assert!(r2 < 0.05, "OU R² for random walk should be near 0, got {}", r2);
}

#[test]
fn test_adf_stability_stable() {
    // Stable cointegrated pair: ADF should be stable or strengthening
    let a: Vec<f64> = (0..500).map(|i| 100.0 + (i as f64 * 0.01).sin() * 5.0).collect();
    let b: Vec<f64> = a.iter().map(|x| 2.0 * x + (x * 0.1).sin() * 0.5).collect();
    let spread: Vec<f64> = a.iter().zip(b.iter()).map(|(x, y)| y - 2.0 * x).collect();

    let (_, trend) = adf_stability(&nums(&spread), &calc());
    let trend = value(trend);
    // For a stable cointegrated pair, trend should be close to 0 or negative
    assert!(trend < 1.0, "ADF trend for stable pair should be near 0, got {}", trend);
}

#[test]
fn test_entry_guard_breakdown() {
    let guard = EntryGuard {
        hurst: num(0.4),
        velocity: num(-0.3),
        acceleration: num(-0.1),
        ou_r2: num(0.02),
        adf_trend: num(-0.5),
        score: 5,
        pass_mask: 0b11111,
    };
    let bd = guard.breakdown();
    assert_eq!(bd, "H V A OU ADF");

    let guard2 = EntryGuard {
        hurst: num(0.6),
        velocity: num(-0.3),
        acceleration: num(0.1),
        ou_r2: num(0.001),
        adf_trend: num(0.5),
        score: 1,
        pass_mask: 0b00010,
    };
    let bd2 = guard2.breakdown();
    assert_eq!(bd2, "~H V ~A ~OU ~ADF");
}

#[test]
fn test_entry_guard_compute() {
    // Create a realistic OU mean-reverting spread with noise
    // dX = theta*(mu - X)*dt + sigma*dW
    let mut rng_state: u64 = 42;
    let mut spread = vec![0.0; 500];
    spread[0] = 0.0;
    let theta = 0.1; // mean-reversion speed
    let mu = 0.0;
    let sigma = 0.5;
    for i in 1..500 {
        // Simple LCG pseudo-random
        rng_state = rng_state.wrapping_mul(6364136223846793005).wrapping_add(1442695040888963407);
        let noise = ((rng_state >> 33) as f64 / (1u64 << 31) as f64 - 0.5) * 2.0 * sigma;
        spread[i] = spread[i - 1] + theta * (mu - spread[i - 1]) + noise;
    }
    // Push the last value to create a z-score > 2
    spread[499] = spread[498] + 2.0;

    let spread_mean = mean(&nums(&spread), &calc());
    let spread_std = std_dev(&nums(&spread), &calc());

    // Build price series: spread = B - hedge_ratio * A
    let hedge_ratio = 1.5;
    let a: Vec<f64> = (0..500).map(|i| 100.0 + (i as f64 * 0.02).sin() * 3.0).collect();
    let b: Vec<f64> = a.iter().zip(spread.iter()).map(|(ai, s)| hedge_ratio * ai + s).collect();

    // z-score at the end should be positive (spread jumped above mean)
    let z = (spread[499] - value(spread_mean)) / value(spread_std);

    let guard = EntryGuard::compute(
        &nums(&a),
        &nums(&b),
        num(hedge_ratio),
        spread_mean,
        spread_std,
        num(z),
        5,
        200,
        num(0.5),
        &calc(),
    );

    // For a mean-reverting OU process with noise:
    // - Hurst should be < 0.5 (this is a proper OU process, not a trend)
    // - OU R² should be > 0 (the OU model explains some variance)
    assert!(value(guard.ou_r2) > 0.001, "OU R² should be positive for OU process, got {}", value(guard.ou_r2));
    // Just verify the guard computes without panic and has valid structure
    assert!(guard.score <= 5);
    assert!(!guard.breakdown().is_empty());
}

#[test]
fn constants_stand_for_their_numbers() {
    assert_eq!(VANISHING, 1e-15f64.to_bits());
    assert_eq!(STILL, 1e-10f64.to_bits());
    assert_eq!(MINUS_INFINITE, f64::NEG_INFINITY.to_bits());
    assert_eq!(INFINITE, f64::INFINITY.to_bits());
    assert_eq!(OU_MIN_FIT, 0.005f64.to_bits());
    assert_eq!(CRITICAL, (-2.86f64).to_bits());
    assert_eq!(TWO, 2.0f64.to_bits());
    assert_eq!(ONE, 1.0f64.to_bits());
    assert_eq!(HALF, 0.5f64.to_bits());
}

#[test]
fn means_and_deviations_are_exact() {
    let data = nums(&[2.0, 4.0, 4.0, 4.0, 5.0, 5.0, 7.0, 9.0]);
    assert_eq!(value(mean(&data, &calc())), 5.0);
    assert_eq!(value(std_dev(&data, &calc())), 2.0);
    assert_eq!(value(mean(&[], &calc())), 0.0);
    assert_eq!(value(std_dev(&nums(&[3.0]), &calc())), 0.0);
}

#[test]
fn degenerate_series_have_no_correlation_and_no_slope() {
    let flat = nums(&[2.0, 2.0, 2.0, 2.0]);
    let line = nums(&[1.0, 2.0, 3.0, 4.0]);
    assert_eq!(value(pearson(&flat, &line, &calc())), 0.0);
    assert_eq!(value(pearson(&line[..2], &line[..2], &calc())), 0.0);
    assert_eq!(value(pearson(&line, &line[..3], &calc())), 0.0);
    assert_eq!(ols(&line[..2], &line[..2], &calc()), (num(0.0), num(1.0)));
    assert_eq!(ols(&line, &line[..3], &calc()), (num(0.0), num(1.0)));
    assert_eq!(ols(&flat, &line, &calc()), (num(2.5), num(0.0)));
}

#[test]
fn hurst_exponent_is_one_half_without_evidence() {
    let short: Vec<f64> = (0..99).map(|i| i as f64).collect();
    assert_eq!(value(hurst_exponent(&nums(&short), &calc())), 0.5);
    let flat = vec![1.0; 300];
    assert_eq!(value(hurst_exponent(&nums(&flat), &calc())), 0.5);
}

#[test]
fn two_block_sizes_give_a_slope() {
    // blocks of ten do not move, so only twenty and fifty have a rescaled range
    let series: Vec<f64> = (0..100).map(|i| if (i / 10) % 2 == 0 { 1.0 } else { -1.0 }).collect();
    let h = value(hurst_exponent(&nums(&series), &calc()));
    assert!((h - 0.535).abs() < 0.001, "{}", h);
}

#[test]
fn correlation_goes_by_symmetry_and_sign() {
    let x = [1.0, 2.5, -3.0, 4.25, 0.5];
    let y = [2.0, 4.0, 1.0, -8.0, 3.5];
    let minus_y: Vec<f64> = y.iter().map(|v| -v).collect();
    let r = value(pearson(&nums(&x), &nums(&y), &calc()));
    assert_eq!(value(pearson(&nums(&y), &nums(&x), &calc())), r);
    assert_eq!(value(pearson(&nums(&x), &nums(&minus_y), &calc())), -r);
    assert_eq!(value(pearson(&nums(&x), &nums(&[3.0; 5]), &calc())), 0.0);
    assert_eq!(value(pearson(&nums(&[3.0; 5]), &nums(&y), &calc())), 0.0);
    assert_eq!(value(pearson(&nums(&x[..2]), &nums(&y[..2]), &calc())), 0.0);
}

#[test]
fn a_huge_momentum_window_has_no_momentum() {
    let a: Vec<f64> = (0..60).map(|i| 100.0 + (i as f64).sin()).collect();
    let b: Vec<f64> = (0..60).map(|i| 100.0 + (i as f64).cos()).collect();
    let guard = |window: usize| {
        EntryGuard::compute(
            &nums(&a),
            &nums(&b),
            num(1.0),
            num(0.0),
            num(1.0),
            num(2.5),
            window,
            500,
            num(0.5),
            &calc(),
        )
    };
    assert_eq!(value(guard(usize::MAX).velocity), 0.0);
    assert_eq!(value(guard(20).velocity), 0.0);
    assert_ne!(value(guard(19).velocity), 0.0);
}

#[test]
fn hurst_exponent_tells_trend_from_reversion() {
    let trend: Vec<f64> = (0..1000).map(|i| i as f64).collect();
    let h = value(hurst_exponent(&nums(&trend), &calc()));
    assert!(h > 0.9 && h <= 1.0, "h = {}", h);
    let saw: Vec<f64> = (0..1000).map(|i| if i % 2 == 0 { 1.0 } else { -1.0 }).collect();
    let h = value(hurst_exponent(&nums(&saw), &calc()));
    assert!(h >= 0.0 && h < 0.1, "h = {}", h);
}

#[test]
fn unit_root_test_needs_values_and_variance() {
    let short: Vec<f64> = (0..29).map(|i| (i as f64).sin()).collect();
    assert_eq!(adf_test(&nums(&short), &calc()), (num(0.0), false));
    assert_eq!(adf_test(&nums(&vec![5.0; 100]), &calc()), (num(0.0), false));
    let noisy: Vec<f64> = (0..200).map(|i| (i as f64 * 2.3).sin()).collect();
    let (stat, significant) = adf_test(&nums(&noisy), &calc());
    assert!(significant);
    assert!(value(stat) < -2.86);
}

#[test]
fn half_life_of_a_halving_series_is_one_step_of_the_regression() {
    // the change of a series that halves is minus half its value: -ln(2) / -0.5
    let series: Vec<f64> = (0..12).map(|i| 1024.0 / (1 << i) as f64).collect();
    let hl = value(half_life(&nums(&series), &calc()));
    assert!((hl - 2.0f64.ln() / 0.5).abs() < 1e-9, "hl = {}", hl);
    assert_eq!(half_life(&nums(&series[..9]), &calc()), num(f64::INFINITY));
    let growing: Vec<f64> = (0..20).map(|i| (1u64 << i) as f64).collect();
    assert_eq!(half_life(&nums(&growing), &calc()), num(f64::INFINITY));
}

#[test]
fn a_still_spread_is_always_at_zero() {
    assert_eq!(live_zscore(num(1.0), num(50.0), num(1.0), num(0.0), num(1e-11), &calc()), num(0.0));
    assert_eq!(live_zscore(num(1.0), num(50.0), num(1.0), num(9.0), num(2.0), &calc()), num(20.0));
}

#[test]
fn too_few_prices_are_not_cointegrated() {
    let a: Vec<f64> = (0..49).map(|i| i as f64).collect();
    let r = engle_granger("A", "B", &nums(&a), &nums(&a), num(1.0), &calc());
    assert_eq!(r.symbol_a, "A");
    assert_eq!(r.symbol_b, "B");
    assert_eq!(value(r.correlation), 1.0);
    assert_eq!(value(r.hedge_ratio), 1.0);
    assert_eq!(value(r.adf_stat), 0.0);
    assert!(!r.is_cointegrated);
    assert_eq!(value(r.current_zscore), 0.0);
    assert_eq!(value(r.half_life_periods), f64::INFINITY);
    assert_eq!(value(r.spread_mean), 0.0);
    assert_eq!(value(r.spread_std), 0.0);
}

#[test]
fn only_the_newest_common_prices_count() {
    let a: Vec<f64> = (0..80).map(|i| 10.0 + (i as f64 * 0.7).sin()).collect();
    let b: Vec<f64> = a.iter().map(|x| 3.0 * x + (x * 9.0).cos() * 0.1).collect();
    let mut longer = vec![777.0; 20];
    longer.extend(&b);
    let plain = engle_granger("A", "B", &nums(&a), &nums(&b), num(0.9), &calc());
    let offset = engle_granger("A", "B", &nums(&a), &nums(&longer), num(0.9), &calc());
    assert_eq!(plain.hedge_ratio, offset.hedge_ratio);
    assert_eq!(plain.adf_stat, offset.adf_stat);
    assert_eq!(plain.spread_std, offset.spread_std);
}

#[test]
fn guard_scores_each_factor() {
    let threshold = num(0.5);
    let up = num(2.5);
    let all = GuardFactors {
        hurst: num(0.4),
        velocity: num(-0.3),
        acceleration: num(-0.1),
        ou_r2: num(0.02),
        adf_trend: num(0.0),
    };
    let g = EntryGuard::from_factors(all, up, threshold);
    assert_eq!((g.score, g.pass_mask), (5, 31));
    assert!(g.is_passing(5));
    // at the limit a factor does not pass, but stability does
    let limits = GuardFactors { hurst: num(0.5), ou_r2: num(0.005), ..all };
    let g = EntryGuard::from_factors(limits, up, threshold);
    assert_eq!((g.score, g.pass_mask), (3, 2 + 4 + 16));
    assert!(!g.is_passing(4));
    assert!(g.is_passing(3));
    // the same momentum does not help a spread on the other side
    let g = EntryGuard::from_factors(all, num(-2.5), threshold);
    assert_eq!((g.score, g.pass_mask), (3, 1 + 8 + 16));
    // acceleration without velocity does not pass
    let stalled = GuardFactors { velocity: num(0.0), ..all };
    let g = EntryGuard::from_factors(stalled, up, threshold);
    assert_eq!(g.pass_mask, 1 + 8 + 16);
    // a measurement that is not a number passes nothing
    let unknown = num(f64::NAN);
    let g = EntryGuard::from_factors(
        GuardFactors { hurst: unknown, velocity: unknown, acceleration: unknown, ou_r2: unknown, adf_trend: unknown },
        up,
        threshold,
    );
    assert_eq!((g.score, g.pass_mask), (0, 0));
}

#[test]
fn every_mask_has_its_own_text() {
    let mut seen: Vec<String> = Vec::new();
    for mask in 0..32u8 {
        let text = EntryGuard { pass_mask: mask, ..EntryGuard::default() }.breakdown();
        assert!(!seen.contains(&text));
        seen.push(text);
    }
}

#[test]
fn too_few_candles_give_the_blank_guard() {
    let few = nums(&vec![1.0; 19]);
    let many = nums(&vec![1.0; 100]);
    let g = EntryGuard::compute(&few, &many, num(1.0), num(0.0), num(1.0), num(3.0), 5, 200, num(0.5), &calc());
    assert_eq!(g, EntryGuard::default());
    assert_eq!(value(g.hurst), 0.5);
    assert_eq!(g.score, 0);
}

#[test]
fn velocity_and_acceleration_are_differences_of_zscores() {
    // spread is b itself: squares, so z grows by 2i - 1 from one to the next
    let a = nums(&vec![0.0; 40]);
    let b: Vec<f64> = (0..40).map(|i| (i * i) as f64).collect();
    let g = EntryGuard::compute(&a, &nums(&b), num(1.0), num(0.0), num(2.0), num(-3.0), 2, 200, num(0.5), &calc());
    // z(39) - z(37) = (1521 - 1369) / 2, z(37) - z(35) = (1369 - 1225) / 2
    assert_eq!(value(g.velocity), 76.0);
    assert_eq!(value(g.acceleration), 4.0);
    // a window that does not fit three times is not measured
    let g = EntryGuard::compute(&a, &nums(&b), num(1.0), num(0.0), num(2.0), num(-3.0), 14, 200, num(0.5), &calc());
    assert_eq!(value(g.velocity), 0.0);
    assert_eq!(value(g.acceleration), 0.0);
}

#[test]
fn fit_of_a_line_through_all_changes_is_one() {
    let series: Vec<f64> = (0..30).map(|i| 0.5f64.powi(i)).collect();
    assert!((value(ou_r_squared(&nums(&series), &calc())) - 1.0).abs() < 1e-9);
    assert_eq!(value(ou_r_squared(&nums(&series[..19]), &calc())), 0.0);
    assert_eq!(value(ou_r_squared(&nums(&vec![1.0; 50]), &calc())), 0.0);
}

#[test]
fn stability_needs_sixty_values() {
    let series: Vec<f64> = (0..59).map(|i| (i as f64).sin()).collect();
    assert_eq!(adf_stability(&nums(&series), &calc()), (num(0.0), num(0.0)));
    let series: Vec<f64> = (0..100).map(|i| (i as f64 * 1.7).sin()).collect();
    let (recent, trend) = adf_stability(&nums(&series), &calc());
    let (full, _) = adf_test(&nums(&series), &calc());
    let (last, _) = adf_test(&nums(&series[40..]), &calc());
    assert_eq!(recent, last);
    assert_eq!(value(trend), value(last) - value(full));
}
