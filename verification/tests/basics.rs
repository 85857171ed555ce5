use lead_lag::notify::dedup::TradeDedup;
use lead_lag::num::{Num, HALF, INFINITE, ONE, SIGN_BIT, ZERO};
use lead_lag::text::{chars_of, decimal, parse_unsigned, same};

fn num(x: f64) -> Num {
    Num::from_bits(x.to_bits())
}

#[test]
fn numbers_compare_as_floats_do() {
    let samples = [
        0.0,
        -0.0,
        1.0,
        -1.0,
        0.5,
        1e-300,
        -1e-300,
        5e-324,
        1e300,
        -1e300,
        f64::INFINITY,
        f64::NEG_INFINITY,
        f64::NAN,
        -f64::NAN,
        f64::MAX,
        f64::MIN,
    ];
    for a in samples {
        assert_eq!(num(a).is_nan(), a.is_nan());
        assert_eq!(num(a).is_finite(), a.is_finite());
        assert_eq!(num(a).abs().to_bits(), a.abs().to_bits());
        assert_eq!(num(a).neg().to_bits(), (-a).to_bits());
        for b in samples {
            assert_eq!(num(a).lt(num(b)), a < b, "{} < {}", a, b);
            assert_eq!(num(a).le(num(b)), a <= b, "{} <= {}", a, b);
            if !a.is_nan() || !b.is_nan() {
                assert_eq!(f64::from_bits(num(a).max(num(b)).to_bits()), a.max(b));
                assert_eq!(f64::from_bits(num(a).min(num(b)).to_bits()), a.min(b));
            }
        }
    }
}

#[test]
fn patterns_of_plain_numbers() {
    assert_eq!(ZERO, 0.0f64.to_bits());
    assert_eq!(ONE, 1.0f64.to_bits());
    assert_eq!(HALF, 0.5f64.to_bits());
    assert_eq!(INFINITE, f64::INFINITY.to_bits());
    assert_eq!(SIGN_BIT, (-0.0f64).to_bits());
}

#[test]
fn numerals_name_their_numbers() {
    for n in [0, 1, 9, 10, 99, 100, 1700000000000, u64::MAX - 1, u64::MAX] {
        assert_eq!(decimal(n), n.to_string());
        assert_eq!(parse_unsigned(&decimal(n)), Some(n));
    }
    for text in ["", "+", "-1", " 1", "1 ", "1.0", "18446744073709551616", "++1", "x", "٣"] {
        assert_eq!(parse_unsigned(text), text.parse::<u64>().ok(), "{}", text);
    }
    assert_eq!(parse_unsigned("+7"), Some(7));
    assert_eq!(parse_unsigned("000000000000000000000000007"), Some(7));
}

#[test]
fn texts_are_compared_by_their_characters() {
    assert!(same("USDT", "USDT"));
    assert!(!same("USDT", "USDC"));
    assert!(!same("USD", "USDT"));
    assert_eq!(chars_of("aβ↔"), vec!['a', 'β', '↔']);
}

#[test]
fn an_opening_is_announced_again_only_after_its_closing() {
    let mut d = TradeDedup::default();
    assert!(d.should_alert_open(1));
    assert!(!d.should_alert_open(1));
    d.cleanup();
    assert!(!d.should_alert_open(1));
    assert!(d.should_alert_close(1));
    assert!(d.should_alert_open(1));
    assert!(!d.should_alert_close(1));
    d.cleanup();
    assert!(d.should_alert_close(1));
}
