use recall::json::Num;
use recall::score::{Score, EXACT_LIMIT};

fn score(x: f64) -> Score {
    Score { bits: x.to_bits() }
}

fn samples() -> Vec<f64> {
    vec![
        0.0,
        -0.0,
        1.0,
        -1.0,
        0.5,
        0.1,
        1.0 / 61.0,
        f64::MIN_POSITIVE,
        5e-324,
        -5e-324,
        f64::MAX,
        f64::MIN,
        f64::INFINITY,
        f64::NEG_INFINITY,
        f64::NAN,
        -f64::NAN,
        1e19,
        1.8446744073709552e19,
        9007199254740993.0,
        4503599627370497.5,
        2.9999999,
        0.9999999999999999,
    ]
}

#[test]
fn comparisons_are_those_of_doubles() {
    for a in samples() {
        assert_eq!(score(a).is_finite(), a.is_finite());
        for b in samples() {
            assert_eq!(score(a).lt(score(b)), a < b, "{a} < {b}");
            assert_eq!(score(a).gt(score(b)), a > b, "{a} > {b}");
            assert_eq!(score(a).ge(score(b)), a >= b, "{a} >= {b}");
            assert_eq!(
                score(a).above_in_order(score(b)),
                a.total_cmp(&b) == std::cmp::Ordering::Greater,
                "{a} {b}"
            );
        }
    }
}

#[test]
fn clamping_and_casting_are_those_of_doubles() {
    for a in samples() {
        assert_eq!(score(a).clamp_unit().bits, a.clamp(0.0, 1.0).to_bits(), "{a}");
        assert_eq!(score(a).whole(), a as u64, "{a}");
    }
}

#[test]
fn reciprocals_are_those_of_doubles() {
    let mut n: u64 = 1;
    while n < EXACT_LIMIT {
        for k in n..n + 40 {
            assert_eq!(Score::reciprocal(k).bits, (1.0 / k as f64).to_bits(), "1/{k}");
        }
        n = n * 3 + 7;
    }
    assert_eq!(Score::reciprocal(EXACT_LIMIT).bits, (1.0 / EXACT_LIMIT as f64).to_bits());
}

#[test]
fn sums_are_those_of_doubles() {
    let xs = [
        1.0,
        1.0 / 61.0,
        1.0 / 62.0,
        1.0 / 3.0,
        1e-17,
        1.1102230246251565e-16,
        2.220446049250313e-16,
        0.9999999999999999,
        f64::MIN_POSITIVE,
        1e300,
        f64::MAX,
        f64::INFINITY,
        3.0,
        123456789.123,
    ];
    for a in xs {
        for b in xs {
            assert_eq!(score(a).plus(score(b)).bits, (a + b).to_bits(), "{a} + {b}");
        }
    }
}

#[test]
fn counts_are_those_of_doubles() {
    let mut n: u64 = 0;
    while n < u64::MAX / 3 {
        for k in n..n + 5 {
            assert_eq!(Score::of_count(k).bits, (k as f64).to_bits(), "{k}");
        }
        n = n * 3 + 1;
    }
    assert_eq!(Score::of_count(u64::MAX).bits, (u64::MAX as f64).to_bits());
    for k in [0, 1, 1000, EXACT_LIMIT] {
        assert_eq!(Score::of_count(k).whole(), k);
    }
    assert_eq!(Num::Int(-3).as_score().bits, (-3.0f64).to_bits());
    assert_eq!(Num::Int(i64::MIN).as_score().bits, (i64::MIN as f64).to_bits());
    assert_eq!(Num::Int(5).as_score().bits, 5.0f64.to_bits());
    assert_eq!(Num::Real(score(0.3)).as_score(), score(0.3));
}
