use barzel::percent::{
    Percent, EIGHTY, HUNDRED, MINUS_TENTH, NINETY_FIVE, ONE, TENTH, ZERO,
};

fn pct(x: f64) -> Percent {
    Percent { bits: x.to_bits() }
}

#[test]
fn constants_are_the_numbers_they_name() {
    assert_eq!(f64::from_bits(ZERO), 0.0);
    assert_eq!(f64::from_bits(ONE), 1.0);
    assert_eq!(f64::from_bits(EIGHTY), 80.0);
    assert_eq!(f64::from_bits(NINETY_FIVE), 95.0);
    assert_eq!(f64::from_bits(HUNDRED), 100.0);
    assert_eq!(f64::from_bits(TENTH), 0.1);
    assert_eq!(f64::from_bits(MINUS_TENTH), -0.1);
}

#[test]
fn comparisons_are_those_of_floating_point() {
    let all = [
        0.0,
        -0.0,
        1.0,
        -1.0,
        99.999,
        f64::MIN_POSITIVE,
        -f64::MIN_POSITIVE,
        f64::MAX,
        f64::INFINITY,
        f64::NEG_INFINITY,
        f64::NAN,
    ];
    for a in all {
        assert_eq!(pct(a).number(), !a.is_nan());
        assert_eq!(pct(a).finite(), a.is_finite());
        for b in all {
            assert_eq!(pct(a).at_least(pct(b)), a >= b, "{a} >= {b}");
            assert_eq!(pct(a).below(pct(b)), a < b, "{a} < {b}");
        }
    }
}
