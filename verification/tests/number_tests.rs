use lua_interpreter::number::Number;

fn num(n: f64) -> Number {
    Number { bits: n.to_bits() }
}

fn samples() -> Vec<f64> {
    vec![
        0.0,
        -0.0,
        1.0,
        -1.0,
        0.5,
        -0.5,
        2.0,
        1e300,
        -1e300,
        5e-324,
        -5e-324,
        f64::MAX,
        f64::MIN,
        f64::MIN_POSITIVE,
        f64::INFINITY,
        f64::NEG_INFINITY,
        f64::NAN,
        -f64::NAN,
        f64::from_bits(0x7ff0_0000_0000_0001),
        f64::from_bits(0xffff_ffff_ffff_ffff),
    ]
}

#[test]
fn zero_and_one() {
    assert_eq!(Number::zero(), num(0.0));
    assert_eq!(Number::one(), num(1.0));
    assert_eq!(Number::from_bool(true), num(1.0));
    assert_eq!(Number::from_bool(false), num(0.0));
}

#[test]
fn not_a_number_is_told_from_numbers() {
    for x in samples() {
        assert_eq!(num(x).not_a_number(), x.is_nan(), "{}", x);
    }
}

#[test]
fn order_and_equality_follow_the_doubles() {
    for a in samples() {
        for b in samples() {
            assert_eq!(num(a).less_than(&num(b)), a < b, "{} < {}", a, b);
            assert_eq!(num(a).less_equal(&num(b)), a <= b, "{} <= {}", a, b);
            assert_eq!(num(a).equals(&num(b)), a == b, "{} == {}", a, b);
        }
    }
}

#[test]
fn both_zeros_are_equal_and_not_a_number_equals_nothing() {
    assert!(num(0.0).equals(&num(-0.0)));
    assert!(!num(0.0).less_than(&num(-0.0)));
    assert!(num(-0.0).less_equal(&num(0.0)));
    assert!(!num(f64::NAN).equals(&num(f64::NAN)));
    assert!(!num(f64::NAN).less_equal(&num(f64::NAN)));
    assert!(!num(f64::NAN).less_than(&num(1.0)));
    assert!(!num(1.0).less_than(&num(f64::NAN)));
}

#[test]
fn negation_flips_the_sign_bit() {
    for x in samples() {
        assert_eq!(num(x).negate().bits, (-x).to_bits(), "{}", x);
    }
    assert_eq!(num(2.5).negate(), num(-2.5));
    assert_eq!(num(0.0).negate(), num(-0.0));
    assert_eq!(num(-0.0).negate(), num(0.0));
}

#[test]
fn small_counts_are_exact() {
    assert_eq!(Number::from_length(0), num(0.0));
    assert_eq!(Number::from_length(1), num(1.0));
    assert_eq!(Number::from_length(2), num(2.0));
    assert_eq!(Number::from_length(3), num(3.0));
    assert_eq!(Number::from_length(10), num(10.0));
    assert_eq!(Number::from_length(255), num(255.0));
    assert_eq!(Number::from_length(1_000_000), num(1_000_000.0));
    assert_eq!(Number::from_length(1).bits, 0x3ff0_0000_0000_0000);
    assert_eq!(Number::from_length(2).bits, 0x4000_0000_0000_0000);
    assert_eq!(Number::from_length(3).bits, 0x4008_0000_0000_0000);
}

#[test]
fn counts_are_the_nearest_doubles() {
    let mut counts: Vec<usize> = Vec::new();
    for shift in 0..usize::BITS {
        let power = 1usize << shift;
        counts.push(power);
        counts.push(power - 1);
        counts.push(power.wrapping_add(1));
        counts.push(power | (power >> 1));
        counts.push(power | (power >> 53));
        counts.push(power | (power >> 54));
        counts.push(power | (power >> 53) | 1);
        counts.push(power | (power >> 52) | (power >> 53));
    }
    counts.push(usize::MAX);
    counts.push(usize::MAX - 1);
    counts.push(usize::MAX - 1024);
    counts.push(usize::MAX - 1023);
    for n in counts {
        assert_eq!(Number::from_length(n).bits, (n as f64).to_bits(), "{}", n);
    }
}

#[test]
fn ties_round_to_the_even_significand() {
    if usize::BITS >= 64 {
        let base = 1usize << 53;
        assert_eq!(Number::from_length(base + 1), num(9007199254740992.0));
        assert_eq!(Number::from_length(base + 2), num(9007199254740994.0));
        assert_eq!(Number::from_length(base + 3), num(9007199254740996.0));
    }
}
