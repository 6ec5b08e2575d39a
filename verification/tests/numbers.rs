use tera::number::{
    check_finite, check_nan, check_numbers_equal, check_zero, order_key_of, Comparison, Number,
    Operation, Outcome,
};

fn samples() -> Vec<f64> {
    vec![
        0.0,
        -0.0,
        5e-324,
        -5e-324,
        f64::MIN_POSITIVE,
        -f64::MIN_POSITIVE,
        0.1,
        0.5,
        1.0,
        -1.0,
        1.5,
        2.0,
        -2.0,
        2.5,
        1e10,
        4503599627370496.0,
        9007199254740992.0,
        9007199254740993.0,
        9223372036854775807.0,
        -9223372036854775808.0,
        9223372036854777856.0,
        -9223372036854777856.0,
        1e300,
        -1e300,
        f64::MAX,
        f64::MIN,
        f64::INFINITY,
        f64::NEG_INFINITY,
    ]
}

fn integers() -> Vec<i64> {
    vec![
        0,
        1,
        -1,
        2,
        -2,
        3,
        1 << 52,
        (1 << 53) - 1,
        1 << 53,
        (1 << 53) + 1,
        -((1 << 53) + 1),
        (1 << 62) + 1,
        i64::MAX,
        i64::MAX - 1,
        i64::MIN,
        i64::MIN + 1,
    ]
}

fn expected(a: f64, b: f64) -> Comparison {
    if a < b {
        Comparison::Less
    } else if a == b {
        Comparison::Equal
    } else {
        Comparison::Greater
    }
}

// How an integer stands to a float, without rounding the integer.
fn exact(i: i64, x: f64) -> Comparison {
    if x >= 9223372036854775808.0 {
        return Comparison::Less;
    }
    if x < -9223372036854775808.0 {
        return Comparison::Greater;
    }
    let whole = x.trunc() as i64;
    if i < whole {
        Comparison::Less
    } else if i > whole {
        Comparison::Greater
    } else if x > x.trunc() {
        Comparison::Less
    } else if x < x.trunc() {
        Comparison::Greater
    } else {
        Comparison::Equal
    }
}

#[test]
fn integer_two_equals_float_two() {
    let two = Number::Integer(2);
    let also_two = Number::Float(2.0f64.to_bits());
    assert!(two.eq(&also_two));
    assert!(also_two.eq(&two));
    assert!(!two.ne(&also_two));
    assert!(two.lte(&also_two));
    assert!(two.gte(&also_two));
    assert!(!two.lt(&also_two));
    assert!(!two.gt(&also_two));
    assert!(!two.eq(&Number::Float(2.5f64.to_bits())));
    assert!(two.lt(&Number::Float(2.5f64.to_bits())));
    assert!(Number::Float(2.5f64.to_bits()).gt(&two));
}

#[test]
fn classification_follows_the_floats() {
    for x in samples().into_iter().chain([f64::NAN, -f64::NAN]) {
        let bits = x.to_bits();
        assert_eq!(check_nan(bits), x.is_nan(), "{:e}", x);
        assert_eq!(check_finite(bits), x.is_finite(), "{:e}", x);
        assert_eq!(check_zero(bits), x == 0.0, "{:e}", x);
    }
}

#[test]
fn floats_compare_as_floats_do() {
    for a in samples() {
        for b in samples() {
            assert_eq!(
                Number::Float(a.to_bits()).compare(&Number::Float(b.to_bits())),
                Some(expected(a, b)),
                "{:e} {:e}",
                a,
                b
            );
            assert_eq!(order_key_of(a.to_bits()) < order_key_of(b.to_bits()), a < b);
            assert_eq!(check_numbers_equal(a.to_bits(), b.to_bits()), a == b);
            let left = Number::Float(a.to_bits());
            let right = Number::Float(b.to_bits());
            assert_eq!(left.lt(&right), a < b);
            assert_eq!(left.lte(&right), a <= b);
            assert_eq!(left.gt(&right), a > b);
            assert_eq!(left.gte(&right), a >= b);
            assert_eq!(left.eq(&right), a == b);
            assert_eq!(left.ne(&right), a != b);
        }
    }
}

#[test]
fn nan_compares_with_nothing() {
    let nan = Number::Float(f64::NAN.to_bits());
    for other in [Number::Integer(0), Number::Float(1.0f64.to_bits()), nan] {
        assert_eq!(nan.compare(&other), None);
        assert_eq!(other.compare(&nan), None);
        assert!(!nan.eq(&other));
        assert!(nan.ne(&other));
        assert!(!nan.lt(&other) && !nan.lte(&other) && !nan.gt(&other) && !nan.gte(&other));
    }
    assert!(!check_numbers_equal(f64::NAN.to_bits(), f64::NAN.to_bits()));
}

#[test]
fn integers_compare_with_floats_exactly() {
    for i in integers() {
        for x in samples() {
            let left = Number::Integer(i);
            let right = Number::Float(x.to_bits());
            assert_eq!(left.compare(&right), Some(exact(i, x)), "{} {:e}", i, x);
            let back = match exact(i, x) {
                Comparison::Less => Comparison::Greater,
                Comparison::Equal => Comparison::Equal,
                Comparison::Greater => Comparison::Less,
            };
            assert_eq!(right.compare(&left), Some(back));
        }
    }
}

#[test]
fn large_integers_are_not_rounded() {
    let big = (1i64 << 53) + 1;
    let rounded = big as f64;
    assert_eq!(rounded, 9007199254740992.0);
    assert!(Number::Integer(big).gt(&Number::Float(rounded.to_bits())));
    assert!(Number::Integer(big - 1).eq(&Number::Float(rounded.to_bits())));
    assert!(Number::Integer(i64::MAX).lt(&Number::Float(9223372036854775808.0f64.to_bits())));
    assert!(Number::Integer(i64::MIN).eq(&Number::Float((-9223372036854775808.0f64).to_bits())));
}

#[test]
fn integers_compare_with_integers() {
    for a in integers() {
        for b in integers() {
            let left = Number::Integer(a);
            let right = Number::Integer(b);
            assert_eq!(left.lt(&right), a < b);
            assert_eq!(left.eq(&right), a == b);
            assert_eq!(left.gte(&right), a >= b);
            if b != 0 {
                assert_eq!(left.multiple_of(&right), a.checked_rem(b).unwrap_or(0) == 0, "{} {}", a, b);
            } else {
                assert!(!left.multiple_of(&right));
            }
        }
    }
}


// A small generator of bit patterns, so that the same patterns are tried on every run.
fn next_pattern(state: &mut u64) -> u64 {
    *state = state.wrapping_mul(6364136223846793005).wrapping_add(1442695040888963407);
    let a = *state;
    *state = state.wrapping_mul(6364136223846793005).wrapping_add(1442695040888963407);
    let b = *state;
    let mixed = (a >> 11) ^ (b << 21) ^ (b >> 43);
    // Now and then, numbers with few significant bits or near each other in size.
    match mixed % 4 {
        0 => mixed,
        1 => mixed & 0xfff8_0000_0000_0000,
        2 => (mixed & 0x800f_ffff_ffff_ffff) | 0x4330_0000_0000_0000,
        _ => (mixed & 0x8000_0000_0000_0fff) | 0x3ff0_0000_0000_0000 | ((mixed >> 20) & 0x00f0_0000_0000_0000),
    }
}

#[test]
fn many_floats_compare_as_floats_do() {
    let mut state = 0x2545f4914f6cdd1du64;
    for _ in 0..20000 {
        let a = f64::from_bits(next_pattern(&mut state));
        let b = f64::from_bits(next_pattern(&mut state));
        let left = Number::Float(a.to_bits());
        let right = Number::Float(b.to_bits());
        assert_eq!(left.lt(&right), a < b, "{:e} {:e}", a, b);
        assert_eq!(left.eq(&right), a == b, "{:e} {:e}", a, b);
        assert_eq!(left.gt(&right), a > b, "{:e} {:e}", a, b);
        assert_eq!(a.is_nan() || b.is_nan(), left.compare(&right).is_none());
    }
}

#[test]
fn many_floats_divide_as_floats_do() {
    let mut state = 0x9e3779b97f4a7c15u64;
    let mut multiples = 0;
    for _ in 0..20000 {
        let a = f64::from_bits(next_pattern(&mut state));
        let b = f64::from_bits(next_pattern(&mut state));
        let expected = a % b == 0.0;
        if expected {
            multiples += 1;
        }
        assert_eq!(
            Number::Float(a.to_bits()).multiple_of(&Number::Float(b.to_bits())),
            expected,
            "{:e} {:e}",
            a,
            b
        );
    }
    assert!(multiples > 100);
}

#[test]
fn many_integers_compare_with_floats_exactly() {
    let mut state = 0x853c49e6748fea9bu64;
    for _ in 0..20000 {
        let i = next_pattern(&mut state) as i64 >> (next_pattern(&mut state) % 64);
        let x = match next_pattern(&mut state) % 3 {
            0 => f64::from_bits(next_pattern(&mut state)),
            1 => i as f64,
            _ => (i as f64) + 0.5,
        };
        if x.is_nan() {
            continue;
        }
        assert_eq!(
            Number::Integer(i).compare(&Number::Float(x.to_bits())),
            Some(exact(i, x)),
            "{} {:e}",
            i,
            x
        );
    }
}

fn as_outcome(value: Option<i64>) -> Outcome {
    match value {
        Some(v) => Outcome::Integer(v),
        None => Outcome::NoResult,
    }
}

#[test]
fn integer_arithmetic_is_exact_or_has_no_result() {
    for x in integers() {
        for y in integers() {
            let a = Number::Integer(x);
            let b = Number::Integer(y);
            assert_eq!(a.arithmetic(Operation::Add, &b), as_outcome(x.checked_add(y)), "{} + {}", x, y);
            assert_eq!(a.arithmetic(Operation::Sub, &b), as_outcome(x.checked_sub(y)), "{} - {}", x, y);
            assert_eq!(a.arithmetic(Operation::Mul, &b), as_outcome(x.checked_mul(y)), "{} * {}", x, y);
            assert_eq!(a.arithmetic(Operation::Div, &b), as_outcome(x.checked_div(y)), "{} / {}", x, y);
            let rem = if y == 0 { None } else { Some(x.wrapping_rem(y)) };
            assert_eq!(a.arithmetic(Operation::Mod, &b), as_outcome(rem), "{} % {}", x, y);
        }
    }
    assert_eq!(
        Number::Integer(7).arithmetic(Operation::Div, &Number::Integer(-2)),
        Outcome::Integer(-3)
    );
    assert_eq!(
        Number::Integer(-7).arithmetic(Operation::Mod, &Number::Integer(2)),
        Outcome::Integer(-1)
    );
}

#[test]
fn arithmetic_with_a_float_is_floating_and_division_by_zero_has_no_result() {
    let half = Number::Float(0.5f64.to_bits());
    let zero = Number::Float(0.0f64.to_bits());
    let minus_zero = Number::Float((-0.0f64).to_bits());
    let nan = Number::Float(f64::NAN.to_bits());
    let three = Number::Integer(3);
    for op in [Operation::Add, Operation::Sub, Operation::Mul, Operation::Div, Operation::Mod] {
        assert_eq!(three.arithmetic(op, &half), Outcome::Floating);
        assert_eq!(half.arithmetic(op, &three), Outcome::Floating);
        assert_eq!(half.arithmetic(op, &nan), Outcome::Floating);
    }
    for op in [Operation::Add, Operation::Sub, Operation::Mul] {
        assert_eq!(three.arithmetic(op, &zero), Outcome::Floating);
        assert_eq!(half.arithmetic(op, &Number::Integer(0)), Outcome::Floating);
    }
    for op in [Operation::Div, Operation::Mod] {
        assert_eq!(three.arithmetic(op, &zero), Outcome::NoResult);
        assert_eq!(three.arithmetic(op, &minus_zero), Outcome::NoResult);
        assert_eq!(half.arithmetic(op, &zero), Outcome::NoResult);
        assert_eq!(half.arithmetic(op, &Number::Integer(0)), Outcome::NoResult);
        assert_eq!(three.arithmetic(op, &Number::Integer(0)), Outcome::NoResult);
        assert_eq!(zero.arithmetic(op, &half), Outcome::Floating);
    }
}
