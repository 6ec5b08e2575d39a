use tera::builtins::testers::{
    containing, defined, divisible_by, ending_with, even, iterable, matching, number,
    number_args_allowed, odd, starting_with, string, undefined,
};
use tera::errors::ErrorKind;
use tera::value::{Float, Object, Value};

fn float(x: f64) -> Value {
    Value::Float(Float::new(x.to_bits(), x.to_string()))
}

#[test]
fn test_number_args_ok() {
    assert!(defined(None, &vec![]).is_ok())
}

#[test]
fn test_too_many_args() {
    assert!(defined(None, &vec![Value::Integer(1)]).is_err())
}

#[test]
fn test_value_defined() {
    assert!(string(None, &[]).is_err())
}

#[test]
fn test_divisible_by() {
    let tests = vec![
        (1.0, 2.0, false),
        (4.0, 2.0, true),
        (4.0, 2.1, false),
        (10.0, 2.0, true),
        (10.0, 0.0, false),
    ];

    for (val, divisor, expected) in tests {
        assert_eq!(
            divisible_by(Some(&float(val)), &[float(divisor)],)
                .unwrap(),
            expected
        );
    }
}

#[test]
fn test_iterable() {
    assert_eq!(iterable(Some(&Value::Array(vec![Value::String("1".to_string())])), &[]).unwrap(), true);
    assert_eq!(iterable(Some(&Value::Integer(1)), &[]).unwrap(), false);
    assert_eq!(iterable(Some(&Value::String("hello".to_string())), &[]).unwrap(), false);
}

#[test]
fn test_starting_with() {
    assert!(starting_with(
        Some(&Value::String("helloworld".to_string())),
        &[Value::String("hello".to_string())],
    )
    .unwrap());
    assert!(
        !starting_with(Some(&Value::String("hello".to_string())), &[Value::String("hi".to_string())],).unwrap()
    );
}

#[test]
fn test_ending_with() {
    assert!(
        ending_with(Some(&Value::String("helloworld".to_string())), &[Value::String("world".to_string())],)
            .unwrap()
    );
    assert!(
        !ending_with(Some(&Value::String("hello".to_string())), &[Value::String("hi".to_string())],).unwrap()
    );
}

#[test]
fn test_containing() {
    let mut map = Object::new();
    map.insert("hey".to_string(), Value::Integer(1));

    let tests = vec![
        (Value::String("hello world".to_string()), Value::String("hel".to_string()), true),
        (Value::String("hello world".to_string()), Value::String("hol".to_string()), false),
        (Value::Array(vec![Value::Integer(1), Value::Integer(2), Value::Integer(3)]), Value::Integer(3), true),
        (Value::Array(vec![Value::Integer(1), Value::Integer(2), Value::Integer(3)]), Value::Integer(4), false),
        (Value::Object(map.clone()), Value::String("hey".to_string()), true),
        (Value::Object(map.clone()), Value::String("ho".to_string()), false),
    ];

    for (container, needle, expected) in tests {
        assert_eq!(containing(Some(&container), &[needle]).unwrap(), expected);
    }
}

#[test]
fn test_matching() {
    let tests = vec![
        (Value::String("abc".to_string()), Value::String("b".to_string()), true),
        (Value::String("abc".to_string()), Value::String("^b$".to_string()), false),
        (
            Value::String("Hello, World!".to_string()),
            Value::String(r"(?i)(hello\W\sworld\W)".to_string()),
            true,
        ),
        (
            Value::String("The date was 2018-06-28".to_string()),
            Value::String(r"\d{4}-\d{2}-\d{2}$".to_string()),
            true,
        ),
    ];

    for (container, needle, expected) in tests {
        assert_eq!(matching(Some(&container), &[needle]).unwrap(), expected);
    }

    assert!(
        matching(Some(&Value::empty_string()), &[Value::String("(Invalid regex".to_string())]).is_err()
    );
}

#[test]
fn number_args_allowed_counts() {
    assert!(number_args_allowed(0, 0).is_ok());
    assert!(number_args_allowed(1, 0).is_ok());
    assert!(number_args_allowed(1, 1).is_ok());
    let err = number_args_allowed(0, 2).unwrap_err();
    assert_eq!(err.kind, ErrorKind::InvalidArgumentValue);
    assert_eq!(
        err.to_string(),
        "Tester was called with some args but this test doesn't take args"
    );
    let err = number_args_allowed(1, 12).unwrap_err();
    assert_eq!(err.to_string(), "Tester was called with 12 args, the max number is 1");
}

#[test]
fn defined_and_undefined() {
    assert_eq!(defined(None, &[]).unwrap(), false);
    assert_eq!(defined(Some(&Value::Bool(false)), &[]).unwrap(), true);
    assert_eq!(undefined(None, &[]).unwrap(), true);
    assert_eq!(undefined(Some(&Value::empty_string()), &[]).unwrap(), false);
    assert!(undefined(None, &[Value::Integer(1)]).is_err());
}

#[test]
fn testers_refuse_undefined_values() {
    let err = string(None, &[]).unwrap_err();
    assert_eq!(err.kind, ErrorKind::UndefinedVariable);
    assert_eq!(err.to_string(), "Tester `string` was called on an undefined variable");
    let err = divisible_by(None, &[Value::Integer(2)]).unwrap_err();
    assert_eq!(err.to_string(), "Tester `divisibleby` was called on an undefined variable");
    for failing in [
        number(None, &[]),
        odd(None, &[]),
        even(None, &[]),
        iterable(None, &[]),
        starting_with(None, &[Value::empty_string()]),
        ending_with(None, &[Value::empty_string()]),
        containing(None, &[Value::empty_string()]),
        matching(None, &[Value::empty_string()]),
    ] {
        assert_eq!(failing.unwrap_err().kind, ErrorKind::UndefinedVariable);
    }
}

#[test]
fn string_and_number() {
    assert_eq!(string(Some(&Value::empty_string()), &[]).unwrap(), true);
    assert_eq!(string(Some(&Value::Integer(1)), &[]).unwrap(), false);
    assert_eq!(number(Some(&Value::Integer(1)), &[]).unwrap(), true);
    assert_eq!(number(Some(&float(1.5)), &[]).unwrap(), true);
    assert_eq!(number(Some(&Value::Bool(true)), &[]).unwrap(), false);
}

#[test]
fn odd_and_even_integers() {
    for i in [-5i64, -4, -1, 0, 1, 2, 3, 1 << 40, (1 << 40) + 1, i64::MAX, i64::MIN] {
        let expected = i % 2 != 0;
        assert_eq!(odd(Some(&Value::Integer(i)), &[]).unwrap(), expected, "odd {}", i);
        assert_eq!(even(Some(&Value::Integer(i)), &[]).unwrap(), !expected, "even {}", i);
    }
}

#[test]
fn odd_and_even_floats_as_the_arithmetic_does() {
    let samples = [
        0.0,
        -0.0,
        1.0,
        2.0,
        3.0,
        -3.0,
        -4.0,
        0.5,
        1.5,
        2.5,
        4503599627370495.0,
        4503599627370496.0,
        4503599627370497.0,
        9007199254740991.0,
        9007199254740992.0,
        9007199254740994.0,
        1e300,
        5e-324,
        f64::MIN_POSITIVE,
        f64::MAX,
        f64::INFINITY,
        f64::NEG_INFINITY,
        f64::NAN,
    ];
    for x in samples {
        let expected = x % 2.0 != 0.0;
        assert_eq!(odd(Some(&float(x)), &[]).unwrap(), expected, "odd {:e}", x);
        assert_eq!(even(Some(&float(x)), &[]).unwrap(), !expected, "even {:e}", x);
    }
}

#[test]
fn divisible_by_as_the_arithmetic_does() {
    let samples = [
        0.0,
        -0.0,
        1.0,
        -1.0,
        2.0,
        3.0,
        0.1,
        0.2,
        0.3,
        0.5,
        0.25,
        2.1,
        4.0,
        10.0,
        -7.5,
        2.5,
        1e22,
        1e23,
        1e300,
        1e-300,
        5e-324,
        1.5e-323,
        f64::MIN_POSITIVE,
        3.0 * f64::MIN_POSITIVE,
        f64::MAX,
        9007199254740992.0,
        9007199254740993.5,
        f64::INFINITY,
        f64::NEG_INFINITY,
        f64::NAN,
    ];
    for x in samples {
        for p in samples {
            let expected = x % p == 0.0;
            assert_eq!(
                divisible_by(Some(&float(x)), &[float(p)]).unwrap(),
                expected,
                "{:e} by {:e}",
                x,
                p
            );
        }
    }
}

#[test]
fn divisible_by_integers_and_mixed() {
    let tests = vec![
        (Value::Integer(10), Value::Integer(5), true),
        (Value::Integer(10), Value::Integer(3), false),
        (Value::Integer(10), Value::Integer(0), false),
        (Value::Integer(0), Value::Integer(3), true),
        (Value::Integer(-9), Value::Integer(3), true),
        (Value::Integer(9), Value::Integer(-3), true),
        (Value::Integer(i64::MIN), Value::Integer(-1), true),
        (Value::Integer(i64::MAX), Value::Integer(2), false),
        (Value::Integer(3), float(1.5), true),
        (Value::Integer(3), float(0.7), false),
        (float(7.5), Value::Integer(3), false),
        (float(7.5), Value::Integer(5), false),
        (float(6.0), Value::Integer(3), true),
        (Value::Integer(1), float(5e-324), true),
        (Value::Integer(3), float(f64::INFINITY), false),
        (Value::Integer(0), float(f64::INFINITY), true),
    ];
    for (value, divisor, expected) in tests {
        assert_eq!(
            divisible_by(Some(&value), &[divisor.clone()]).unwrap(),
            expected,
            "{:?} by {:?}",
            value,
            divisor
        );
    }
}

#[test]
fn divisible_by_needs_numbers() {
    let err = divisible_by(Some(&Value::Bool(true)), &[Value::Integer(2)]).unwrap_err();
    assert_eq!(err.kind, ErrorKind::TypeMismatch);
    assert_eq!(
        err.to_string(),
        "Tester `divisibleby` was called on a variable that isn't a number"
    );
    let err = divisible_by(Some(&Value::Integer(2)), &[]).unwrap_err();
    assert_eq!(
        err.to_string(),
        "Tester `divisibleby` was called with a parameter that isn't a number"
    );
    let err = divisible_by(Some(&Value::Integer(2)), &[Value::empty_string()]).unwrap_err();
    assert_eq!(
        err.to_string(),
        "Tester `divisibleby` was called with a parameter that isn't a number"
    );
    let err = odd(Some(&Value::empty_string()), &[]).unwrap_err();
    assert_eq!(err.to_string(), "Tester `odd` was called on a variable that isn't a number");
    let err = even(Some(&Value::empty_string()), &[]).unwrap_err();
    assert_eq!(err.to_string(), "Tester `odd` was called on a variable that isn't a number");
}

#[test]
fn text_testers_need_strings() {
    let err = starting_with(Some(&Value::Integer(1)), &[Value::empty_string()]).unwrap_err();
    assert_eq!(err.kind, ErrorKind::TypeMismatch);
    assert_eq!(
        err.to_string(),
        "Tester `starting_with` was called on a variable that isn't a string"
    );
    let err = ending_with(Some(&Value::empty_string()), &[]).unwrap_err();
    assert_eq!(
        err.to_string(),
        "Tester `ending_with` was called with a parameter that isn't a string"
    );
    let err = matching(Some(&Value::empty_string()), &[Value::Integer(1)]).unwrap_err();
    assert_eq!(
        err.to_string(),
        "Tester `matching` was called with a parameter that isn't a string"
    );
    let err = matching(Some(&Value::empty_string()), &[Value::String("(".to_string())]).unwrap_err();
    assert_eq!(err.kind, ErrorKind::InvalidArgumentValue);
    assert!(err.to_string().starts_with("Tester `matching`: Invalid regular expression: "));
    assert!(err.to_string().len() > "Tester `matching`: Invalid regular expression: ".len());
}

#[test]
fn text_testers_on_edges() {
    let word = Value::String("hello".to_string());
    let empty = Value::empty_string();
    assert!(starting_with(Some(&word), &[empty.clone()]).unwrap());
    assert!(ending_with(Some(&word), &[empty.clone()]).unwrap());
    assert!(containing(Some(&word), &[empty.clone()]).unwrap());
    assert!(containing(Some(&empty), &[empty.clone()]).unwrap());
    assert!(starting_with(Some(&word), &[word.clone()]).unwrap());
    assert!(ending_with(Some(&word), &[word.clone()]).unwrap());
    assert!(containing(Some(&word), &[Value::String("llo".to_string())]).unwrap());
    assert!(!containing(Some(&word), &[Value::String("hello!".to_string())]).unwrap());
    assert!(!ending_with(Some(&word), &[Value::String("xhello".to_string())]).unwrap());
}

#[test]
fn containing_reports_what_it_cannot_search() {
    let err = containing(Some(&Value::Integer(1)), &[Value::Integer(1)]).unwrap_err();
    assert_eq!(err.kind, ErrorKind::TypeMismatch);
    assert_eq!(err.to_string(), "Tester `containing` can only be used on string, array or map");
    let err = containing(Some(&Value::Array(vec![])), &[]).unwrap_err();
    assert_eq!(err.kind, ErrorKind::MissingArgument);
    let err = containing(Some(&Value::empty_string()), &[Value::Integer(1)]).unwrap_err();
    assert_eq!(
        err.to_string(),
        "Tester `containing` was called with a parameter that isn't a string"
    );
    let floats = Value::Array(vec![float(0.0), float(f64::NAN)]);
    assert!(containing(Some(&floats), &[float(-0.0)]).unwrap());
    assert!(!containing(Some(&floats), &[float(f64::NAN)]).unwrap());
    assert!(!containing(Some(&floats), &[Value::Integer(0)]).unwrap());
}
