use tera::builtins::functions::{now, range, throw};
use tera::errors::ErrorKind;
use tera::value::{Object, Value};

fn ints(items: &[i64]) -> Value {
    Value::Array(items.iter().map(|i| Value::Integer(*i)).collect())
}

fn args(entries: &[(&str, Value)]) -> Object {
    let mut object = Object::new();
    for (key, value) in entries {
        object.insert(key.to_string(), value.clone());
    }
    object
}

fn as_text(value: &Value) -> &str {
    match value {
        Value::String(s) => s,
        other => panic!("not a string: {:?}", other),
    }
}

#[test]
fn range_default() {
    let args = args(&[("end", Value::Integer(5))]);

    let res = range(&args).unwrap();
    assert_eq!(res, Value::Array(vec![Value::Integer(0), Value::Integer(1), Value::Integer(2), Value::Integer(3), Value::Integer(4)]));
}

#[test]
fn range_start() {
    let args = args(&[("end", Value::Integer(5)), ("start", Value::Integer(1))]);

    let res = range(&args).unwrap();
    assert_eq!(res, ints(&[1, 2, 3, 4]));
}

#[test]
fn range_start_greater_than_end() {
    let args = args(&[("end", Value::Integer(5)), ("start", Value::Integer(6))]);

    assert!(range(&args).is_err());
}

#[test]
fn range_step_by() {
    let args = args(&[("end", Value::Integer(10)), ("step_by", Value::Integer(2))]);

    let res = range(&args).unwrap();
    assert_eq!(res, ints(&[0, 2, 4, 6, 8]));
}

#[test]
fn now_default() {
    let args = Object::new();

    let res = now(&args).unwrap();
    assert!(matches!(res, Value::String(_)));
    assert!(as_text(&res).contains("T"));
}

#[test]
fn now_datetime_utc() {
    let args = args(&[("utc", Value::Bool(true))]);

    let res = now(&args).unwrap();
    assert!(matches!(res, Value::String(_)));
    let val = as_text(&res);
    println!("{}", val);
    assert!(val.contains("T"));
    assert!(val.contains("+00:00"));
}

#[test]
fn now_timestamp() {
    let args = args(&[("timestamp", Value::Bool(true))]);

    let res = now(&args).unwrap();
    assert!(matches!(res, Value::Integer(_)));
}

#[test]
fn throw_errors_with_message() {
    let args = args(&[("message", Value::String("Hello".to_owned()))]);

    let res = throw(&args);
    assert!(res.is_err());
    let err = res.unwrap_err();
    assert_eq!(err.to_string(), "Hello");
}

#[test]
fn range_edges() {
    assert_eq!(range(&args(&[("end", Value::Integer(0))])).unwrap(), ints(&[]));
    assert_eq!(
        range(&args(&[("end", Value::Integer(7)), ("start", Value::Integer(7))])).unwrap(),
        ints(&[])
    );
    assert_eq!(
        range(&args(&[("end", Value::Integer(10)), ("start", Value::Integer(1)), ("step_by", Value::Integer(4))]))
            .unwrap(),
        ints(&[1, 5, 9])
    );
    assert_eq!(
        range(&args(&[
            ("end", Value::Integer(i64::MAX)),
            ("start", Value::Integer(i64::MAX - 5)),
            ("step_by", Value::Integer(3)),
        ]))
        .unwrap(),
        ints(&[i64::MAX - 5, i64::MAX - 2])
    );
}

#[test]
fn range_reports_bad_arguments() {
    let err = range(&Object::new()).unwrap_err();
    assert_eq!(err.kind, ErrorKind::MissingArgument);
    assert_eq!(err.to_string(), "function was called without a `end` argument");
    let err = range(&args(&[("end", Value::Integer(-1))])).unwrap_err();
    assert_eq!(err.kind, ErrorKind::InvalidArgumentValue);
    assert_eq!(
        err.to_string(),
        "function received end=-1 but `end` can only be a non-negative number"
    );
    let err = range(&args(&[("end", Value::Integer(3)), ("start", Value::Bool(true))])).unwrap_err();
    assert_eq!(
        err.to_string(),
        "function received start=true but `start` can only be a non-negative number"
    );
    let err = range(&args(&[("end", Value::Integer(3)), ("step_by", Value::Integer(0))])).unwrap_err();
    assert_eq!(
        err.to_string(),
        "function received step_by=0 but `step` can only be a positive number"
    );
    let err = range(&args(&[("end", Value::Integer(5)), ("start", Value::Integer(6))])).unwrap_err();
    assert_eq!(err.kind, ErrorKind::InvalidArgumentValue);
    assert_eq!(
        err.to_string(),
        "function was called without a `start` argument greater than the `end` one"
    );
}

#[test]
fn now_reports_bad_arguments() {
    let err = now(&args(&[("utc", Value::Integer(1))])).unwrap_err();
    assert_eq!(err.kind, ErrorKind::InvalidArgumentValue);
    assert_eq!(
        err.to_string(),
        "Global function `now` received utc=1 but `utc` can only be a boolean"
    );
    let err = now(&args(&[("timestamp", Value::String("yes".to_string()))])).unwrap_err();
    assert_eq!(
        err.to_string(),
        "Global function `now` received timestamp=\"yes\" but `timestamp` can only be a boolean"
    );
    let stamp = now(&args(&[("utc", Value::Bool(true)), ("timestamp", Value::Bool(true))])).unwrap();
    match stamp {
        Value::Integer(seconds) => assert!(seconds > 1_600_000_000),
        other => panic!("not an integer: {:?}", other),
    }
}

#[test]
fn throw_reports_bad_arguments() {
    let err = throw(&args(&[("message", Value::String("Hello".to_owned()))])).unwrap_err();
    assert_eq!(err.kind, ErrorKind::Raised);
    let err = throw(&Object::new()).unwrap_err();
    assert_eq!(err.kind, ErrorKind::MissingArgument);
    assert_eq!(
        err.to_string(),
        "Global function `throw` was called without a `message` argument"
    );
    let err = throw(&args(&[("message", Value::Integer(3))])).unwrap_err();
    assert_eq!(err.kind, ErrorKind::InvalidArgumentValue);
    assert_eq!(
        err.to_string(),
        "Global function `throw` received message=3 but `message` can only be a string"
    );
}
