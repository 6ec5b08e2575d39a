use chrono::{DateTime, Local};
use tera::builtins::filters::common::{as_str, date, json_encode_pretty, length, reverse};
use tera::errors::ErrorKind;
use tera::value::{Float, Object, Value};

fn float(x: f64) -> Value {
    Value::Float(Float::new(x.to_bits(), x.to_string()))
}

fn text(s: &str) -> Value {
    Value::String(s.to_string())
}

fn ints(items: &[i64]) -> Value {
    Value::Array(items.iter().map(|i| Value::Integer(*i)).collect())
}

fn one_arg(name: &str, value: Value) -> Object {
    let mut object = Object::new();
    object.insert(name.to_string(), value);
    object
}

#[test]
fn as_str_object() {
    let map = Value::Object(Object::new());
    let result = as_str(&map, &Object::new());
    assert!(result.is_ok());
    assert_eq!(result.unwrap(), Value::String("[object]".to_owned()));
}

#[test]
fn as_str_vec() {
    let arr = Value::Array(vec![
        Value::Integer(1),
        Value::Integer(2),
        Value::Integer(3),
        Value::Integer(4),
    ]);
    let result = as_str(&arr, &Object::new());
    assert!(result.is_ok());
    assert_eq!(result.unwrap(), Value::String("[1, 2, 3, 4]".to_owned()));
}

#[test]
fn length_vec() {
    let arr = Value::Array(vec![
        Value::Integer(1),
        Value::Integer(2),
        Value::Integer(3),
        Value::Integer(4),
    ]);
    let result = length(&arr, &Object::new());
    assert!(result.is_ok());
    assert_eq!(result.unwrap(), Value::Integer(4));
}

#[test]
fn length_str() {
    let result = length(&Value::String("Hello World".to_string()), &Object::new());
    assert!(result.is_ok());
    assert_eq!(result.unwrap(), Value::Integer(11));
}

#[test]
fn length_str_nonascii() {
    let result = length(&Value::String("日本語".to_string()), &Object::new());
    assert!(result.is_ok());
    assert_eq!(result.unwrap(), Value::Integer(3));
}

#[test]
fn length_num() {
    let result = length(&Value::Integer(15), &Object::new());
    assert!(result.is_ok());
    assert_eq!(result.unwrap(), Value::Integer(0));
}

#[test]
fn reverse_vec() {
    let result = reverse(&ints(&[1, 2, 3, 4]), &Object::new());
    assert!(result.is_ok());
    assert_eq!(result.unwrap(), ints(&[4, 3, 2, 1]));
}

#[test]
fn reverse_str() {
    let result = reverse(&Value::String("Hello World".to_string()), &Object::new());
    assert!(result.is_ok());
    assert_eq!(result.unwrap(), Value::String("dlroW olleH".to_string()));
}

#[test]
fn reverse_num() {
    let result = reverse(&float(1.23), &Object::new());
    assert!(result.is_err());
    assert_eq!(
        result.err().unwrap().to_string(),
        "Filter `reverse` received an incorrect type for arg `value`: got `1.23` but expected Array|String"
    );
}

#[test]
fn date_default() {
    let args = Object::new();
    let result = date(&Value::Integer(1482720453), &args);
    assert!(result.is_ok());
    assert_eq!(result.unwrap(), Value::String("2016-12-26".to_string()));
}

#[test]
fn date_custom_format() {
    let args = one_arg("format", text("%Y-%m-%d %H:%M"));
    let result = date(&Value::Integer(1482720453), &args);
    assert!(result.is_ok());
    assert_eq!(result.unwrap(), text("2016-12-26 02:47"));
}

#[test]
fn date_rfc3339() {
    let args = Object::new();
    let dt: DateTime<Local> = Local::now();
    let result = date(&Value::String(dt.to_rfc3339()), &args);
    assert!(result.is_ok());
    assert_eq!(result.unwrap(), Value::String(dt.format("%Y-%m-%d").to_string()));
}

#[test]
fn date_rfc3339_preserves_timezone() {
    let args = one_arg("format", Value::String("%Y-%m-%d %z".to_string()));
    let result = date(&Value::String("1996-12-19T16:39:57-08:00".to_string()), &args);
    assert!(result.is_ok());
    assert_eq!(result.unwrap(), Value::String("1996-12-19 -0800".to_string()));
}

#[test]
fn date_yyyy_mm_dd() {
    let args = one_arg("format", text("%a, %d %b %Y %H:%M:%S %z"));
    let result = date(&text("2017-03-05"), &args);
    assert!(result.is_ok());
    assert_eq!(result.unwrap(), text("Sun, 05 Mar 2017 00:00:00 +0000"));
}

#[test]
fn date_from_naive_datetime() {
    let args = one_arg("format", text("%a, %d %b %Y %H:%M:%S"));
    let result = date(&text("2017-03-05T00:00:00.602"), &args);
    println!("{:?}", result);
    assert!(result.is_ok());
    assert_eq!(result.unwrap(), text("Sun, 05 Mar 2017 00:00:00"));
}

#[test]
fn date_keeps_fractions_of_a_second() {
    let args = one_arg("format", text("%H:%M:%S%.3f"));
    let result = date(&text("2017-03-05T01:02:03.602"), &args);
    assert_eq!(result.unwrap(), text("01:02:03.602"));
    let result = date(&text("2017-03-05T01:02:03.25+02:00"), &args);
    assert_eq!(result.unwrap(), text("01:02:03.250"));
}

#[test]
fn date_reports_what_it_cannot_parse() {
    let err = date(&text("2017-03-05Tnonsense"), &Object::new()).unwrap_err();
    assert_eq!(err.kind, ErrorKind::DomainError);
    assert_eq!(
        err.to_string(),
        "Error parsing `\"2017-03-05Tnonsense\"` as rfc3339 date or naive datetime"
    );
    let err = date(&text("yesterday"), &Object::new()).unwrap_err();
    assert_eq!(err.kind, ErrorKind::DomainError);
    assert_eq!(err.to_string(), "Error parsing `\"yesterday\"` as YYYY-MM-DD date");
    let err = date(&Value::Bool(true), &Object::new()).unwrap_err();
    assert_eq!(err.kind, ErrorKind::TypeMismatch);
    assert_eq!(
        err.to_string(),
        "Filter `date` received an incorrect type for arg `value`: got `true` but expected i64|u64|String"
    );
}

#[test]
fn date_reports_a_format_it_cannot_use() {
    let err = date(&Value::Integer(0), &one_arg("format", text("%Q"))).unwrap_err();
    assert_eq!(err.kind, ErrorKind::InvalidArgumentValue);
    assert_eq!(err.to_string(), "Filter `date` cannot show this date in the format `%Q`");
    let err = date(&Value::Integer(i64::MAX), &Object::new()).unwrap_err();
    assert_eq!(err.kind, ErrorKind::InvalidArgumentValue);
    let err = date(&Value::Integer(0), &one_arg("format", Value::Integer(1))).unwrap_err();
    assert_eq!(err.kind, ErrorKind::TypeMismatch);
    assert_eq!(err.to_string(), "format argument: expected string got 1");
}

#[test]
fn date_without_zone_cannot_show_an_offset() {
    let err = date(&Value::Integer(0), &one_arg("format", text("%z"))).unwrap_err();
    assert_eq!(err.kind, ErrorKind::InvalidArgumentValue);
}

#[test]
fn as_str_renders_every_kind() {
    assert_eq!(as_str(&text("a \"b\""), &Object::new()).unwrap(), text("a \"b\""));
    assert_eq!(as_str(&Value::Integer(-12), &Object::new()).unwrap(), text("-12"));
    assert_eq!(as_str(&Value::Integer(i64::MIN), &Object::new()).unwrap(), text("-9223372036854775808"));
    assert_eq!(as_str(&Value::Integer(0), &Object::new()).unwrap(), text("0"));
    assert_eq!(as_str(&float(2.5), &Object::new()).unwrap(), text("2.5"));
    assert_eq!(as_str(&Value::Bool(true), &Object::new()).unwrap(), text("true"));
    let nested = Value::Array(vec![text("x"), Value::Array(vec![]), Value::Object(Object::new())]);
    assert_eq!(as_str(&nested, &Object::new()).unwrap(), text("[x, [], [object]]"));
}

#[test]
fn pretty_is_asked_for_by_true_only() {
    assert!(!json_encode_pretty(&Object::new()));
    assert!(json_encode_pretty(&one_arg("pretty", Value::Bool(true))));
    assert!(!json_encode_pretty(&one_arg("pretty", Value::Bool(false))));
    assert!(!json_encode_pretty(&one_arg("pretty", text("true"))));
}
