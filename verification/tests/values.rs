use tera::errors::{Error, ErrorKind};
use tera::number::Number;
use tera::value::{Float, Object, Value};

fn float(x: f64) -> Value {
    Value::Float(Float::new(x.to_bits(), x.to_string()))
}

fn text(s: &str) -> Value {
    Value::String(s.to_string())
}

fn object(entries: &[(&str, Value)]) -> Value {
    let mut object = Object::new();
    for (key, value) in entries {
        object.insert(key.to_string(), value.clone());
    }
    Value::Object(object)
}

fn nested() -> Value {
    object(&[
        ("a", object(&[("b", object(&[("c", Value::Integer(42))]))])),
        ("list", Value::Array(vec![text("zero"), object(&[("id", Value::Integer(1))])])),
        ("", text("empty key")),
    ])
}

#[test]
fn pointer_reaches_nested_values() {
    let value = nested();
    assert_eq!(value.pointer("a.b.c"), Some(&Value::Integer(42)));
    assert_eq!(value.pointer("list.0"), Some(&text("zero")));
    assert_eq!(value.pointer("list.1.id"), Some(&Value::Integer(1)));
    assert_eq!(value.pointer("list.+1.id"), Some(&Value::Integer(1)));
    assert_eq!(value.pointer("list.01.id"), Some(&Value::Integer(1)));
    assert_eq!(value.pointer(""), Some(&text("empty key")));
    assert!(matches!(value.pointer("a"), Some(Value::Object(_))));
}

#[test]
fn pointer_fails_when_a_segment_fails() {
    let value = nested();
    assert_eq!(value.pointer("a.x.c"), None);
    assert_eq!(value.pointer("a.b.c.d"), None);
    assert_eq!(value.pointer("x"), None);
    assert_eq!(value.pointer("list.2"), None);
    assert_eq!(value.pointer("list.-1"), None);
    assert_eq!(value.pointer("list.one"), None);
    assert_eq!(value.pointer("list."), None);
    assert_eq!(value.pointer("list.+"), None);
    assert_eq!(value.pointer("list.1x"), None);
    assert_eq!(value.pointer("list.99999999999999999999999999999999"), None);
    assert_eq!(value.pointer("a..b"), None);
    assert_eq!(Value::Integer(1).pointer("a"), None);
    assert_eq!(Value::Integer(1).pointer(""), None);
}

#[test]
fn get_reads_objects_only() {
    let value = nested();
    assert_eq!(value.get(""), Some(&text("empty key")));
    assert_eq!(value.get("missing"), None);
    assert_eq!(Value::Array(vec![Value::Integer(1)]).get("0"), None);
}

#[test]
fn accessors_give_the_value_or_a_type_mismatch() {
    assert_eq!(Value::Integer(3).try_integer().unwrap(), 3);
    assert_eq!(Value::Bool(true).try_bool().unwrap(), true);
    assert_eq!(text("x").try_str().unwrap(), "x");
    assert_eq!(float(1.5).try_float().unwrap().to_bits(), 1.5f64.to_bits());
    assert_eq!(float(1.5).try_float().unwrap().as_text(), "1.5");
    assert_eq!(Value::Array(vec![Value::Integer(1)]).try_array().unwrap().len(), 1);
    assert_eq!(nested().try_object().unwrap().len(), 3);

    let cases: Vec<(Error, &str)> = vec![
        (text("x").try_integer().unwrap_err(), "expected integer number got \"x\""),
        (Value::Integer(1).try_float().unwrap_err(), "expected float number got 1"),
        (Value::Integer(1).try_bool().unwrap_err(), "expected boolean got 1"),
        (Value::Bool(false).try_str().unwrap_err(), "expected string got false"),
        (float(0.5).try_array().unwrap_err(), "expected array got 0.5"),
        (Value::Array(vec![]).try_object().unwrap_err(), "expected object got []"),
    ];
    for (err, message) in cases {
        assert_eq!(err.kind, ErrorKind::TypeMismatch);
        assert_eq!(err.to_string(), message);
    }
}

#[test]
fn to_number_takes_integers_and_floats() {
    assert!(matches!(Value::Integer(3).to_number(), Ok(Number::Integer(3))));
    match float(2.5).to_number() {
        Ok(Number::Float(bits)) => assert_eq!(bits, 2.5f64.to_bits()),
        other => panic!("unexpected {:?}", other),
    }
    assert!(text("3").to_number().is_err());
    assert!(Value::Bool(true).to_number().is_err());
}

#[test]
fn truthiness() {
    assert!(Value::Integer(-1).is_truthy());
    assert!(!Value::Integer(0).is_truthy());
    assert!(float(0.1).is_truthy());
    assert!(float(f64::INFINITY).is_truthy());
    assert!(!float(0.0).is_truthy());
    assert!(!float(-0.0).is_truthy());
    assert!(!float(f64::NAN).is_truthy());
    assert!(Value::Bool(true).is_truthy());
    assert!(!Value::Bool(false).is_truthy());
    assert!(text(" ").is_truthy());
    assert!(!Value::empty_string().is_truthy());
    assert!(Value::Array(vec![Value::Bool(false)]).is_truthy());
    assert!(!Value::Array(vec![]).is_truthy());
    assert!(object(&[("a", Value::Bool(false))]).is_truthy());
    assert!(!Value::Object(Object::new()).is_truthy());
}

#[test]
fn display_by_kind() {
    assert_eq!(Value::Bool(true).to_string(), "true");
    assert_eq!(Value::Integer(i64::MAX).to_string(), "9223372036854775807");
    assert_eq!(Value::Integer(i64::MIN).to_string(), "-9223372036854775808");
    assert_eq!(Value::Integer(-10).to_string(), "-10");
    assert_eq!(Value::Integer(1009).to_string(), "1009");
    assert_eq!(float(1.5).to_string(), "1.5");
    assert_eq!(text("a").to_string(), "\"a\"");
    assert_eq!(Value::Array(vec![]).to_string(), "[]");
    assert_eq!(Value::Array(vec![Value::Integer(1), text("b")]).to_string(), "[1, \"b\"]");
    assert_eq!(Value::Object(Object::new()).to_string(), "{}");
    assert_eq!(
        object(&[("k", Value::Integer(1)), ("l", Value::Array(vec![Value::Bool(false)]))]).to_string(),
        "{k: 1, l: [false]}"
    );
}

#[test]
fn equality_by_kind() {
    assert_eq!(Value::Integer(2), Value::Integer(2));
    assert_ne!(Value::Integer(2), Value::Integer(3));
    assert_ne!(Value::Integer(2), float(2.0));
    assert_ne!(Value::Integer(1), Value::Bool(true));
    assert_ne!(text("1"), Value::Integer(1));
    assert_eq!(float(0.0), float(-0.0));
    assert_ne!(float(f64::NAN), float(f64::NAN));
    assert_eq!(float(f64::INFINITY), float(f64::INFINITY));
    assert_ne!(float(f64::INFINITY), float(f64::NEG_INFINITY));
    assert_eq!(
        Value::Float(Float::new(1.5f64.to_bits(), "1.5".to_string())),
        Value::Float(Float::new(1.5f64.to_bits(), "one and a half".to_string()))
    );
    assert_eq!(Value::Array(vec![text("a"), float(1.0)]), Value::Array(vec![text("a"), float(1.0)]));
    assert_ne!(Value::Array(vec![text("a")]), Value::Array(vec![text("a"), text("a")]));
    assert_ne!(Value::Array(vec![text("a"), text("b")]), Value::Array(vec![text("b"), text("a")]));
}

#[test]
fn objects_are_equal_in_any_order() {
    let one = object(&[("a", Value::Integer(1)), ("b", object(&[("x", text("y")), ("z", Value::Bool(true))]))]);
    let other = object(&[("b", object(&[("z", Value::Bool(true)), ("x", text("y"))])), ("a", Value::Integer(1))]);
    assert_eq!(one, other);
    assert_ne!(one, object(&[("a", Value::Integer(1))]));
    assert_ne!(one, object(&[("a", Value::Integer(1)), ("c", Value::Integer(1))]));
    assert_ne!(one, object(&[("a", Value::Integer(2)), ("b", object(&[("x", text("y")), ("z", Value::Bool(true))]))]));
}

#[test]
fn object_keeps_each_key_once() {
    let mut map = Object::new();
    assert!(map.is_empty());
    map.insert("a".to_string(), Value::Integer(1));
    map.insert("b".to_string(), Value::Integer(2));
    map.insert("a".to_string(), Value::Integer(3));
    assert_eq!(map.len(), 2);
    assert!(!map.is_empty());
    assert!(map.contains_key("a"));
    assert!(!map.contains_key("c"));
    assert_eq!(map.get("a"), Some(&Value::Integer(3)));
    assert_eq!(map.get("c"), None);
    assert_eq!(map.entry(0), Some(("a", &Value::Integer(3))));
    assert_eq!(map.entry(1), Some(("b", &Value::Integer(2))));
    assert_eq!(map.entry(2), None);
    let copy = map.clone();
    assert_eq!(Value::Object(copy), Value::Object(map));
}

#[test]
fn clone_copies_deeply() {
    let value = nested();
    let copy = value.clone();
    assert_eq!(copy, value);
    assert_eq!(copy.to_string(), value.to_string());
    let f = Float::new(2.5f64.to_bits(), "2.5".to_string());
    let g = f.clone();
    assert_eq!(g.to_bits(), f.to_bits());
    assert_eq!(g.as_text(), "2.5");
}

#[test]
fn errors_chain_their_context() {
    let inner = Error::new(ErrorKind::DomainError, "inner");
    let outer = Error::chain("outer", inner.clone());
    assert_eq!(outer.kind, ErrorKind::DomainError);
    assert_eq!(outer.to_string(), "outer: inner");
    let about = Error::about(ErrorKind::NotSortable, "<", &Value::Integer(1), ">");
    assert_eq!(about.to_string(), "<1>");
    assert_eq!(inner.to_string(), "inner");
}

#[test]
fn probes_tell_wrong_type_from_value() {
    assert_eq!(Value::Bool(false).as_bool(), Some(false));
    assert_eq!(Value::Integer(0).as_bool(), None);
    assert_eq!(Value::Integer(0).as_integer(), Some(0));
    assert_eq!(float(0.0).as_integer(), None);
    assert_eq!(float(0.5).as_float().map(|f| f.to_bits()), Some(0.5f64.to_bits()));
    assert!(Value::Integer(0).as_float().is_none());
    assert_eq!(Value::empty_string().as_str(), Some(""));
    assert_eq!(Value::Bool(true).as_str(), None);
    assert_eq!(Value::Array(vec![]).as_array().map(|a| a.len()), Some(0));
    assert!(text("[]").as_array().is_none());
    assert_eq!(Value::Object(Object::new()).as_object().map(|o| o.len()), Some(0));
    assert!(Value::Array(vec![]).as_object().is_none());
}

#[test]
fn integer_two_equals_float_two_as_values() {
    assert_eq!(Value::Integer(2).eq_loosely(&float(2.0)), Some(true));
    assert_eq!(float(2.0).eq_loosely(&Value::Integer(2)), Some(true));
    assert_eq!(Value::Integer(2).eq_loosely(&float(2.5)), Some(false));
    assert_eq!(Value::Integer(2).eq_loosely(&Value::Integer(2)), Some(true));
    assert_eq!(float(f64::NAN).eq_loosely(&float(f64::NAN)), Some(false));
    assert_eq!(float(0.0).eq_loosely(&Value::Integer(0)), Some(true));
    assert_eq!(text("2").eq_loosely(&text("2")), Some(true));
    assert_eq!(text("2").eq_loosely(&text("3")), Some(false));
    assert_eq!(text("2").eq_loosely(&Value::Integer(2)), None);
    assert_eq!(Value::Bool(true).eq_loosely(&Value::Bool(true)), None);
    assert_eq!(Value::Array(vec![]).eq_loosely(&Value::Array(vec![])), None);
    // As values of the data model, the two stay different.
    assert_ne!(Value::Integer(2), float(2.0));
}
