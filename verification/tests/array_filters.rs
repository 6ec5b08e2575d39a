use tera::builtins::filters::array;
use tera::builtins::filters::array::{filter, first, group_by, join, last, nth, slice, sort};
use tera::errors::ErrorKind;
use tera::value::{Float, Object, Value};

fn float(x: f64) -> Value {
    Value::Float(Float::new(x.to_bits(), x.to_string()))
}

fn text(s: &str) -> Value {
    Value::String(s.to_string())
}

fn ints(items: &[i64]) -> Value {
    Value::Array(items.iter().map(|i| Value::Integer(*i)).collect())
}

fn object(entries: &[(&str, Value)]) -> Value {
    Value::Object(args(entries))
}

fn args(entries: &[(&str, Value)]) -> Object {
    let mut object = Object::new();
    for (key, value) in entries {
        object.insert(key.to_string(), value.clone());
    }
    object
}

fn foo(a: i64, b: i64) -> Value {
    object(&[("a", Value::Integer(a)), ("b", Value::Integer(b))])
}

fn id_year(id: i64, year: i64) -> Value {
    object(&[("id", Value::Integer(id)), ("year", Value::Integer(year))])
}

fn id_only(id: i64) -> Value {
    object(&[("id", Value::Integer(id))])
}

fn id_company(id: i64, company: i64) -> Value {
    object(&[("id", Value::Integer(id)), ("company", object(&[("id", Value::Integer(company))]))])
}

#[test]
fn test_nth() {
    let args = args(&[("n", Value::Integer(1))]);
    let result = nth(&ints(&[1, 2, 3, 4]), &args);
    assert!(result.is_ok());
    assert_eq!(result.unwrap(), Value::Integer(2));
}

#[test]
fn test_nth_empty() {
    let v: Vec<Value> = Vec::new();
    let args = args(&[("n", Value::Integer(1))]);
    let result = nth(&Value::Array(v), &args);
    assert!(result.is_ok());
    assert_eq!(result.unwrap(), text(""));
}

#[test]
fn test_first() {
    let result = first(&ints(&[1, 2, 3, 4]), &Object::new());
    assert!(result.is_ok());
    assert_eq!(result.unwrap(), Value::Integer(1));
}

#[test]
fn test_first_empty() {
    let v: Vec<Value> = Vec::new();
    let result = first(&Value::Array(v), &Object::new());
    assert!(result.is_ok());
    assert_eq!(result.ok().unwrap(), text(""));
}

#[test]
fn test_last() {
    let result = last(&Value::Array(vec![text("Hello"), text("World")]), &Object::new());
    assert!(result.is_ok());
    assert_eq!(result.unwrap(), text("World"));
}

#[test]
fn test_last_empty() {
    let v: Vec<Value> = Vec::new();
    let result = last(&Value::Array(v), &Object::new());
    assert!(result.is_ok());
    assert_eq!(result.ok().unwrap(), text(""));
}

#[test]
fn test_join_sep() {
    let args = args(&[("sep", text("=="))]);
    let result = join(&Value::Array(vec![text("Cats"), text("Dogs")]), &args);
    assert!(result.is_ok());
    assert_eq!(result.unwrap(), text("Cats==Dogs"));
}

#[test]
fn test_join_sep_omitted() {
    let result = join(&Value::Array(vec![float(1.2), float(3.4)]), &Object::new());
    assert!(result.is_ok());
    assert_eq!(result.unwrap(), text("1.23.4"));
}

#[test]
fn test_join_empty() {
    let v: Vec<Value> = Vec::new();
    let args = args(&[("sep", text("=="))]);
    let result = join(&Value::Array(v), &args);
    assert!(result.is_ok());
    assert_eq!(result.unwrap(), text(""));
}

#[test]
fn test_sort() {
    let v = ints(&[3, 1, 2, 5, 4]);
    let result = sort(&v, &Object::new());
    assert!(result.is_ok());
    assert_eq!(result.unwrap(), ints(&[1, 2, 3, 4, 5]));
}

#[test]
fn test_sort_empty() {
    let v = Value::Array(Vec::new());
    let result = sort(&v, &Object::new());
    assert!(result.is_ok());
    assert_eq!(result.unwrap(), Value::Array(Vec::new()));
}

#[test]
fn test_sort_attribute() {
    let v = Value::Array(vec![foo(3, 5), foo(2, 8), foo(4, 7), foo(1, 6)]);
    let args = args(&[("attribute", text("a"))]);
    let result = sort(&v, &args);
    assert!(result.is_ok());
    assert_eq!(
        result.unwrap(),
        Value::Array(vec![foo(1, 6), foo(2, 8), foo(3, 5), foo(4, 7)])
    );
}

#[test]
fn test_sort_invalid_attribute() {
    let v = Value::Array(vec![foo(3, 5)]);
    let args = args(&[("attribute", text("invalid_field"))]);
    let result = sort(&v, &args);
    assert!(result.is_err());
    assert_eq!(
        result.unwrap_err().to_string(),
        "attribute 'invalid_field' does not reference a field"
    );
}

#[test]
fn test_sort_multiple_types() {
    let v = Value::Array(vec![Value::Integer(12), Value::Array(vec![])]);
    let result = sort(&v, &Object::new());
    assert!(result.is_err());
    assert_eq!(result.unwrap_err().to_string(), "expected number got []");
}

#[test]
fn test_sort_tuple() {
    let v = Value::Array(vec![ints(&[0, 1]), ints(&[7, 0]), ints(&[-1, 12]), ints(&[18, 18])]);
    let args = args(&[("attribute", text("0"))]);
    let result = sort(&v, &args);
    assert!(result.is_ok());
    assert_eq!(
        result.unwrap(),
        Value::Array(vec![ints(&[-1, 12]), ints(&[0, 1]), ints(&[7, 0]), ints(&[18, 18])])
    );
}

#[test]
fn test_slice() {
    fn make_args(start: Option<i64>, end: Option<i64>) -> Object {
        let mut args = Object::new();
        if let Some(s) = start {
            args.insert("start".to_string(), Value::Integer(s));
        }
        if let Some(e) = end {
            args.insert("end".to_string(), Value::Integer(e));
        }
        args
    }

    let v = ints(&[1, 2, 3, 4, 5]);

    let inputs = vec![
        (make_args(Some(1), None), vec![2, 3, 4, 5]),
        (make_args(None, Some(2)), vec![1, 2]),
        (make_args(Some(1), Some(2)), vec![2]),
        (make_args(None, None), vec![1, 2, 3, 4, 5]),
    ];

    for (args, expected) in inputs {
        let res = slice(&v, &args);
        assert!(res.is_ok());
        assert_eq!(res.unwrap(), ints(&expected));
    }
}

#[test]
fn test_group_by() {
    let input = Value::Array(vec![
        id_year(1, 2015),
        id_year(2, 2015),
        id_year(3, 2016),
        id_year(4, 2017),
        id_year(5, 2017),
        id_year(6, 2017),
        id_year(7, 2018),
        id_only(8),
        id_only(9),
    ]);
    let args = args(&[("attribute", text("year"))]);

    let expected = object(&[
        ("2015", Value::Array(vec![id_year(1, 2015), id_year(2, 2015)])),
        ("2016", Value::Array(vec![id_year(3, 2016)])),
        ("2017", Value::Array(vec![id_year(4, 2017), id_year(5, 2017), id_year(6, 2017)])),
        ("2018", Value::Array(vec![id_year(7, 2018)])),
    ]);

    let res = group_by(&input, &args);
    assert!(res.is_ok());
    assert_eq!(res.unwrap(), expected);
}

#[test]
fn test_group_by_nested_key() {
    let input = Value::Array(vec![
        id_company(1, 1),
        id_company(2, 2),
        id_company(3, 3),
        id_company(4, 4),
        id_company(5, 4),
        id_company(6, 5),
        id_company(7, 5),
        id_only(8),
        id_only(9),
    ]);
    let args = args(&[("attribute", text("company.id"))]);

    let expected = object(&[
        ("1", Value::Array(vec![id_company(1, 1)])),
        ("2", Value::Array(vec![id_company(2, 2)])),
        ("3", Value::Array(vec![id_company(3, 3)])),
        ("4", Value::Array(vec![id_company(4, 4), id_company(5, 4)])),
        ("5", Value::Array(vec![id_company(6, 5), id_company(7, 5)])),
    ]);

    let res = group_by(&input, &args);
    assert!(res.is_ok());
    assert_eq!(res.unwrap(), expected);
}

#[test]
fn test_filter_empty() {
    let res = filter(&Value::Array(vec![]), &Object::new());
    assert!(res.is_ok());
    assert_eq!(res.unwrap(), Value::Array(vec![]));
}

#[test]
fn test_filter() {
    let input = Value::Array(vec![
        id_year(1, 2015),
        id_year(2, 2015),
        id_year(3, 2016),
        id_year(4, 2017),
        id_year(5, 2017),
        id_year(6, 2017),
        id_year(7, 2018),
        id_only(8),
        id_only(9),
    ]);
    let args = args(&[("attribute", text("year")), ("value", Value::Integer(2015))]);

    let expected = Value::Array(vec![id_year(1, 2015), id_year(2, 2015)]);

    let res = filter(&input, &args);
    assert!(res.is_ok());
    assert_eq!(res.unwrap(), expected);
}

#[test]
fn test_concat_array() {
    let input = ints(&[1, 2, 3]);
    let args = args(&[("with", ints(&[3, 4]))]);
    let expected = ints(&[1, 2, 3, 3, 4]);

    let res = array::concat(&input, &args);
    assert!(res.is_ok());
    assert_eq!(res.unwrap(), expected);
}

#[test]
fn test_concat_single_value() {
    let input = ints(&[1, 2, 3]);
    let args = args(&[("with", Value::Integer(4))]);
    let expected = ints(&[1, 2, 3, 4]);

    let res = array::concat(&input, &args);
    assert!(res.is_ok());
    assert_eq!(res.unwrap(), expected);
}

#[test]
fn nth_needs_its_argument() {
    let err = nth(&ints(&[1, 2]), &Object::new()).unwrap_err();
    assert_eq!(err.kind, ErrorKind::MissingArgument);
    assert_eq!(err.to_string(), "The `nth` filter has to have an `n` argument");
}

#[test]
fn nth_refuses_a_negative_index() {
    let err = nth(&ints(&[1, 2]), &args(&[("n", Value::Integer(-3))])).unwrap_err();
    assert_eq!(err.kind, ErrorKind::InvalidArgumentValue);
    assert_eq!(err.to_string(), "`n` argument must be non-negative but -3 was received");
}

#[test]
fn nth_past_the_end_is_the_empty_string() {
    let result = nth(&ints(&[1, 2]), &args(&[("n", Value::Integer(2))]));
    assert_eq!(result.unwrap(), text(""));
}

#[test]
fn nth_names_a_wrong_argument() {
    let err = nth(&ints(&[1, 2]), &args(&[("n", text("one"))])).unwrap_err();
    assert_eq!(err.kind, ErrorKind::TypeMismatch);
    assert_eq!(err.to_string(), "`n` argument: expected integer number got \"one\"");
}

#[test]
fn first_refuses_what_is_no_array() {
    let err = first(&Value::Integer(3), &Object::new()).unwrap_err();
    assert_eq!(err.kind, ErrorKind::TypeMismatch);
    assert_eq!(err.to_string(), "expected array got 3");
}

#[test]
fn join_renders_nested_arrays_and_objects() {
    let input = Value::Array(vec![ints(&[1, 2]), object(&[("a", Value::Bool(true))]), Value::Bool(false)]);
    let result = join(&input, &args(&[("sep", text("|"))]));
    assert_eq!(result.unwrap(), text("[1, 2]|[object]|false"));
}

#[test]
fn sort_is_stable() {
    let v = Value::Array(vec![foo(2, 1), foo(1, 2), foo(2, 3), foo(1, 4), foo(2, 5)]);
    let result = sort(&v, &args(&[("attribute", text("a"))])).unwrap();
    assert_eq!(
        result,
        Value::Array(vec![foo(1, 2), foo(1, 4), foo(2, 1), foo(2, 3), foo(2, 5)])
    );
}

#[test]
fn sort_is_idempotent() {
    let v = Value::Array(vec![text("pear"), text("apple"), text("fig"), text("apple"), text("")]);
    let once = sort(&v, &Object::new()).unwrap();
    let twice = sort(&once, &Object::new()).unwrap();
    assert_eq!(
        once,
        Value::Array(vec![text(""), text("apple"), text("apple"), text("fig"), text("pear")])
    );
    assert_eq!(twice, once);
}

#[test]
fn sort_orders_integers_and_floats_together() {
    let v = Value::Array(vec![
        float(2.5),
        Value::Integer(2),
        float(-0.5),
        Value::Integer(-1),
        float(1e300),
        Value::Integer(i64::MAX),
        float(2.0),
    ]);
    let result = sort(&v, &Object::new()).unwrap();
    assert_eq!(
        result,
        Value::Array(vec![
            Value::Integer(-1),
            float(-0.5),
            Value::Integer(2),
            float(2.0),
            float(2.5),
            Value::Integer(i64::MAX),
            float(1e300),
        ])
    );
    match result {
        Value::Array(items) => {
            assert!(matches!(items[2], Value::Integer(2)));
            assert!(matches!(items[3], Value::Float(_)));
        }
        _ => panic!("not an array"),
    }
}

#[test]
fn sort_orders_booleans_and_arrays() {
    let v = Value::Array(vec![Value::Bool(true), Value::Bool(false), Value::Bool(true)]);
    assert_eq!(
        sort(&v, &Object::new()).unwrap(),
        Value::Array(vec![Value::Bool(false), Value::Bool(true), Value::Bool(true)])
    );
    let v = Value::Array(vec![ints(&[1, 2, 3]), ints(&[]), ints(&[9])]);
    assert_eq!(
        sort(&v, &Object::new()).unwrap(),
        Value::Array(vec![ints(&[]), ints(&[9]), ints(&[1, 2, 3])])
    );
}

#[test]
fn sort_rejects_an_object_key() {
    let v = Value::Array(vec![Value::Integer(1), text("a"), object(&[])]);
    let err = sort(&v, &Object::new()).unwrap_err();
    assert_eq!(err.kind, ErrorKind::NotSortable);
    assert_eq!(err.to_string(), "Object is not a sortable value");
}

#[test]
fn sort_rejects_non_finite_keys() {
    for bad in [f64::NEG_INFINITY, f64::INFINITY, f64::NAN] {
        let v = Value::Array(vec![Value::Integer(1), float(2.0), float(bad)]);
        let err = sort(&v, &Object::new()).unwrap_err();
        assert_eq!(err.kind, ErrorKind::NotSortable);
        assert_eq!(err.to_string(), format!("{} cannot be sorted", bad));
    }
}

#[test]
fn sort_reports_a_missing_field() {
    let v = Value::Array(vec![foo(1, 2), id_only(3)]);
    let err = sort(&v, &args(&[("attribute", text("a"))])).unwrap_err();
    assert_eq!(err.kind, ErrorKind::FieldNotFound);
    assert_eq!(err.to_string(), "attribute 'a' does not reference a field");
}

#[test]
fn sort_names_a_wrong_attribute_argument() {
    let v = ints(&[2, 1]);
    let err = sort(&v, &args(&[("attribute", Value::Integer(1))])).unwrap_err();
    assert_eq!(err.kind, ErrorKind::TypeMismatch);
    assert_eq!(err.to_string(), "`attribute` argument: expected string got 1");
}

#[test]
fn slice_outside_the_array() {
    let v = ints(&[1, 2, 3]);
    assert_eq!(slice(&v, &args(&[("start", Value::Integer(4))])).unwrap(), ints(&[]));
    assert_eq!(slice(&v, &args(&[("start", Value::Integer(-1))])).unwrap(), ints(&[]));
    assert_eq!(slice(&v, &args(&[("end", Value::Integer(9))])).unwrap(), ints(&[1, 2, 3]));
    assert_eq!(slice(&v, &args(&[("end", Value::Integer(-1))])).unwrap(), ints(&[1, 2, 3]));
    assert_eq!(
        slice(&v, &args(&[("start", Value::Integer(2)), ("end", Value::Integer(1))])).unwrap(),
        ints(&[])
    );
    assert_eq!(slice(&v, &args(&[("start", Value::Integer(3))])).unwrap(), ints(&[]));
}

#[test]
fn group_by_shows_strings_in_quotes() {
    let input = Value::Array(vec![
        object(&[("k", text("a"))]),
        object(&[("k", text("b"))]),
        object(&[("k", text("a"))]),
    ]);
    let res = group_by(&input, &args(&[("attribute", text("k"))])).unwrap();
    let expected = object(&[
        ("\"a\"", Value::Array(vec![object(&[("k", text("a"))]), object(&[("k", text("a"))])])),
        ("\"b\"", Value::Array(vec![object(&[("k", text("b"))])])),
    ]);
    assert_eq!(res, expected);
}

#[test]
fn group_by_and_filter_need_their_arguments() {
    let input = ints(&[1]);
    let err = group_by(&input, &Object::new()).unwrap_err();
    assert_eq!(err.kind, ErrorKind::MissingArgument);
    assert_eq!(err.to_string(), "The `group_by` filter has to have an `attribute` argument");
    let err = filter(&input, &Object::new()).unwrap_err();
    assert_eq!(err.to_string(), "The `filter` filter has to have an `attribute` argument");
    let err = filter(&input, &args(&[("attribute", text("a"))])).unwrap_err();
    assert_eq!(err.to_string(), "The `filter` filter has to have a `value` argument");
    let err = array::concat(&input, &Object::new()).unwrap_err();
    assert_eq!(err.to_string(), "The `concat` filter has to have a `with` argument");
}
