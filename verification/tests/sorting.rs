use tera::errors::ErrorKind;
use tera::sort_utils::{
    get_sort_strategy_for_type, key_for, stable_order, ArrayLen, GetSortKey, OrderedF64, SortKey,
    SortKind, SortPairs, SortStrategy,
};
use tera::value::{Float, Object, Value};

fn float(x: f64) -> Value {
    Value::Float(Float::new(x.to_bits(), x.to_string()))
}

fn text(s: &str) -> Value {
    Value::String(s.to_string())
}

#[test]
fn strategy_follows_the_first_key() {
    let mut strategy = get_sort_strategy_for_type(&Value::Integer(0)).unwrap();
    strategy.try_add_pair(&text("three"), &Value::Integer(3)).unwrap();
    strategy.try_add_pair(&text("one"), &float(1.0)).unwrap();
    strategy.try_add_pair(&text("two"), &Value::Integer(2)).unwrap();
    strategy.try_add_pair(&text("also one"), &Value::Integer(1)).unwrap();
    assert_eq!(strategy.sort(), vec![text("one"), text("also one"), text("two"), text("three")]);
    assert_eq!(strategy.sort(), vec![text("one"), text("also one"), text("two"), text("three")]);
}

#[test]
fn strategy_refuses_keys_of_another_kind() {
    let mut strategy = get_sort_strategy_for_type(&text("x")).unwrap();
    strategy.try_add_pair(&Value::Integer(1), &text("b")).unwrap();
    let err = strategy.try_add_pair(&Value::Integer(2), &Value::Integer(5)).unwrap_err();
    assert_eq!(err.kind, ErrorKind::TypeMismatch);
    assert_eq!(err.to_string(), "expected string got 5");
    let err = strategy.try_add_pair(&Value::Integer(2), &Value::Object(Object::new())).unwrap_err();
    assert_eq!(err.kind, ErrorKind::NotSortable);
    let err = strategy.try_add_pair(&Value::Integer(2), &float(f64::NAN)).unwrap_err();
    assert_eq!(err.kind, ErrorKind::NotSortable);
    assert_eq!(err.to_string(), "NaN cannot be sorted");
    strategy.try_add_pair(&Value::Integer(3), &text("a")).unwrap();
    assert_eq!(strategy.sort(), vec![Value::Integer(3), Value::Integer(1)]);
}

#[test]
fn strategies_by_kind() {
    let err = get_sort_strategy_for_type(&Value::Object(Object::new())).unwrap_err();
    assert_eq!(err.kind, ErrorKind::NotSortable);
    assert_eq!(err.to_string(), "Object is not a sortable value");
    let mut bools = get_sort_strategy_for_type(&Value::Bool(true)).unwrap();
    let err = bools.try_add_pair(&Value::Integer(1), &Value::Integer(1)).unwrap_err();
    assert_eq!(err.to_string(), "expected boolean got 1");
    let mut numbers = get_sort_strategy_for_type(&float(f64::NAN)).unwrap();
    let err = numbers.try_add_pair(&Value::Integer(1), &text("x")).unwrap_err();
    assert_eq!(err.to_string(), "expected number got \"x\"");
    let mut arrays = get_sort_strategy_for_type(&Value::Array(vec![])).unwrap();
    let err = arrays.try_add_pair(&Value::Integer(1), &Value::Bool(true)).unwrap_err();
    assert_eq!(err.to_string(), "expected array got true");
    let mut pairs = SortPairs::new(SortKind::Length);
    pairs.try_add_pair(&text("long"), &Value::Array(vec![Value::Integer(1), Value::Integer(2)])).unwrap();
    pairs.try_add_pair(&text("short"), &Value::Array(vec![])).unwrap();
    assert_eq!(pairs.sort(), vec![text("short"), text("long")]);
}

#[test]
fn keys_by_type() {
    assert_eq!(<i64 as GetSortKey>::get_sort_key(&Value::Integer(4)).unwrap(), 4);
    assert!(<i64 as GetSortKey>::get_sort_key(&float(4.0)).is_err());
    assert_eq!(<bool as GetSortKey>::get_sort_key(&Value::Bool(true)).unwrap(), true);
    assert!(<bool as GetSortKey>::get_sort_key(&Value::Integer(1)).is_err());
    assert_eq!(<String as GetSortKey>::get_sort_key(&text("k")).unwrap(), "k");
    assert!(<String as GetSortKey>::get_sort_key(&Value::Integer(1)).is_err());
    let len = <ArrayLen as GetSortKey>::get_sort_key(&Value::Array(vec![Value::Bool(true)])).unwrap();
    assert_eq!(len, ArrayLen(1));
    assert!(<ArrayLen as GetSortKey>::get_sort_key(&text("k")).is_err());
    let key = <OrderedF64 as GetSortKey>::get_sort_key(&float(2.5)).unwrap();
    assert_eq!(key.to_bits(), 2.5f64.to_bits());
    let err = <OrderedF64 as GetSortKey>::get_sort_key(&float(f64::INFINITY)).unwrap_err();
    assert_eq!(err.kind, ErrorKind::NotSortable);
    assert_eq!(err.to_string(), "inf cannot be sorted");
    let err = <OrderedF64 as GetSortKey>::get_sort_key(&Value::Integer(1)).unwrap_err();
    assert_eq!(err.kind, ErrorKind::TypeMismatch);
    assert!(OrderedF64::new(f64::NAN.to_bits(), "NaN").is_err());
}

#[test]
fn keys_compare_within_and_across_kinds() {
    let small = key_for(SortKind::Text, &text("Zebra")).unwrap();
    let large = key_for(SortKind::Text, &text("apple")).unwrap();
    assert!(small.le(&large));
    assert!(!large.le(&small));
    assert!(small.le(&small));
    let prefix = key_for(SortKind::Text, &text("app")).unwrap();
    assert!(prefix.le(&large));
    assert!(!large.le(&prefix));
    let accent = key_for(SortKind::Text, &text("épée")).unwrap();
    assert!(large.le(&accent));
    let no = SortKey::Bool(false);
    let yes = SortKey::Bool(true);
    assert!(no.le(&yes) && !yes.le(&no) && yes.le(&yes));
    assert!(yes.le(&SortKey::Integer(-5)));
    assert!(SortKey::Integer(5).le(&small));
    assert!(small.le(&SortKey::Length(ArrayLen(0))));
    assert!(!SortKey::Length(ArrayLen(0)).le(&yes));
}

#[test]
fn text_keys_order_as_strings_do() {
    let words = ["", "a", "A", "ab", "b", "é", "e", "日本", "日", "z\u{10000}", "z\u{ffff}"];
    for a in words {
        for b in words {
            let left = key_for(SortKind::Text, &text(a)).unwrap();
            let right = key_for(SortKind::Text, &text(b)).unwrap();
            assert_eq!(left.le(&right), a <= b, "{:?} {:?}", a, b);
        }
    }
}

#[test]
fn stable_order_lists_positions() {
    let keys = [3, 1, 2, 1, 3, 0];
    let pairs: Vec<(Value, SortKey)> =
        keys.iter().map(|k| (Value::Integer(*k), SortKey::Integer(*k))).collect();
    assert_eq!(stable_order(&pairs), vec![5, 1, 3, 2, 0, 4]);
    assert_eq!(stable_order(&Vec::new()), Vec::<usize>::new());
}

#[test]
fn key_types_compare() {
    let zero = OrderedF64::new(0.0f64.to_bits(), "0").unwrap();
    let minus_zero = OrderedF64::new((-0.0f64).to_bits(), "-0").unwrap();
    let one = OrderedF64::new(1.0f64.to_bits(), "1").unwrap();
    assert!(zero == minus_zero);
    assert!(zero != one);
    let copy = one;
    assert!(copy == one);
    assert!(ArrayLen(1) < ArrayLen(2));
    assert_eq!(ArrayLen::default(), ArrayLen(0));
    let mut one_map = Object::new();
    one_map.insert("a".to_string(), Value::Integer(1));
    one_map.insert("b".to_string(), Value::Integer(2));
    let mut other_map = Object::new();
    other_map.insert("b".to_string(), Value::Integer(2));
    other_map.insert("a".to_string(), Value::Integer(1));
    assert!(one_map == other_map);
}
