use std::collections::HashMap;

use random_ramble::json::{json_eq, Json};
use random_ramble::refactor::filter::{pick_value, FilterError};
use random_ramble::refactor::random_filter;
use tera::Value;

fn category(name: Option<&str>, values: &[&str]) -> Value {
    let mut m = tera::Map::new();
    m.insert("category".to_string(), name.map(|n| Value::String(n.to_string())).unwrap_or(Value::Null));
    m.insert("values".to_string(), Value::Array(values.iter().map(|v| Value::String(v.to_string())).collect()));
    Value::Object(m)
}

#[test]
fn single_value_is_picked() {
    let v = Value::Array(vec![category(None, &["Clever"])]);
    assert_eq!(random_filter(&v, &HashMap::new()).unwrap(), Value::String("Clever".to_string()));
}

#[test]
fn empty_list_gives_null() {
    assert_eq!(random_filter(&Value::Array(vec![]), &HashMap::new()).unwrap(), Value::Null);
    let v = Value::Array(vec![category(None, &[])]);
    assert_eq!(random_filter(&v, &HashMap::new()).unwrap(), Value::Null);
}

#[test]
fn category_argument_selects() {
    let v = Value::Array(vec![category(Some("en"), &["Brave"]), category(Some("pt"), &["Tímido"])]);
    let mut args = HashMap::new();
    args.insert("c".to_string(), Value::String("pt".to_string()));
    assert_eq!(random_filter(&v, &args).unwrap(), Value::String("Tímido".to_string()));
    args.insert("c".to_string(), Value::String("fr".to_string()));
    let e = random_filter(&v, &args).unwrap_err();
    assert_eq!(e.to_string(), "nope, no match");
}

#[test]
fn errors_of_the_filter() {
    let args = HashMap::new();
    assert_eq!(random_filter(&Value::Bool(true), &args).unwrap_err().to_string(), "must provide values alongside random");
    assert_eq!(random_filter(&Value::Array(vec![Value::Null]), &args).unwrap_err().to_string(), "oups, no object");
    let mut no_values = tera::Map::new();
    no_values.insert("category".to_string(), Value::Null);
    assert_eq!(random_filter(&Value::Array(vec![Value::Object(no_values.clone())]), &args).unwrap_err().to_string(), "shit, no values");
    no_values.insert("values".to_string(), Value::Bool(false));
    assert_eq!(random_filter(&Value::Array(vec![Value::Object(no_values)]), &args).unwrap_err().to_string(), "fuck, no array");
    let mut c = HashMap::new();
    c.insert("c".to_string(), Value::String("x".to_string()));
    assert_eq!(random_filter(&Value::Array(vec![Value::Null]), &c).unwrap_err().to_string(), "requires a valid object");
    assert_eq!(random_filter(&Value::Array(vec![Value::Object(tera::Map::new())]), &c).unwrap_err().to_string(), "requires a valid category");
}

#[test]
fn numbers_go_through_the_filter() {
    let mut m = tera::Map::new();
    m.insert("category".to_string(), Value::Null);
    m.insert("values".to_string(), Value::Array(vec![Value::from(42), Value::from(1.5)]));
    let v = Value::Array(vec![Value::Object(m)]);
    let out = random_filter(&v, &HashMap::new()).unwrap();
    assert!(out == Value::from(42) || out == Value::from(1.5), "{:?}", out);
}

#[test]
fn pick_value_on_plain_data() {
    let cat = Json::Object(vec![
        ("category".to_string(), Json::Str("en".to_string())),
        ("values".to_string(), Json::Array(vec![Json::Str("Brave".to_string())])),
    ]);
    let list = Json::Array(vec![cat]);
    match pick_value(&list, Some(&Json::Str("en".to_string())), None) {
        Ok(Some(x)) => assert!(json_eq(x, &Json::Str("Brave".to_string()))),
        other => panic!("{:?}", other),
    }
    assert_eq!(pick_value(&list, Some(&Json::Null), None).unwrap_err(), FilterError::NoMatch);
    assert_eq!(pick_value(&Json::Null, None, None).unwrap_err(), FilterError::NotAnArray);
    assert_eq!(FilterError::NoMatch.message(), "nope, no match");
}

#[test]
fn json_equality() {
    let a = Json::Object(vec![("k".to_string(), Json::Array(vec![Json::Number("1".to_string()), Json::Bool(true)]))]);
    let b = Json::Object(vec![("k".to_string(), Json::Array(vec![Json::Number("1".to_string()), Json::Bool(true)]))]);
    let c = Json::Object(vec![("k".to_string(), Json::Array(vec![Json::Number("2".to_string()), Json::Bool(true)]))]);
    assert!(json_eq(&a, &b));
    assert!(!json_eq(&a, &c));
    assert!(!json_eq(&Json::Null, &Json::Bool(false)));
}

#[test]
fn starts_with_argument_narrows_the_values() {
    let v = Value::Array(vec![category(Some("en"), &["Adventurous", "Clever", "ambitious"])]);
    let mut args = HashMap::new();
    args.insert("c".to_string(), Value::String("en".to_string()));
    args.insert("starts_with".to_string(), Value::String("C".to_string()));
    for _ in 0..10 {
        assert_eq!(random_filter(&v, &args).unwrap(), Value::String("Clever".to_string()));
    }
    args.insert("starts_with".to_string(), Value::String("z".to_string()));
    assert_eq!(random_filter(&v, &args).unwrap(), Value::Null);
    args.insert("starts_with".to_string(), Value::Bool(true));
    let out = random_filter(&v, &args).unwrap();
    assert!(out != Value::Null);
}

#[test]
fn pick_value_with_a_prefix() {
    let cat = Json::Object(vec![
        ("category".to_string(), Json::Str("en".to_string())),
        ("values".to_string(), Json::Array(vec![Json::Str("Brave".to_string()), Json::Str("adventurous".to_string()), Json::Null])),
    ]);
    let list = Json::Array(vec![cat]);
    for _ in 0..10 {
        match pick_value(&list, None, Some("AD")) {
            Ok(Some(x)) => assert!(json_eq(x, &Json::Str("adventurous".to_string()))),
            other => panic!("{:?}", other),
        }
    }
}

#[test]
fn float_zeros_are_the_same_category() {
    assert!(json_eq(&Json::Number("-0.0".to_string()), &Json::Number("0.0".to_string())));
    assert!(!json_eq(&Json::Number("0".to_string()), &Json::Number("0.0".to_string())));
    let mut m = tera::Map::new();
    m.insert("category".to_string(), Value::from(-0.0));
    m.insert("values".to_string(), Value::Array(vec![Value::String("zero".to_string())]));
    let v = Value::Array(vec![Value::Object(m)]);
    let mut args = HashMap::new();
    args.insert("c".to_string(), Value::from(0.0));
    assert_eq!(random_filter(&v, &args).unwrap(), Value::String("zero".to_string()));
}
