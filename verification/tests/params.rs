use data_gen::config::{Config, Value};

#[test]
fn insert_and_get_each_kind() {
    let config = Config::new(1)
        .insert("count", Value::Integer(-17))
        .insert("ratio", Value::Float(1.5f64.to_bits()))
        .insert("label", Value::String(String::from("alpha")))
        .insert("strict", Value::Bool(true));
    assert_eq!(-17, config.get("count").unwrap_integer());
    assert_eq!(1.5f64, f64::from_bits(config.get("ratio").unwrap_float()));
    assert_eq!("alpha", config.get("label").unwrap_string());
    assert_eq!(true, config.get("strict").unwrap_bool());
}

#[test]
fn later_binding_shadows_earlier() {
    let config = Config::new(1)
        .insert("max_n", Value::Integer(10))
        .insert("max_n", Value::Integer(99));
    assert_eq!(99, config.get("max_n").unwrap_integer());
}

#[test]
fn try_get_absent_key() {
    let config = Config::new(1).insert("present", Value::Bool(false));
    assert!(config.try_get("absent").is_none());
    assert!(config.try_get("present").is_some());
}

#[test]
fn from_conversions() {
    assert_eq!(3, Value::from(3i64).unwrap_integer());
    assert_eq!(false, Value::from(false).unwrap_bool());
    assert_eq!("beta", Value::from(String::from("beta")).unwrap_string());
}

#[test]
fn as_integer_checks_the_kind() {
    assert_eq!(Some(4), Value::Integer(4).as_integer());
    assert_eq!(None, Value::Bool(true).as_integer());
    assert_eq!(None, Value::String(String::from("4")).as_integer());
}
