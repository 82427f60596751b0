use graph::Value;

#[test]
fn parsing_boolean_literals() {
    assert_eq!(Value::from_text("true"), Value::Bool(true));
    assert_eq!(Value::from_text("false"), Value::Bool(false));
    assert_eq!(Value::from_text("True"), Value::Text("True".to_string()));
}

#[test]
fn parsing_integer_literals() {
    assert_eq!(Value::from_text("42"), Value::Int(42));
    assert_eq!(Value::from_text("-7"), Value::Int(-7));
    assert_eq!(Value::from_text("+7"), Value::Int(7));
    assert_eq!(Value::from_text("007"), Value::Int(7));
    assert_eq!(Value::from_text("2147483647"), Value::Int(2147483647));
    assert_eq!(Value::from_text("-2147483648"), Value::Int(-2147483648));
}

#[test]
fn integers_out_of_range_fall_through_to_float() {
    assert_eq!(
        Value::from_text("2147483648"),
        Value::Float("2147483648".to_string())
    );
    assert_eq!(
        Value::from_text("-2147483649"),
        Value::Float("-2147483649".to_string())
    );
}

#[test]
fn parsing_float_literals() {
    assert_eq!(Value::from_text("2.5"), Value::Float("2.5".to_string()));
    assert_eq!(Value::from_text("-0.25"), Value::Float("-0.25".to_string()));
    assert_eq!(Value::from_text(".5"), Value::Float(".5".to_string()));
    assert_eq!(Value::from_text("5."), Value::Float("5.".to_string()));
    assert_eq!(Value::from_text("1e5"), Value::Float("1e5".to_string()));
    assert_eq!(Value::from_text("1.5E-3"), Value::Float("1.5E-3".to_string()));
    assert_eq!(Value::from_text("inf"), Value::Float("inf".to_string()));
    assert_eq!(Value::from_text("-Infinity"), Value::Float("-Infinity".to_string()));
    assert_eq!(Value::from_text("NaN"), Value::Float("NaN".to_string()));
}

#[test]
fn parsing_falls_back_to_text_and_never_fails() {
    assert_eq!(Value::from_text("hello"), Value::Text("hello".to_string()));
    assert_eq!(Value::from_text(""), Value::Text("".to_string()));
    assert_eq!(Value::from_text("."), Value::Text(".".to_string()));
    assert_eq!(Value::from_text("1e"), Value::Text("1e".to_string()));
    assert_eq!(Value::from_text("e5"), Value::Text("e5".to_string()));
    assert_eq!(Value::from_text("1.2.3"), Value::Text("1.2.3".to_string()));
    assert_eq!(Value::from_text("1e2e3"), Value::Text("1e2e3".to_string()));
    assert_eq!(Value::from_text("--5"), Value::Text("--5".to_string()));
}

#[test]
fn rendering_each_variant() {
    assert_eq!(Value::text("hi").render(), "\"hi\"");
    assert_eq!(Value::Bool(true).render(), "true");
    assert_eq!(Value::Bool(false).render(), "false");
    assert_eq!(Value::Int(0).render(), "0");
    assert_eq!(Value::Int(12345).render(), "12345");
    assert_eq!(Value::Int(-5).render(), "-5");
    assert_eq!(Value::Int(i32::MIN).render(), "-2147483648");
    assert_eq!(Value::Float("2.5".to_string()).render(), "2.5");
    assert_eq!(Value::Nothing.render(), "null");
}

#[test]
fn duplicate_preserves_the_value() {
    let v = Value::text("copy me");
    assert_eq!(v.duplicate(), v);
    assert_eq!(Value::Nothing.duplicate(), Value::Nothing);
}
