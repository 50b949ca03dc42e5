use serde_yaml_core::{to_string, Entry, Field, Serializer, Value};

fn signed(v: i64) -> Value {
    Value::Int(v)
}

fn unsigned(v: u64) -> Value {
    Value::UInt(v)
}

fn text(s: &str) -> Value {
    Value::Str(s.to_string())
}

fn field(name: &str, value: Value) -> Field {
    Field { name: name.to_string(), value }
}

fn record(fields: Vec<Field>) -> Value {
    Value::Struct(fields)
}

#[test]
fn array() {
    assert_eq!(to_string(&Value::Sequence(vec![signed(0), signed(1), signed(2)])), "- 0\n- 1\n- 2");
}

#[test]
fn bool() {
    assert_eq!(to_string(&Value::Bool(true)), "true");
}

#[test]
fn enum_() {
    assert_eq!(to_string(&Value::UnitVariant("boolean".to_string())), "boolean");

    assert_eq!(to_string(&Value::UnitVariant("number".to_string())), "number");
}

#[test]
fn str() {
    assert_eq!(to_string(&text("hello")), "hello");
    assert_eq!(to_string(&text("")), "''");

    // Characters unescaped if possible
    assert_eq!(to_string(&text("ä")), "ä");
    assert_eq!(to_string(&text("৬")), "৬");
    assert_eq!(to_string(&text("ℝ")), "ℝ"); // 3 byte character
    assert_eq!(to_string(&text("💣")), "💣"); // 4 byte character

    assert_eq!(to_string(&text("1")), "'1'"); // number
    assert_eq!(to_string(&text("1:2")), "'1:2'"); // clock format number
}

#[test]
fn struct_bool() {
    assert_eq!(to_string(&record(vec![field("led", Value::Bool(true))])), "led: true");
}

fn temperature_i8(temperature: i8) -> String {
    let mut serializer = Serializer::new(String::new());
    let mut s = serializer.serialize_struct("Temperature", 1).unwrap();
    s.begin_field("temperature").unwrap();
    s.serializer().serialize_i8(temperature).unwrap();
    s.end_field();
    s.end().unwrap();
    serializer.into_inner()
}

#[test]
fn struct_i8() {
    assert_eq!(temperature_i8(127), "temperature: 127");
    assert_eq!(temperature_i8(20), "temperature: 20");
    assert_eq!(temperature_i8(-17), "temperature: -17");
    assert_eq!(temperature_i8(-128), "temperature: -128");
}

fn temperature_f32(temperature: f32) -> String {
    let formatted = ryu::Buffer::new().format(temperature).to_string();
    to_string(&record(vec![field("temperature", Value::Literal(formatted))]))
}

#[test]
fn struct_f32() {
    assert_eq!(temperature_f32(-20.), "temperature: -20.0");

    assert_eq!(temperature_f32(-20345.), "temperature: -20345.0");

    assert_eq!(temperature_f32(-2.3456789012345e-23), "temperature: -2.3456788e-23");
}

fn described(description: Option<&str>) -> Value {
    record(vec![field(
        "description",
        match description {
            Some(s) => text(s),
            None => Value::Null,
        },
    )])
}

#[test]
fn struct_option() {
    assert_eq!(
        to_string(&described(Some("An ambient temperature sensor"))),
        "description: An ambient temperature sensor"
    );

    assert_eq!(to_string(&described(None)), "description: null");
}

#[test]
fn struct_u8() {
    let mut serializer = Serializer::new(String::new());
    let mut s = serializer.serialize_struct("Temperature", 1).unwrap();
    s.begin_field("temperature").unwrap();
    s.serializer().serialize_u8(20).unwrap();
    s.end_field();
    s.end().unwrap();
    assert_eq!(serializer.into_inner(), "temperature: 20");
}

#[test]
fn struct_() {
    assert_eq!(to_string(&record(vec![])), r#"{}"#);

    assert_eq!(
        to_string(&record(vec![field("a", Value::Bool(true)), field("b", Value::Bool(false))])),
        "a: true\nb: false"
    );
}

#[test]
fn test_unit() {
    assert_eq!(to_string(&Value::Null), "null");
}

#[test]
fn test_newtype_struct() {
    let mut serializer = Serializer::new(String::new());
    serializer.serialize_newtype_struct("A", &unsigned(54)).unwrap();
    assert_eq!(serializer.into_inner(), "54");
}

#[test]
fn test_newtype_variant() {
    let a = Value::NewtypeVariant("A".to_string(), Box::new(unsigned(54)));

    assert_eq!(to_string(&a), "A: 54");
}

#[test]
fn test_struct_variant() {
    let a = Value::StructVariant(
        "A".to_string(),
        vec![field("x", unsigned(54)), field("y", unsigned(720))],
    );

    assert_eq!(to_string(&a), "A:\n  x: 54\n  y: 720");
}

fn simple_decimal(v: f32) -> String {
    let string = format!("{:.2}", v);
    let mut serializer = Serializer::new(String::new());
    serializer.serialize_bytes(string.as_bytes()).unwrap();
    serializer.into_inner()
}

#[test]
fn test_serialize_bytes() {
    assert_eq!(simple_decimal(1.55555), "1.56");

    assert_eq!(simple_decimal(0.000), "0.00");

    assert_eq!(simple_decimal(22222.777777), "22222.78");
}

#[test]
fn test_serializable_key() {
    let b = Value::Mapping(vec![Entry { key: text(&format!("A{}", 1)), value: unsigned(2) }]);

    assert_eq!(to_string(&b), "A1: 2")
}

#[test]
fn test_nested_array() {
    let a = record(vec![field("a", Value::Sequence(vec![unsigned(0), unsigned(1)]))]);
    assert_eq!(to_string(&a), "a:\n  - 0\n  - 1");

    let array = Value::Sequence(vec![
        Value::Sequence(vec![unsigned(0), unsigned(1)]),
        Value::Sequence(vec![unsigned(2), unsigned(3)]),
    ]);
    assert_eq!(to_string(&array), "- - 0\n  - 1\n- - 2\n  - 3");
}

#[test]
fn test_nested_struct() {
    let b = record(vec![
        field("a", record(vec![field("v", unsigned(1))])),
        field("b", record(vec![field("v", unsigned(2))])),
    ]);

    assert_eq!(to_string(&b), "a:\n  v: 1\nb:\n  v: 2");
}
