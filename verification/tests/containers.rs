use serde_yaml_core::{
    to_fmt, to_string, Element, Entry, Error, Field, Recorded, SerializeMap, SerializeSeq,
    SerializeStruct, SerializeStructVariant, Serializer, Value, Write, WriteError,
};

struct Bounded {
    text: String,
    room: usize,
}

impl Write for Bounded {
    fn write_str(&mut self, s: &str) -> Result<(), WriteError> {
        if s.len() > self.room {
            return Err(WriteError);
        }
        self.room -= s.len();
        self.text.push_str(s);
        Ok(())
    }

    fn write_char(&mut self, c: char) -> Result<(), WriteError> {
        let mut buffer = [0u8; 4];
        self.write_str(c.encode_utf8(&mut buffer))
    }
}

fn bounded(room: usize) -> Serializer<Recorded<Bounded>> {
    Serializer::new(Recorded::new(Bounded { text: String::new(), room }))
}

fn number(v: u64) -> Value {
    Value::UInt(v)
}

fn string(s: &str) -> Value {
    Value::Str(s.to_string())
}

fn list(items: Vec<Value>) -> Value {
    Value::Sequence(items)
}

fn member(name: &str, value: Value) -> Field {
    Field { name: name.to_string(), value }
}

fn pair(key: Value, value: Value) -> Entry {
    Entry { key, value }
}

/// The text of `value` when it is emitted `depth` levels down.
fn nested(value: &Value, depth: usize) -> String {
    let mut serializer = Serializer::new(String::new());
    for _ in 0..depth {
        serializer.push();
    }
    value.serialize(&mut serializer).unwrap();
    assert_eq!(serializer.depth(), depth);
    serializer.into_inner()
}

#[test]
fn an_empty_sequence_is_two_brackets() {
    assert_eq!(to_string(&list(vec![])), "[]");
    assert_eq!(nested(&list(vec![]), 3), "[]");

    let mut serializer = Serializer::new(String::new());
    let seq = SerializeSeq::new(&mut serializer);
    seq.end().unwrap();
    assert_eq!(serializer.preceding_element(), Element::Nothing);
    assert_eq!(serializer.into_inner(), "[]");
}

#[test]
fn an_empty_mapping_is_two_braces() {
    assert_eq!(to_string(&Value::Mapping(vec![])), "{}");

    let mut serializer = Serializer::new(String::new());
    let map = SerializeMap::new(&mut serializer);
    map.end().unwrap();
    assert_eq!(serializer.into_inner(), "{}");
}

#[test]
fn an_empty_struct_is_two_braces() {
    assert_eq!(to_string(&Value::Struct(vec![])), "{}");

    let mut serializer = Serializer::new(String::new());
    let s = SerializeStruct::new(&mut serializer);
    s.end().unwrap();
    assert_eq!(serializer.into_inner(), "{}");
}

#[test]
fn an_empty_struct_variant_is_its_name_and_two_braces() {
    assert_eq!(to_string(&Value::StructVariant("A".to_string(), vec![])), "A:{}");

    let mut serializer = Serializer::new(String::new());
    serializer.push();
    let s = SerializeStructVariant::new(&mut serializer);
    s.end().unwrap();
    assert_eq!(serializer.depth(), 0);
    assert_eq!(serializer.into_inner(), "{}");
}

#[test]
fn an_empty_container_follows_its_key_directly() {
    let value = Value::Struct(vec![
        member("a", list(vec![])),
        member("b", Value::Mapping(vec![])),
        member("c", Value::Struct(vec![])),
    ]);
    assert_eq!(to_string(&value), "a:[]\nb:{}\nc:{}");
    assert_eq!(to_string(&list(vec![list(vec![]), list(vec![])])), "-[]\n-[]");
}

#[test]
fn a_sequence_is_one_dash_per_line() {
    let value = list(vec![string("a"), Value::Bool(false), Value::Int(-3), Value::Null]);
    assert_eq!(to_string(&value), "- a\n- false\n- -3\n- null");
    assert_eq!(nested(&value, 2), "    - a\n    - false\n    - -3\n    - null");
    assert_eq!(to_string(&list(vec![Value::Char('x')])), "- x");
}

#[test]
fn a_struct_is_one_field_per_line() {
    let value = Value::Struct(vec![
        member("name", string("probe")),
        member("id", number(7)),
        member("tag", string("")),
    ]);
    assert_eq!(to_string(&value), "name: probe\nid: 7\ntag: ''");
    assert_eq!(nested(&value, 1), "  name: probe\n  id: 7\n  tag: ''");
}

#[test]
fn a_field_name_is_never_quoted() {
    let value = Value::Struct(vec![member("1", number(1)), member("{x", number(2))]);
    assert_eq!(to_string(&value), "1: 1\n{x: 2");
}

#[test]
fn a_mapping_is_one_entry_per_line() {
    let value = Value::Mapping(vec![
        pair(string("x"), number(1)),
        pair(string("1"), string("2")),
        pair(number(3), Value::Bool(true)),
        pair(Value::Null, Value::Null),
    ]);
    assert_eq!(to_string(&value), "x: 1\n'1': '2'\n3: true\nnull: null");
    assert_eq!(nested(&value, 1), "  x: 1\n  '1': '2'\n  3: true\n  null: null");
}

#[test]
fn a_composite_value_goes_below_its_key() {
    let value = Value::Mapping(vec![
        pair(string("a"), Value::Mapping(vec![pair(string("b"), number(1))])),
        pair(string("c"), list(vec![number(2), number(3)])),
    ]);
    assert_eq!(to_string(&value), "a:\n  b: 1\nc:\n  - 2\n  - 3");
}

#[test]
fn a_composite_key_starts_a_line_of_its_own() {
    let value = Value::Mapping(vec![pair(list(vec![number(1)]), number(2))]);
    assert_eq!(to_string(&value), "\n- 1:  2");
}

#[test]
fn structs_in_a_sequence_hang_on_the_dash() {
    let value = list(vec![
        Value::Struct(vec![member("a", number(1)), member("b", number(2))]),
        Value::Struct(vec![member("a", number(3)), member("b", number(4))]),
    ]);
    assert_eq!(to_string(&value), "- a: 1\n  b: 2\n- a: 3\n  b: 4");
}

#[test]
fn nesting_adds_two_spaces_per_level() {
    let value = list(vec![list(vec![list(vec![number(0), number(1)]), number(2)]), number(3)]);
    assert_eq!(to_string(&value), "- - - 0\n    - 1\n  - 2\n- 3");

    let value = Value::Struct(vec![member(
        "a",
        Value::Struct(vec![member("b", Value::Struct(vec![member("c", number(1))]))]),
    )]);
    assert_eq!(to_string(&value), "a:\n  b:\n    c: 1");
}

#[test]
fn a_newtype_variant_is_a_mapping_of_one_entry() {
    let value = Value::NewtypeVariant("A".to_string(), Box::new(string("1")));
    assert_eq!(to_string(&value), "A: '1'");

    let inner = Value::Struct(vec![member("v", number(1))]);
    let value = Value::NewtypeVariant("A".to_string(), Box::new(inner));
    assert_eq!(to_string(&value), "A:\n  v: 1");

    let mut serializer = Serializer::new(String::new());
    serializer.serialize_newtype_variant("E", 3, "B", &list(vec![number(1)])).unwrap();
    assert_eq!(serializer.depth(), 0);
    assert_eq!(serializer.into_inner(), "B:\n  - 1");
}

#[test]
fn a_struct_variant_holds_its_fields_one_level_down() {
    let value = list(vec![Value::StructVariant(
        "Point".to_string(),
        vec![member("x", Value::Int(-1)), member("y", Value::Int(2))],
    )]);
    assert_eq!(to_string(&value), "- Point:\n    x: -1\n    y: 2");
}

#[test]
fn a_present_value_is_the_value_itself() {
    let mut serializer = Serializer::new(String::new());
    serializer.serialize_some(&string("1")).unwrap();
    assert_eq!(serializer.into_inner(), "'1'");

    let mut serializer = Serializer::new(String::new());
    serializer.serialize_some(&list(vec![number(1)])).unwrap();
    assert_eq!(serializer.into_inner(), "- 1");
}

#[test]
fn a_tuple_is_a_sequence() {
    let mut serializer = Serializer::new(String::new());
    let mut tuple = serializer.serialize_tuple(2).unwrap();
    tuple.serialize_element(&number(1)).unwrap();
    tuple.serialize_element(&string("b")).unwrap();
    tuple.end().unwrap();
    assert_eq!(serializer.into_inner(), "- 1\n- b");
}

#[test]
fn an_element_by_its_steps() {
    let mut serializer = Serializer::new(String::new());
    let mut seq = serializer.serialize_seq(None).unwrap();
    seq.begin_element().unwrap();
    assert_eq!(seq.serializer().depth(), 1);
    assert_eq!(seq.serializer().preceding_element(), Element::SequenceEntry);
    seq.serializer().serialize_i16(-5).unwrap();
    seq.end_element();
    assert_eq!(seq.serializer().depth(), 0);
    assert_eq!(seq.serializer().preceding_element(), Element::Nothing);
    seq.begin_element().unwrap();
    seq.serializer().serialize_str("x").unwrap();
    seq.end_element();
    seq.end().unwrap();
    assert_eq!(serializer.into_inner(), "- -5\n- x");
}

#[test]
fn an_entry_by_its_steps() {
    let mut serializer = Serializer::new(String::new());
    let mut map = serializer.serialize_map(Some(2)).unwrap();
    map.begin_key().unwrap();
    assert_eq!(map.serializer().preceding_element(), Element::PreMappingKey);
    map.serializer().serialize_str("k").unwrap();
    assert_eq!(map.serializer().preceding_element(), Element::MappingKey);
    map.end_key().unwrap();
    assert_eq!(map.serializer().depth(), 1);
    map.serializer().serialize_u16(9).unwrap();
    map.end_value();
    assert_eq!(map.serializer().depth(), 0);
    map.serialize_key(&number(2)).unwrap();
    map.serialize_value(&Value::Null).unwrap();
    map.end().unwrap();
    assert_eq!(serializer.into_inner(), "k: 9\n2: null");
}

#[test]
fn a_field_by_its_steps() {
    let mut serializer = Serializer::new(String::new());
    let mut s = serializer.serialize_struct("S", 2).unwrap();
    s.begin_field("a").unwrap();
    assert_eq!(s.serializer().depth(), 1);
    assert_eq!(s.serializer().preceding_element(), Element::MappingKey);
    s.serializer().serialize_u32(1).unwrap();
    s.end_field();
    s.serialize_field("b", &Value::Bool(true)).unwrap();
    s.end().unwrap();
    assert_eq!(serializer.into_inner(), "a: 1\nb: true");
}

#[test]
fn a_variant_field_by_its_steps() {
    let mut serializer = Serializer::new(String::new());
    let mut s = serializer.serialize_struct_variant("E", 0, "V", 2).unwrap();
    assert_eq!(s.serializer().depth(), 1);
    s.begin_field("a").unwrap();
    assert_eq!(s.serializer().depth(), 2);
    s.serializer().serialize_i32(1).unwrap();
    s.end_field();
    s.serialize_field("b", &list(vec![number(2)])).unwrap();
    s.end().unwrap();
    assert_eq!(serializer.depth(), 0);
    assert_eq!(serializer.preceding_element(), Element::Nothing);
    assert_eq!(serializer.into_inner(), "V:\n  a: 1\n  b:\n    - 2");
}

#[test]
fn every_scope_is_left_again() {
    let value = Value::Mapping(vec![pair(
        string("a"),
        list(vec![Value::StructVariant(
            "V".to_string(),
            vec![member("n", Value::NewtypeVariant("W".to_string(), Box::new(number(1))))],
        )]),
    )]);
    for depth in [0, 1, 5] {
        let mut serializer = Serializer::new(String::new());
        for _ in 0..depth {
            serializer.push();
        }
        serializer.str("#").unwrap();
        value.serialize(&mut serializer).unwrap();
        assert_eq!(serializer.depth(), depth);
        assert_eq!(serializer.preceding_element(), Element::Nothing);
        assert!(serializer.into_inner().starts_with('#'));
    }
}

#[test]
fn a_scalar_leaves_a_literal_behind() {
    for value in [Value::Null, Value::Bool(true), Value::Int(1), string("x"), Value::Char('c')] {
        let mut serializer = Serializer::new(String::new());
        value.serialize(&mut serializer).unwrap();
        assert_eq!(serializer.preceding_element(), Element::Literal);
    }
}

#[test]
fn a_failed_write_ends_a_container_at_once() {
    let value = list(vec![number(0), number(1), number(2)]);
    let full = "- 0\n- 1\n- 2";
    for room in 0..full.len() {
        let mut serializer = bounded(room);
        assert_eq!(value.serialize(&mut serializer), Err(Error::Write));
        assert_eq!(serializer.into_inner().into_inner().text, &full[..room]);
    }
    let mut serializer = bounded(full.len());
    assert_eq!(value.serialize(&mut serializer), Ok(()));
    assert_eq!(serializer.into_inner().into_inner().text, full);
}

#[test]
fn a_failed_write_leaves_no_marker_behind() {
    let mut serializer = bounded(1);
    assert_eq!(Value::Struct(vec![]).serialize(&mut serializer), Err(Error::Write));
    assert_eq!(serializer.into_inner().into_inner().text, "");

    let value = Value::Struct(vec![member("key", Value::Mapping(vec![]))]);
    let mut serializer = bounded(5);
    assert_eq!(value.serialize(&mut serializer), Err(Error::Write));
    assert_eq!(serializer.into_inner().into_inner().text, "key:");
}

#[test]
fn a_document_into_a_string() {
    let value = Value::Struct(vec![member("a", list(vec![number(1)]))]);
    assert_eq!(to_fmt(String::new(), &value), Ok("a:\n  - 1".to_string()));
    assert_eq!(to_fmt(String::new(), &value).unwrap(), to_string(&value));
}

#[test]
fn a_document_after_what_the_sink_holds() {
    let value = list(vec![string("x")]);
    assert_eq!(to_fmt("# head\n".to_string(), &value), Ok("# head\n- x".to_string()));
}

#[test]
fn a_document_into_a_writer() {
    let value = Value::Mapping(vec![pair(string("k"), Value::Bool(true))]);
    let writer = Recorded::new(Bounded { text: String::new(), room: 7 });
    let writer = to_fmt(writer, &value).ok().unwrap().into_inner();
    assert_eq!(writer.text, "k: true");
    assert_eq!(writer.room, 0);

    let writer = Recorded::new(Bounded { text: String::new(), room: 6 });
    assert_eq!(to_fmt(writer, &value).err(), Some(Error::Write));
}

#[test]
fn how_deep_a_value_nests() {
    let scalar = number(1);
    assert!(scalar.nests_within(0));
    assert!(list(vec![]).nests_within(0));
    assert!(Value::Mapping(vec![]).nests_within(0));
    assert!(Value::Struct(vec![]).nests_within(0));
    assert!(!Value::StructVariant("V".to_string(), vec![]).nests_within(0));
    assert!(Value::StructVariant("V".to_string(), vec![]).nests_within(1));

    let one = list(vec![number(1), number(2)]);
    assert!(!one.nests_within(0));
    assert!(one.nests_within(1));
    assert!(one.nests_within(usize::MAX));

    let three = list(vec![
        number(0),
        Value::Struct(vec![member("a", number(1)), member("b", list(vec![number(2)]))]),
        list(vec![]),
    ]);
    assert!(!three.nests_within(2));
    assert!(three.nests_within(3));

    // A key stands at the level of its mapping, a value one level down.
    let keyed = Value::Mapping(vec![pair(list(vec![number(1)]), number(2))]);
    assert!(!keyed.nests_within(0));
    assert!(keyed.nests_within(1));
    let valued = Value::Mapping(vec![pair(number(1), list(vec![number(2)]))]);
    assert!(!valued.nests_within(1));
    assert!(valued.nests_within(2));

    let variant = Value::NewtypeVariant("W".to_string(), Box::new(list(vec![number(1)])));
    assert!(!variant.nests_within(1));
    assert!(variant.nests_within(2));
}

#[test]
fn the_depth_at_the_deepest_point() {
    let value = list(vec![Value::Struct(vec![member("a", list(vec![number(1)]))])]);
    assert!(value.nests_within(3));
    assert!(!value.nests_within(2));
    let mut serializer = Serializer::new(String::new());
    let mut seq = serializer.serialize_seq(None).unwrap();
    seq.begin_element().unwrap();
    let mut s = seq.serializer().serialize_struct("S", 1).unwrap();
    s.begin_field("a").unwrap();
    let mut inner = s.serializer().serialize_seq(None).unwrap();
    inner.begin_element().unwrap();
    assert_eq!(inner.serializer().depth(), 3);
    inner.serializer().serialize_u64(1).unwrap();
    inner.end_element();
    inner.end().unwrap();
    s.end_field();
    s.end().unwrap();
    seq.end_element();
    seq.end().unwrap();
    assert_eq!(serializer.depth(), 0);
    assert_eq!(serializer.into_inner(), to_string(&value));
}

/// The text with two spaces behind every line break.
fn shifted(text: &str) -> String {
    text.replace('\n', "\n  ")
}

#[test]
fn one_level_deeper_is_the_same_text_shifted() {
    let values = vec![
        number(7),
        string(""),
        list(vec![number(0), number(1)]),
        list(vec![list(vec![number(0), number(1)]), list(vec![number(2), number(3)])]),
        Value::Struct(vec![
            member("a", Value::Struct(vec![member("v", number(1))])),
            member("b", list(vec![string("x"), Value::Null])),
        ]),
        Value::Mapping(vec![
            pair(string("k"), Value::Mapping(vec![pair(number(1), number(2))])),
            pair(Value::Bool(true), list(vec![])),
        ]),
        Value::StructVariant(
            "V".to_string(),
            vec![member("x", Value::Int(-1)), member("y", list(vec![number(2)]))],
        ),
        Value::NewtypeVariant("W".to_string(), Box::new(list(vec![number(1), number(2)]))),
        list(vec![Value::StructVariant("E".to_string(), vec![])]),
    ];
    for value in &values {
        for depth in 0..4 {
            let here = nested(value, depth);
            let deeper = nested(value, depth + 1);
            assert_eq!(deeper, format!("  {}", shifted(&here)));
        }
    }
    for value in [list(vec![]), Value::Mapping(vec![]), Value::Struct(vec![])] {
        assert_eq!(nested(&value, 3), nested(&value, 2));
    }
}

/// The text of `value` when it follows a dash `depth` levels down.
fn behind_a_dash(value: &Value, depth: usize) -> String {
    let mut serializer = Serializer::new(String::new());
    for _ in 0..depth {
        serializer.push();
    }
    serializer.indent(Element::SequenceEntry).unwrap();
    value.serialize(&mut serializer).unwrap();
    serializer.into_inner()[2 * depth..].to_string()
}

#[test]
fn behind_a_dash_only_the_later_lines_shift() {
    let value = Value::Struct(vec![member("a", number(1)), member("b", list(vec![number(2)]))]);
    assert_eq!(behind_a_dash(&value, 1), " a: 1\n  b:\n    - 2");
    assert_eq!(behind_a_dash(&value, 2), " a: 1\n    b:\n      - 2");
    for depth in 0..4 {
        assert_eq!(behind_a_dash(&value, depth + 1), shifted(&behind_a_dash(&value, depth)));
    }
}
