use serde_yaml_core::{Element, Error, Recorded, Serializer, Write, WriteError};

/// A writer that takes `room` bytes and then fails.
struct Limited {
    text: String,
    room: usize,
}

impl Limited {
    fn new(room: usize) -> Self {
        Limited { text: String::new(), room }
    }
}

impl Write for Limited {
    fn write_str(&mut self, s: &str) -> Result<(), WriteError> {
        if s.len() > self.room {
            return Err(WriteError);
        }
        self.room -= s.len();
        self.text.push_str(s);
        Ok(())
    }

    fn write_char(&mut self, c: char) -> Result<(), WriteError> {
        let mut buffer = [0u8; 4];
        self.write_str(c.encode_utf8(&mut buffer))
    }
}

fn fresh() -> Serializer<String> {
    Serializer::new(String::new())
}

/// An emitter at `depth` whose last token was of kind `last`.
fn after(last: Element, depth: usize) -> Serializer<String> {
    let mut serializer = fresh();
    for _ in 0..depth {
        serializer.push();
    }
    match last {
        Element::Nothing => {}
        Element::MappingKey => {
            serializer.indent(Element::PreMappingKey).unwrap();
            serializer.indent(Element::Literal).unwrap();
        }
        other => serializer.indent(other).unwrap(),
    }
    assert_eq!(serializer.preceding_element(), last);
    serializer
}

/// What `indent(next)` writes after a token of kind `last` at `depth`.
fn separator(last: Element, depth: usize, next: Element) -> (String, Element) {
    let mut serializer = after(last, depth);
    let before = " ".repeat(2 * depth);
    serializer.indent(next).unwrap();
    let kind = serializer.preceding_element();
    let text = serializer.into_inner();
    (text[before.len()..].to_string(), kind)
}

const KINDS: [Element; 5] = [
    Element::SequenceEntry,
    Element::PreMappingKey,
    Element::MappingKey,
    Element::Literal,
    Element::Nothing,
];

#[test]
fn fresh_emitter_is_at_the_top() {
    let serializer = fresh();
    assert_eq!(serializer.depth(), 0);
    assert_eq!(serializer.preceding_element(), Element::Nothing);
    assert_eq!(serializer.into_inner(), "");
}

#[test]
fn raw_text_is_written_as_it_is() {
    let mut serializer = fresh();
    serializer.str("a: [").unwrap();
    serializer.char('\'').unwrap();
    serializer.char('ä').unwrap();
    serializer.str("").unwrap();
    assert_eq!(serializer.preceding_element(), Element::Nothing);
    assert_eq!(serializer.into_inner(), "a: ['ä");
}

#[test]
fn push_and_pop_move_the_depth() {
    let mut serializer = fresh();
    serializer.push();
    serializer.push();
    assert_eq!(serializer.depth(), 2);
    serializer.indent(Element::Literal).unwrap();
    serializer.pop();
    assert_eq!(serializer.depth(), 1);
    assert_eq!(serializer.preceding_element(), Element::Nothing);
    assert_eq!(serializer.into_inner(), "    ");
}

#[test]
fn after_a_dash_comes_one_space() {
    for next in KINDS {
        assert_eq!(separator(Element::SequenceEntry, 3, next), (" ".to_string(), next));
    }
}

#[test]
fn after_a_key_a_scalar_comes_after_one_space() {
    assert_eq!(
        separator(Element::MappingKey, 2, Element::Literal),
        (" ".to_string(), Element::Literal)
    );
}

#[test]
fn a_scalar_key_is_reclassified_without_separator() {
    assert_eq!(
        separator(Element::PreMappingKey, 2, Element::Literal),
        ("".to_string(), Element::MappingKey)
    );
}

#[test]
fn a_key_after_a_scalar_gets_no_separator() {
    assert_eq!(
        separator(Element::Literal, 2, Element::MappingKey),
        ("".to_string(), Element::MappingKey)
    );
}

#[test]
fn at_the_start_comes_the_indentation_alone() {
    for next in KINDS {
        let mut serializer = fresh();
        serializer.push();
        serializer.push();
        serializer.push();
        serializer.indent(next).unwrap();
        assert_eq!(serializer.preceding_element(), next);
        assert_eq!(serializer.into_inner(), "      ");
    }
    let mut serializer = fresh();
    serializer.indent(Element::Literal).unwrap();
    assert_eq!(serializer.into_inner(), "");
}

#[test]
fn everything_else_starts_a_new_line() {
    let new_line = "\n    ".to_string();
    for next in [
        Element::SequenceEntry,
        Element::PreMappingKey,
        Element::MappingKey,
        Element::Nothing,
    ] {
        assert_eq!(separator(Element::PreMappingKey, 2, next), (new_line.clone(), next));
    }
    for next in [
        Element::SequenceEntry,
        Element::PreMappingKey,
        Element::MappingKey,
        Element::Nothing,
    ] {
        assert_eq!(separator(Element::MappingKey, 2, next), (new_line.clone(), next));
    }
    for next in [
        Element::SequenceEntry,
        Element::PreMappingKey,
        Element::Literal,
        Element::Nothing,
    ] {
        assert_eq!(separator(Element::Literal, 2, next), (new_line.clone(), next));
    }
    assert_eq!(
        separator(Element::Literal, 0, Element::Literal),
        ("\n".to_string(), Element::Literal),
    );
}

fn scalar(emit: impl FnOnce(&mut Serializer<String>) -> Result<(), Error>) -> String {
    let mut serializer = fresh();
    emit(&mut serializer).unwrap();
    assert_eq!(serializer.preceding_element(), Element::Literal);
    assert_eq!(serializer.depth(), 0);
    serializer.into_inner()
}

#[test]
fn booleans() {
    assert_eq!(scalar(|s| s.serialize_bool(true)), "true");
    assert_eq!(scalar(|s| s.serialize_bool(false)), "false");
}

#[test]
fn unsigned_integers_in_decimal() {
    assert_eq!(scalar(|s| s.serialize_u64(0)), "0");
    assert_eq!(scalar(|s| s.serialize_u64(9)), "9");
    assert_eq!(scalar(|s| s.serialize_u64(10)), "10");
    assert_eq!(scalar(|s| s.serialize_u64(1234567890)), "1234567890");
    assert_eq!(scalar(|s| s.serialize_u64(u64::MAX)), "18446744073709551615");
    assert_eq!(scalar(|s| s.serialize_u8(u8::MAX)), "255");
    assert_eq!(scalar(|s| s.serialize_u16(u16::MAX)), "65535");
    assert_eq!(scalar(|s| s.serialize_u32(u32::MAX)), "4294967295");
}

#[test]
fn signed_integers_in_decimal() {
    assert_eq!(scalar(|s| s.serialize_i64(0)), "0");
    assert_eq!(scalar(|s| s.serialize_i64(-1)), "-1");
    assert_eq!(scalar(|s| s.serialize_i64(100)), "100");
    assert_eq!(scalar(|s| s.serialize_i64(i64::MAX)), "9223372036854775807");
    assert_eq!(scalar(|s| s.serialize_i64(i64::MIN)), "-9223372036854775808");
    assert_eq!(scalar(|s| s.serialize_i8(i8::MIN)), "-128");
    assert_eq!(scalar(|s| s.serialize_i16(i16::MIN)), "-32768");
    assert_eq!(scalar(|s| s.serialize_i16(i16::MAX)), "32767");
    assert_eq!(scalar(|s| s.serialize_i32(i32::MIN)), "-2147483648");
    assert_eq!(scalar(|s| s.serialize_i32(-907)), "-907");
}

#[test]
fn a_character_is_never_quoted() {
    assert_eq!(scalar(|s| s.serialize_char('x')), "x");
    assert_eq!(scalar(|s| s.serialize_char('1')), "1");
    assert_eq!(scalar(|s| s.serialize_char(' ')), " ");
    assert_eq!(scalar(|s| s.serialize_char('💣')), "💣");
}

#[test]
fn a_leading_indicator_is_quoted() {
    for c in ['{', '[', ' ', '&', '*', '#', ',', '>', '!', '%', '@'] {
        let v = format!("{}x", c);
        assert_eq!(scalar(|s| s.serialize_str(&v)), format!("'{}x'", c));
        let v = format!("x{}x", c);
        assert_eq!(scalar(|s| s.serialize_str(&v)), v);
    }
}

#[test]
fn a_trailing_indicator_is_quoted() {
    for c in ['}', ']', ' ', ':'] {
        let v = format!("x{}", c);
        assert_eq!(scalar(|s| s.serialize_str(&v)), format!("'x{}'", c));
    }
    for c in ['}', ']'] {
        let v = format!("{}x", c);
        assert_eq!(scalar(|s| s.serialize_str(&v)), v);
    }
    for c in ['{', '[', '&', '*', '#', ',', '>', '!', '%', '@'] {
        let v = format!("x{}", c);
        assert_eq!(scalar(|s| s.serialize_str(&v)), v);
    }
}

#[test]
fn digits_and_colons_are_quoted() {
    assert_eq!(scalar(|s| s.serialize_str("0")), "'0'");
    assert_eq!(scalar(|s| s.serialize_str("0123456789")), "'0123456789'");
    assert_eq!(scalar(|s| s.serialize_str("12:30:00")), "'12:30:00'");
    assert_eq!(scalar(|s| s.serialize_str(":")), "':'");
    assert_eq!(scalar(|s| s.serialize_str(":1")), "':1'");
    assert_eq!(scalar(|s| s.serialize_str("1a")), "1a");
    assert_eq!(scalar(|s| s.serialize_str("a1")), "a1");
    assert_eq!(scalar(|s| s.serialize_str("-1")), "-1");
    assert_eq!(scalar(|s| s.serialize_str("1.5")), "1.5");
    assert_eq!(scalar(|s| s.serialize_str("1 2")), "1 2");
    assert_eq!(scalar(|s| s.serialize_str("٣")), "٣");
    assert_eq!(scalar(|s| s.serialize_str("/")), "/");
    assert_eq!(scalar(|s| s.serialize_str(";")), ";");
}

#[test]
fn the_empty_string_is_two_quotes() {
    assert_eq!(scalar(|s| s.serialize_str("")), "''");
}

#[test]
fn a_quote_inside_is_not_escaped() {
    assert_eq!(scalar(|s| s.serialize_str("it's")), "it's");
    assert_eq!(scalar(|s| s.serialize_str(" it's")), "' it's'");
    assert_eq!(scalar(|s| s.serialize_str("'")), "'");
}

#[test]
fn a_line_break_inside_is_written_as_it_is() {
    assert_eq!(scalar(|s| s.serialize_str("a\nb")), "a\nb");
}

#[test]
fn null_for_nothing() {
    assert_eq!(scalar(|s| s.serialize_none()), "null");
    assert_eq!(scalar(|s| s.serialize_unit()), "null");
    assert_eq!(scalar(|s| s.serialize_unit_struct("Marker")), "null");
}

#[test]
fn a_unit_variant_is_its_name_as_a_string() {
    assert_eq!(scalar(|s| s.serialize_unit_variant("Kind", 0, "boolean")), "boolean");
    assert_eq!(scalar(|s| s.serialize_unit_variant("Kind", 1, "1")), "'1'");
    assert_eq!(scalar(|s| s.serialize_unit_variant("Kind", 2, "@home")), "'@home'");
}

#[test]
fn a_literal_is_written_as_it_is() {
    assert_eq!(scalar(|s| s.serialize_literal("-20.0")), "-20.0");
    assert_eq!(scalar(|s| s.serialize_literal("1")), "1");
    assert_eq!(scalar(|s| s.serialize_literal("")), "");
}

#[test]
fn floats_through_the_shortest_round_trip_form() {
    let f = ryu::Buffer::new().format(-20.0f64).to_string();
    assert_eq!(scalar(|s| s.serialize_literal(&f)), "-20.0");
    let f = ryu::Buffer::new().format(-2.3456789012345e-23f32).to_string();
    assert_eq!(scalar(|s| s.serialize_literal(&f)), "-2.3456788e-23");
}

#[test]
fn bytes_are_the_text_they_encode() {
    assert_eq!(scalar(|s| s.serialize_bytes(b"abc")), "abc");
    assert_eq!(scalar(|s| s.serialize_bytes("héllo 💣".as_bytes())), "héllo 💣");
    assert_eq!(scalar(|s| s.serialize_bytes(b"1")), "1");
    assert_eq!(scalar(|s| s.serialize_bytes(b"")), "");
}

#[test]
fn bytes_that_are_no_text_are_refused() {
    for bytes in [&[0xffu8][..], &[b'a', 0x80], &[0xc3], &[0xed, 0xa0, 0x80], &[0xc0, 0x80]] {
        let mut serializer = after(Element::SequenceEntry, 1);
        assert_eq!(serializer.serialize_bytes(bytes), Err(Error::InvalidUtf8));
        assert_eq!(serializer.preceding_element(), Element::SequenceEntry);
        assert_eq!(serializer.into_inner(), "  ");
    }
}

#[test]
fn tuple_shapes_are_unsupported() {
    let mut serializer = fresh();
    assert_eq!(serializer.serialize_tuple_struct("Pair", 2).err(), Some(Error::Unsupported));
    assert_eq!(
        serializer.serialize_tuple_variant("Shape", 1, "Pair", 2).err(),
        Some(Error::Unsupported)
    );
    assert_eq!(serializer.depth(), 0);
    assert_eq!(serializer.into_inner(), "");
}

#[test]
fn a_failed_write_is_the_error() {
    let mut serializer = Serializer::new(Recorded::new(Limited::new(0)));
    assert_eq!(serializer.str("x"), Err(Error::Write));
    assert_eq!(serializer.char('x'), Err(Error::Write));
    assert_eq!(serializer.serialize_bool(true), Err(Error::Write));
    assert_eq!(serializer.serialize_u64(7), Err(Error::Write));
    assert_eq!(serializer.serialize_i64(-7), Err(Error::Write));
    assert_eq!(serializer.serialize_str("x"), Err(Error::Write));
    assert_eq!(serializer.serialize_str(""), Err(Error::Write));
    assert_eq!(serializer.serialize_none(), Err(Error::Write));
    assert_eq!(serializer.serialize_bytes(b"x"), Err(Error::Write));
    assert_eq!(serializer.serialize_bytes(&[0xff]), Err(Error::InvalidUtf8));
    assert_eq!(serializer.into_inner().into_inner().text, "");
}

#[test]
fn emission_stops_at_the_first_failed_write() {
    let mut serializer = Serializer::new(Recorded::new(Limited::new(3)));
    assert_eq!(serializer.serialize_str("12345"), Err(Error::Write));
    assert_eq!(serializer.into_inner().into_inner().text, "'");

    let mut serializer = Serializer::new(Recorded::new(Limited::new(2)));
    assert_eq!(serializer.serialize_u64(12345), Err(Error::Write));
    assert_eq!(serializer.into_inner().into_inner().text, "12");

    let mut serializer = Serializer::new(Recorded::new(Limited::new(3)));
    serializer.push();
    serializer.push();
    assert_eq!(serializer.indent(Element::Literal), Err(Error::Write));
    assert_eq!(serializer.into_inner().into_inner().text, "  ");
}

#[test]
fn a_writer_with_room_takes_everything() {
    let mut serializer = Serializer::new(Recorded::new(Limited::new(64)));
    serializer.serialize_str("1:2").unwrap();
    serializer.indent(Element::Literal).unwrap();
    serializer.serialize_i32(-45).unwrap();
    let writer = serializer.into_inner().into_inner();
    assert_eq!(writer.text, "'1:2'\n\n-45");
    assert_eq!(writer.room, 64 - 10);
}
