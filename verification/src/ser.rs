//! The emitter.

use vstd::prelude::*;
use vstd::string::*;
use vstd::utf8::*;

use crate::decimal::{decimal, digit, digits, last_digit, magnitude};
use crate::error::Error;
use crate::failure::{
    interrupted, lemma_interrupted_steps, lemma_prefix_extended, lemma_spaces_prefix,
    lemma_steps_append,
};
use crate::layout::{spaces, Element, State};
use crate::quote::{needs_quotes, quoted, quotes_needed};
use crate::ser::map::SerializeMap;
use crate::ser::sequence::SerializeSeq;
use crate::ser::struct_::{SerializeStruct, SerializeStructVariant};
use crate::ser::unreachable::Unreachable;
use crate::sink::Sink;
use crate::value::frame::lemma_emitted_frame;
use crate::value::Value;

pub mod map;
pub mod sequence;
pub mod struct_;
pub mod unreachable;

verus! {

broadcast use crate::ser::struct_::lemma_struct_resolved;

/// `core::str::Utf8Error`, which says why bytes are not valid UTF-8.
#[verifier::external_type_specification]
#[verifier::external_body]
pub struct ExUtf8Error(core::str::Utf8Error);

/// `core::str::from_utf8`: the bytes as a string slice if they are valid
/// UTF-8, and an error if they are not. The slice holds the same bytes.
#[verifier::external_body]
fn from_utf8(v: &[u8]) -> (r: Result<&str, core::str::Utf8Error>)
    ensures
        r is Ok <==> valid_utf8(v@),
        r matches Ok(s) ==> s.spec_bytes() == v@,
{
    core::str::from_utf8(v)
}

/// The layout state machine on top of a sink.
///
/// Its view is the [`State`] that the emitted tokens have led to; every
/// method says how that state moves. A method that fails has written a
/// part of its text, from the start, and nothing after the write that
/// failed.
pub struct Serializer<W: Sink> {
    writer: W,
    depth: usize,
    preceding_element: Element,
}

impl<W: Sink> View for Serializer<W> {
    type V = State;

    closed spec fn view(&self) -> State {
        State {
            text: self.writer.text(),
            depth: self.depth as nat,
            last: self.preceding_element,
            reliable: self.writer.reliable(),
        }
    }
}

impl<W: Sink> Serializer<W> {
    /// An emitter at the start of a document.
    pub fn new(writer: W) -> (r: Self)
        ensures
            r@ == State::initial(writer.text(), writer.reliable()),
    {
        Serializer { writer, depth: 0, preceding_element: Element::Nothing }
    }

    /// Gives the sink back, with the text that was emitted into it.
    pub fn into_inner(self) -> (w: W)
        ensures
            w.text() == self@.text,
            w.reliable() == self@.reliable,
    {
        self.writer
    }

    /// The current nesting depth.
    pub fn depth(&self) -> (d: usize)
        ensures
            d == self@.depth,
    {
        self.depth
    }

    /// The kind of the token emitted last.
    pub fn preceding_element(&self) -> (e: Element)
        ensures
            e == self@.last,
    {
        self.preceding_element
    }

    /// Writes one character as it is.
    pub fn char(&mut self, c: char) -> (r: Result<(), Error>)
        ensures
            old(self)@.reliable ==> r is Ok,
            r is Ok ==> final(self)@ == old(self)@.write(seq![c]),
            r is Err ==> r == Err::<(), Error>(Error::Write),
            r is Err ==> final(self)@ == old(self)@,
    {
        let r = self.writer.write_char(c);
        proof {
            assert(old(self)@.text.push(c) =~= old(self)@.text + seq![c]);
        }
        r
    }

    /// Writes a piece of text as it is.
    pub fn str(&mut self, string: &str) -> (r: Result<(), Error>)
        ensures
            old(self)@.reliable ==> r is Ok,
            r is Ok ==> final(self)@ == old(self)@.write(string@),
            r is Err ==> r == Err::<(), Error>(Error::Write),
            r is Err ==> final(self)@ == old(self)@,
    {
        self.writer.write_str(string)
    }

    /// Writes two spaces for each level of nesting.
    fn pad(&mut self) -> (r: Result<(), Error>)
        ensures
            old(self)@.reliable ==> r is Ok,
            r is Ok ==> final(self)@ == old(self)@.write(spaces(2 * old(self)@.depth)),
            r is Err ==> r == Err::<(), Error>(Error::Write),
            r is Err ==> interrupted(
                old(self)@,
                final(self)@,
                old(self)@.write(spaces(2 * old(self)@.depth)),
            ),
    {
        let mut level: usize = 0;
        proof {
            assert(self@.text + spaces(0) =~= self@.text);
        }
        while level < self.depth
            invariant
                level <= self.depth,
                self@ == old(self)@.write(spaces(2 * level as nat)),
            decreases self.depth - level,
        {
            proof {
                lemma_prefix_extended(old(self)@.text, spaces(2 * level as nat));
                lemma_spaces_prefix(old(self)@.text, 2 * level as nat, 2 * self@.depth);
            }
            self.str("  ")?;
            proof {
                reveal_strlit("  ");
                assert(spaces(2 * level as nat) + "  "@ =~= spaces(2 * (level + 1) as nat));
                assert(old(self)@.text + spaces(2 * level as nat) + "  "@ =~= old(self)@.text
                    + spaces(2 * (level + 1) as nat));
            }
            level += 1;
        }
        Ok(())
    }

    /// Separates the token that is about to be written, of kind `element`,
    /// from the one before it: by a space where it continues the line, by
    /// nothing where it is or follows a mapping key, by the indentation
    /// alone at the start of the output or of a nested scope, and by a line
    /// break and the indentation otherwise.
    pub fn indent(&mut self, element: Element) -> (r: Result<(), Error>)
        ensures
            old(self)@.reliable ==> r is Ok,
            r is Ok ==> final(self)@ == old(self)@.indent(element),
            r is Err ==> r == Err::<(), Error>(Error::Write),
            r is Err ==> interrupted(old(self)@, final(self)@, old(self)@.indent(element)),
    {
        let ghost next = element;
        let ghost target = self@.indent(next);
        proof {
            lemma_steps_append(self@, next, seq!['\n'], true);
            lemma_interrupted_steps(self@, self@, self@, self@, target);
            if self@.separator(next) == seq!['\n'] + spaces(2 * self@.depth) {
                let line = self@.write(seq!['\n']);
                assert(line.write(spaces(2 * self@.depth)).text =~= target.text);
                lemma_prefix_extended(line.text, spaces(2 * self@.depth));
                lemma_interrupted_steps(self@, line, target, target, target);
            }
        }
        let mut element = element;
        match (self.preceding_element, element) {
            (Element::SequenceEntry, _) | (Element::MappingKey, Element::Literal) => {
                self.char(' ')?;
            },
            (Element::PreMappingKey, Element::Literal) => {
                element = Element::MappingKey;
            },
            (Element::Literal, Element::MappingKey) => {},
            (Element::Nothing, _) => {
                self.pad()?;
            },
            _ => {
                self.char('\n')?;
                self.pad()?;
            },
        }
        self.preceding_element = element;
        proof {
            assert(self@.text =~= target.text);
        }
        Ok(())
    }

    /// Emits a scalar whose text was formatted elsewhere, such as a
    /// floating-point number: the separator, then the text as it is.
    pub fn serialize_literal(&mut self, text: &str) -> (r: Result<(), Error>)
        ensures
            old(self)@.reliable ==> r is Ok,
            r is Ok ==> final(self)@ == old(self)@.scalar(text@),
            r is Err ==> r == Err::<(), Error>(Error::Write),
            r is Err ==> interrupted(old(self)@, final(self)@, old(self)@.scalar(text@)),
    {
        proof {
            let open = self@.indent(Element::Literal);
            lemma_steps_append(self@, Element::Literal, text@, true);
            lemma_interrupted_steps(
                self@,
                open,
                open.write(text@),
                open.write(text@),
                open.write(text@),
            );
        }
        self.indent(Element::Literal)?;
        self.str(text)
    }

    /// Emits `true` or `false`.
    pub fn serialize_bool(&mut self, v: bool) -> (r: Result<(), Error>)
        ensures
            old(self)@.reliable ==> r is Ok,
            r is Ok ==> final(self)@ == old(self)@.scalar(if v { "true"@ } else { "false"@ }),
            r is Err ==> r == Err::<(), Error>(Error::Write),
            r is Err ==> interrupted(
                old(self)@,
                final(self)@,
                old(self)@.scalar(if v { "true"@ } else { "false"@ }),
            ),
    {
        self.serialize_literal(if v { "true" } else { "false" })
    }

    /// Writes the digits of `v`.
    fn digits(&mut self, v: u64) -> (r: Result<(), Error>)
        ensures
            old(self)@.reliable ==> r is Ok,
            r is Ok ==> final(self)@ == old(self)@.write(digits(v as nat)),
            r is Err ==> r == Err::<(), Error>(Error::Write),
            r is Err ==> interrupted(old(self)@, final(self)@, old(self)@.write(digits(v as nat))),
        decreases v,
    {
        let ghost target = self@.write(digits(v as nat));
        proof {
            lemma_prefix_extended(self@.text, digits(v as nat));
        }
        if v >= 10 {
            proof {
                let part = self@.write(digits((v / 10) as nat));
                assert(part.text + seq![digit((v % 10) as nat)] =~= target.text);
                lemma_prefix_extended(part.text, seq![digit((v % 10) as nat)]);
                lemma_prefix_extended(self@.text, digits((v / 10) as nat));
            }
            self.digits(v / 10)?;
        }
        self.char(last_digit(v))
    }

    /// Emits an unsigned integer in decimal.
    pub fn serialize_u64(&mut self, v: u64) -> (r: Result<(), Error>)
        ensures
            old(self)@.reliable ==> r is Ok,
            r is Ok ==> final(self)@ == old(self)@.scalar(decimal(v as int)),
            r is Err ==> r == Err::<(), Error>(Error::Write),
            r is Err ==> interrupted(
                old(self)@,
                final(self)@,
                old(self)@.scalar(decimal(v as int)),
            ),
    {
        proof {
            lemma_steps_append(self@, Element::Literal, decimal(v as int), true);
        }
        self.indent(Element::Literal)?;
        self.digits(v)
    }

    /// Emits a signed integer in decimal, with a minus sign if it is
    /// negative.
    pub fn serialize_i64(&mut self, v: i64) -> (r: Result<(), Error>)
        ensures
            old(self)@.reliable ==> r is Ok,
            r is Ok ==> final(self)@ == old(self)@.scalar(decimal(v as int)),
            r is Err ==> r == Err::<(), Error>(Error::Write),
            r is Err ==> interrupted(
                old(self)@,
                final(self)@,
                old(self)@.scalar(decimal(v as int)),
            ),
    {
        let ghost target = self@.scalar(decimal(v as int));
        let ghost open = self@.indent(Element::Literal);
        proof {
            lemma_steps_append(self@, Element::Literal, decimal(v as int), true);
            if v < 0 {
                let signed = open.write(seq!['-']);
                lemma_steps_append(open, Element::Literal, seq!['-'], true);
                lemma_steps_append(signed, Element::Literal, digits((-v) as nat), true);
                assert(signed.write(digits((-v) as nat)).text =~= target.text);
                lemma_interrupted_steps(self@, open, signed, target, target);
            } else {
                lemma_interrupted_steps(self@, open, target, target, target);
            }
        }
        self.indent(Element::Literal)?;
        if v < 0 {
            self.char('-')?;
        }
        self.digits(magnitude(v))
    }

    /// Emits a signed integer of 8 bits in decimal.
    pub fn serialize_i8(&mut self, v: i8) -> (r: Result<(), Error>)
        ensures
            old(self)@.reliable ==> r is Ok,
            r is Ok ==> final(self)@ == old(self)@.scalar(decimal(v as int)),
            r is Err ==> r == Err::<(), Error>(Error::Write),
            r is Err ==> interrupted(
                old(self)@,
                final(self)@,
                old(self)@.scalar(decimal(v as int)),
            ),
    {
        self.serialize_i64(v as i64)
    }

    /// Emits a signed integer of 16 bits in decimal.
    pub fn serialize_i16(&mut self, v: i16) -> (r: Result<(), Error>)
        ensures
            old(self)@.reliable ==> r is Ok,
            r is Ok ==> final(self)@ == old(self)@.scalar(decimal(v as int)),
            r is Err ==> r == Err::<(), Error>(Error::Write),
            r is Err ==> interrupted(
                old(self)@,
                final(self)@,
                old(self)@.scalar(decimal(v as int)),
            ),
    {
        self.serialize_i64(v as i64)
    }

    /// Emits a signed integer of 32 bits in decimal.
    pub fn serialize_i32(&mut self, v: i32) -> (r: Result<(), Error>)
        ensures
            old(self)@.reliable ==> r is Ok,
            r is Ok ==> final(self)@ == old(self)@.scalar(decimal(v as int)),
            r is Err ==> r == Err::<(), Error>(Error::Write),
            r is Err ==> interrupted(
                old(self)@,
                final(self)@,
                old(self)@.scalar(decimal(v as int)),
            ),
    {
        self.serialize_i64(v as i64)
    }

    /// Emits an unsigned integer of 8 bits in decimal.
    pub fn serialize_u8(&mut self, v: u8) -> (r: Result<(), Error>)
        ensures
            old(self)@.reliable ==> r is Ok,
            r is Ok ==> final(self)@ == old(self)@.scalar(decimal(v as int)),
            r is Err ==> r == Err::<(), Error>(Error::Write),
            r is Err ==> interrupted(
                old(self)@,
                final(self)@,
                old(self)@.scalar(decimal(v as int)),
            ),
    {
        self.serialize_u64(v as u64)
    }

    /// Emits an unsigned integer of 16 bits in decimal.
    pub fn serialize_u16(&mut self, v: u16) -> (r: Result<(), Error>)
        ensures
            old(self)@.reliable ==> r is Ok,
            r is Ok ==> final(self)@ == old(self)@.scalar(decimal(v as int)),
            r is Err ==> r == Err::<(), Error>(Error::Write),
            r is Err ==> interrupted(
                old(self)@,
                final(self)@,
                old(self)@.scalar(decimal(v as int)),
            ),
    {
        self.serialize_u64(v as u64)
    }

    /// Emits an unsigned integer of 32 bits in decimal.
    pub fn serialize_u32(&mut self, v: u32) -> (r: Result<(), Error>)
        ensures
            old(self)@.reliable ==> r is Ok,
            r is Ok ==> final(self)@ == old(self)@.scalar(decimal(v as int)),
            r is Err ==> r == Err::<(), Error>(Error::Write),
            r is Err ==> interrupted(
                old(self)@,
                final(self)@,
                old(self)@.scalar(decimal(v as int)),
            ),
    {
        self.serialize_u64(v as u64)
    }

    /// Emits one character as it is.
    pub fn serialize_char(&mut self, c: char) -> (r: Result<(), Error>)
        ensures
            old(self)@.reliable ==> r is Ok,
            r is Ok ==> final(self)@ == old(self)@.scalar(seq![c]),
            r is Err ==> r == Err::<(), Error>(Error::Write),
            r is Err ==> interrupted(old(self)@, final(self)@, old(self)@.scalar(seq![c])),
    {
        proof {
            lemma_steps_append(self@, Element::Literal, seq![c], true);
        }
        self.indent(Element::Literal)?;
        self.char(c)
    }

    /// Emits a string: in single quotes where it would otherwise read as
    /// something else, and as it is everywhere else. A quote inside the
    /// string is not escaped.
    pub fn serialize_str(&mut self, v: &str) -> (r: Result<(), Error>)
        ensures
            old(self)@.reliable ==> r is Ok,
            r is Ok ==> final(self)@ == old(self)@.scalar(quoted(v@)),
            r is Err ==> r == Err::<(), Error>(Error::Write),
            r is Err ==> interrupted(old(self)@, final(self)@, old(self)@.scalar(quoted(v@))),
    {
        let ghost target = self@.scalar(quoted(v@));
        let ghost open = self@.indent(Element::Literal);
        proof {
            lemma_steps_append(self@, Element::Literal, quoted(v@), true);
            if needs_quotes(v@) {
                let inside = open.write(seq!['\'']);
                lemma_steps_append(open, Element::Literal, seq!['\''], true);
                lemma_steps_append(inside, Element::Literal, v@, true);
                lemma_steps_append(inside.write(v@), Element::Literal, seq!['\''], true);
                assert(inside.write(v@).write(seq!['\'']).text =~= target.text);
                lemma_interrupted_steps(self@, open, inside, inside.write(v@), target);
            } else {
                lemma_interrupted_steps(self@, open, target, target, target);
            }
        }
        self.indent(Element::Literal)?;
        let quote = quotes_needed(v);
        if quote {
            self.char('\'')?;
        }
        self.str(v)?;
        if quote {
            self.char('\'')?;
        }
        Ok(())
    }

    /// Emits a byte buffer as the text that it encodes. A buffer that is not
    /// valid UTF-8 is refused before anything is written.
    pub fn serialize_bytes(&mut self, v: &[u8]) -> (r: Result<(), Error>)
        ensures
            !valid_utf8(v@) ==> r == Err::<(), Error>(Error::InvalidUtf8) && final(self)@ == old(
                self,
            )@,
            valid_utf8(v@) && old(self)@.reliable ==> r is Ok,
            r is Ok ==> final(self)@ == old(self)@.scalar(decode_utf8(v@)),
            valid_utf8(v@) && r is Err ==> r == Err::<(), Error>(Error::Write),
            valid_utf8(v@) && r is Err ==> interrupted(
                old(self)@,
                final(self)@,
                old(self)@.scalar(decode_utf8(v@)),
            ),
    {
        match from_utf8(v) {
            Ok(text) => {
                proof {
                    encode_utf8_decode_utf8(text@);
                }
                self.serialize_literal(text)
            },
            Err(_) => Err(Error::InvalidUtf8),
        }
    }

    /// Emits `null` for an absent value.
    pub fn serialize_none(&mut self) -> (r: Result<(), Error>)
        ensures
            old(self)@.reliable ==> r is Ok,
            r is Ok ==> final(self)@ == old(self)@.scalar("null"@),
            r is Err ==> r == Err::<(), Error>(Error::Write),
            r is Err ==> interrupted(old(self)@, final(self)@, old(self)@.scalar("null"@)),
    {
        self.serialize_literal("null")
    }

    /// Emits a present value as the value itself.
    pub fn serialize_some(&mut self, value: &Value) -> (r: Result<(), Error>)
        requires
            old(self)@.depth + value.nesting() <= usize::MAX,
        ensures
            old(self)@.reliable ==> r is Ok,
            r is Ok ==> final(self)@ == value.emitted(old(self)@),
            r is Err ==> r == Err::<(), Error>(Error::Write),
            r is Err ==> interrupted(old(self)@, final(self)@, value.emitted(old(self)@)),
        decreases value, 1nat,
    {
        value.serialize(self)
    }

    /// Emits `null` for the unit value.
    pub fn serialize_unit(&mut self) -> (r: Result<(), Error>)
        ensures
            old(self)@.reliable ==> r is Ok,
            r is Ok ==> final(self)@ == old(self)@.scalar("null"@),
            r is Err ==> r == Err::<(), Error>(Error::Write),
            r is Err ==> interrupted(old(self)@, final(self)@, old(self)@.scalar("null"@)),
    {
        self.serialize_none()
    }

    /// Emits `null` for a struct without fields, whatever its name.
    pub fn serialize_unit_struct(&mut self, _name: &str) -> (r: Result<(), Error>)
        ensures
            old(self)@.reliable ==> r is Ok,
            r is Ok ==> final(self)@ == old(self)@.scalar("null"@),
            r is Err ==> r == Err::<(), Error>(Error::Write),
            r is Err ==> interrupted(old(self)@, final(self)@, old(self)@.scalar("null"@)),
    {
        self.serialize_unit()
    }

    /// Emits a variant without data as the string of its name.
    pub fn serialize_unit_variant(
        &mut self,
        _name: &str,
        _variant_index: u32,
        variant: &str,
    ) -> (r: Result<(), Error>)
        ensures
            old(self)@.reliable ==> r is Ok,
            r is Ok ==> final(self)@ == old(self)@.scalar(quoted(variant@)),
            r is Err ==> r == Err::<(), Error>(Error::Write),
            r is Err ==> interrupted(old(self)@, final(self)@, old(self)@.scalar(quoted(variant@))),
    {
        self.serialize_str(variant)
    }

    /// Emits a struct of one unnamed field as the field itself.
    pub fn serialize_newtype_struct(&mut self, _name: &str, value: &Value) -> (r: Result<
        (),
        Error,
    >)
        requires
            old(self)@.depth + value.nesting() <= usize::MAX,
        ensures
            old(self)@.reliable ==> r is Ok,
            r is Ok ==> final(self)@ == value.emitted(old(self)@),
            r is Err ==> r == Err::<(), Error>(Error::Write),
            r is Err ==> interrupted(old(self)@, final(self)@, value.emitted(old(self)@)),
        decreases value, 1nat,
    {
        value.serialize(self)
    }

    /// Emits a variant with one value as a mapping of one entry, from the
    /// variant's name to the value.
    pub fn serialize_newtype_variant(
        &mut self,
        _name: &str,
        _variant_index: u32,
        variant: &str,
        value: &Value,
    ) -> (r: Result<(), Error>)
        requires
            old(self)@.depth + 1 + value.nesting() <= usize::MAX,
        ensures
            old(self)@.reliable ==> r is Ok,
            r is Ok ==> final(self)@ == value.emitted(
                old(self)@.begin_field(true, variant@),
            ).leave(),
            r is Err ==> r == Err::<(), Error>(Error::Write),
            r is Err ==> interrupted(
                old(self)@,
                final(self)@,
                value.emitted(old(self)@.begin_field(true, variant@)).leave(),
            ),
        decreases value, 2nat,
    {
        proof {
            lemma_emitted_frame(*value, self@.begin_field(true, variant@));
            lemma_prefix_extended(self@.text, Seq::empty());
        }
        let mut s = SerializeStruct::new(self);
        s.serialize_field(variant, value)?;
        s.end()
    }

    /// Opens a sequence.
    pub fn serialize_seq(&mut self, _len: Option<usize>) -> (r: Result<SerializeSeq<'_, W>, Error>)
        ensures
            r is Ok,
            *r->Ok_0.target() == *old(self),
            *final(r->Ok_0.target()) == *final(self),
            r->Ok_0.is_empty(),
    {
        Ok(SerializeSeq::new(self))
    }

    /// Opens a tuple, which is written as a sequence.
    pub fn serialize_tuple(&mut self, len: usize) -> (r: Result<SerializeSeq<'_, W>, Error>)
        ensures
            r is Ok,
            *r->Ok_0.target() == *old(self),
            *final(r->Ok_0.target()) == *final(self),
            r->Ok_0.is_empty(),
    {
        self.serialize_seq(Some(len))
    }

    /// Refuses a tuple struct: it has no textual form.
    pub fn serialize_tuple_struct(&mut self, _name: &str, _len: usize) -> (r: Result<
        Unreachable,
        Error,
    >)
        ensures
            r is Err,
            r->Err_0 == Error::Unsupported,
            *final(self) == *old(self),
    {
        Err(Error::Unsupported)
    }

    /// Refuses a tuple variant: it has no textual form.
    pub fn serialize_tuple_variant(
        &mut self,
        _name: &str,
        _variant_index: u32,
        _variant: &str,
        _len: usize,
    ) -> (r: Result<Unreachable, Error>)
        ensures
            r is Err,
            r->Err_0 == Error::Unsupported,
            *final(self) == *old(self),
    {
        Err(Error::Unsupported)
    }

    /// Opens a mapping.
    pub fn serialize_map(&mut self, _len: Option<usize>) -> (r: Result<SerializeMap<'_, W>, Error>)
        ensures
            r is Ok,
            *r->Ok_0.target() == *old(self),
            *final(r->Ok_0.target()) == *final(self),
            r->Ok_0.is_empty(),
    {
        Ok(SerializeMap::new(self))
    }

    /// Opens a struct.
    pub fn serialize_struct(&mut self, _name: &str, _len: usize) -> (r: Result<
        SerializeStruct<'_, W>,
        Error,
    >)
        ensures
            r is Ok,
            *r->Ok_0.target() == *old(self),
            *final(r->Ok_0.target()) == *final(self),
            r->Ok_0.is_empty(),
    {
        Ok(SerializeStruct::new(self))
    }

    /// Opens a struct variant: its name is written as a mapping key, and
    /// its fields follow one level below.
    pub fn serialize_struct_variant(
        &mut self,
        _name: &str,
        _variant_index: u32,
        variant: &str,
        _len: usize,
    ) -> (r: Result<SerializeStructVariant<'_, W>, Error>)
        requires
            old(self)@.depth < usize::MAX,
        ensures
            old(self)@.reliable ==> r is Ok,
            r is Ok ==> r->Ok_0.target()@ == old(self)@.begin_variant(variant@),
            r is Ok ==> *final(r->Ok_0.target()) == *final(self),
            r is Ok ==> r->Ok_0.is_empty(),
            r is Err ==> r->Err_0 == Error::Write,
            r is Err ==> interrupted(
                old(self)@,
                final(self)@,
                old(self)@.begin_variant(variant@),
            ),
    {
        let ghost key = self@.indent(Element::MappingKey);
        proof {
            lemma_steps_append(self@, Element::MappingKey, variant@, true);
            lemma_steps_append(key, Element::MappingKey, variant@, true);
            lemma_steps_append(key.write(variant@), Element::MappingKey, seq![':'], true);
            lemma_interrupted_steps(
                self@,
                key,
                key.write(variant@),
                key.write(variant@).write(seq![':']),
                self@.begin_variant(variant@),
            );
        }
        self.indent(Element::MappingKey)?;
        self.str(variant)?;
        self.char(':')?;
        self.push();
        Ok(SerializeStructVariant::new(self))
    }

    /// Enters a nested scope.
    pub fn push(&mut self)
        requires
            old(self)@.depth < usize::MAX,
        ensures
            final(self)@ == old(self)@.enter(),
    {
        self.depth += 1;
    }

    /// Leaves a nested scope. What comes next starts as at the top of the
    /// output.
    pub fn pop(&mut self)
        requires
            old(self)@.depth > 0,
        ensures
            final(self)@ == old(self)@.leave(),
    {
        self.depth -= 1;
        self.preceding_element = Element::Nothing;
    }
}

} // verus!
