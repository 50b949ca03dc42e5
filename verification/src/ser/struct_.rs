//! Structs and struct variants.

use vstd::prelude::*;
use vstd::string::*;

use crate::error::Error;
use crate::failure::{interrupted, lemma_interrupted_steps, lemma_steps_append};
use crate::layout::Element;
use crate::ser::Serializer;
use crate::sink::Sink;
use crate::value::frame::lemma_emitted_frame;
use crate::value::Value;

verus! {

/// An open struct: one `name: value` per line, and `{}` if it has no
/// fields. A field's name is written as it is, never in quotes.
pub struct SerializeStruct<'a, W: Sink> {
    serializer: &'a mut Serializer<W>,
    empty: bool,
}

/// A struct that is let go of leaves the emitter as it is.
pub broadcast proof fn lemma_struct_resolved<'a, W: Sink>(s: SerializeStruct<'a, W>)
    ensures
        #[trigger] has_resolved(s) ==> *final(s.target()) == *s.target(),
{
}

impl<'a, W: Sink> SerializeStruct<'a, W> {
    /// The emitter that the struct is written through.
    pub closed spec fn target(self) -> &'a mut Serializer<W> {
        self.serializer
    }

    /// Whether no field has been started yet.
    pub closed spec fn is_empty(self) -> bool {
        self.empty
    }

    /// Opens a struct on `serializer`. Nothing is written yet.
    pub fn new(serializer: &'a mut Serializer<W>) -> (r: Self)
        ensures
            *r.target() == *old(serializer),
            *final(r.target()) == *final(serializer),
            r.is_empty(),
    {
        SerializeStruct { serializer, empty: true }
    }

    /// The emitter, for a field's own value.
    pub fn serializer(&mut self) -> (r: &mut Serializer<W>)
        ensures
            *r == *old(self).target(),
            *final(self).target() == *final(r),
            *final(final(self).target()) == *final(old(self).target()),
            final(self).is_empty() == old(self).is_empty(),
    {
        &mut *self.serializer
    }

    /// Starts a field: a line of its own unless it is the first, the name,
    /// the colon, and the field's scope. The field's value comes next.
    pub fn begin_field(&mut self, key: &str) -> (r: Result<(), Error>)
        requires
            old(self).target()@.depth < usize::MAX,
        ensures
            old(self).target()@.reliable ==> r is Ok,
            r is Ok ==> final(self).target()@ == old(self).target()@.begin_field(
                old(self).is_empty(),
                key@,
            ),
            r is Ok ==> !final(self).is_empty(),
            r is Err ==> r == Err::<(), Error>(Error::Write),
            r is Err ==> interrupted(
                old(self).target()@,
                final(self).target()@,
                old(self).target()@.begin_field(old(self).is_empty(), key@),
            ),
            *final(final(self).target()) == *final(old(self).target()),
    {
        let ghost st = self.serializer@;
        let ghost member = st.next_member(self.empty);
        let ghost name = member.indent(Element::MappingKey);
        let ghost target = st.begin_field(self.empty, key@);
        proof {
            lemma_steps_append(st, Element::MappingKey, key@, self.empty);
            lemma_steps_append(member, Element::MappingKey, key@, true);
            lemma_steps_append(name, Element::MappingKey, key@, true);
            lemma_steps_append(name.write(key@), Element::MappingKey, seq![':'], true);
            lemma_interrupted_steps(st, member, name, name.write(key@), target);
        }
        if !self.empty {
            self.serializer.char('\n')?;
        }
        self.empty = false;
        self.serializer.indent(Element::MappingKey)?;
        self.serializer.str(key)?;
        self.serializer.char(':')?;
        self.serializer.push();
        Ok(())
    }

    /// Ends a field: its scope is left.
    pub fn end_field(&mut self)
        requires
            old(self).target()@.depth > 0,
        ensures
            final(self).target()@ == old(self).target()@.leave(),
            final(self).is_empty() == old(self).is_empty(),
            *final(final(self).target()) == *final(old(self).target()),
    {
        self.serializer.pop();
    }

    /// Emits one field: its start, the value one level down, and its end.
    pub fn serialize_field(&mut self, key: &str, value: &Value) -> (r: Result<(), Error>)
        requires
            old(self).target()@.depth + 1 + value.nesting() <= usize::MAX,
        ensures
            old(self).target()@.reliable ==> r is Ok,
            r is Ok ==> final(self).target()@ == value.emitted(
                old(self).target()@.begin_field(old(self).is_empty(), key@),
            ).leave(),
            r is Ok ==> !final(self).is_empty(),
            r is Err ==> r == Err::<(), Error>(Error::Write),
            r is Err ==> interrupted(
                old(self).target()@,
                final(self).target()@,
                value.emitted(old(self).target()@.begin_field(old(self).is_empty(), key@)).leave(),
            ),
            *final(final(self).target()) == *final(old(self).target()),
        decreases value, 1nat,
    {
        let ghost st = self.serializer@;
        let ghost begun = st.begin_field(self.empty, key@);
        let ghost target = value.emitted(begun).leave();
        proof {
            lemma_emitted_frame(*value, begun);
            lemma_steps_append(st, Element::MappingKey, key@, self.empty);
            lemma_interrupted_steps(st, begun, value.emitted(begun), target, target);
        }
        self.begin_field(key)?;
        value.serialize(&mut *self.serializer)?;
        self.end_field();
        Ok(())
    }

    /// Closes the struct: `{}` if it has no fields.
    pub fn end(self) -> (r: Result<(), Error>)
        ensures
            self.target()@.reliable ==> r is Ok,
            r is Ok ==> final(self.target())@ == self.target()@.close(self.is_empty(), "{}"@),
            r is Err ==> r == Err::<(), Error>(Error::Write),
            r is Err ==> final(self.target())@ == self.target()@,
    {
        if self.empty {
            self.serializer.str("{}")?;
        }
        Ok(())
    }
}

/// The open fields of a struct variant, one level below the variant's name,
/// which stands above them as a mapping key.
pub struct SerializeStructVariant<'a, W: Sink> {
    serializer: &'a mut Serializer<W>,
    empty: bool,
}

/// A struct variant that is let go of leaves the emitter as it is.
pub broadcast proof fn lemma_struct_variant_resolved<'a, W: Sink>(s: SerializeStructVariant<'a, W>)
    ensures
        #[trigger] has_resolved(s) ==> *final(s.target()) == *s.target(),
{
}

impl<'a, W: Sink> SerializeStructVariant<'a, W> {
    /// The emitter that the fields are written through.
    pub closed spec fn target(self) -> &'a mut Serializer<W> {
        self.serializer
    }

    /// Whether no field has been started yet.
    pub closed spec fn is_empty(self) -> bool {
        self.empty
    }

    /// Opens the fields on `serializer`, which stands inside the scope of
    /// the variant's name. Nothing is written yet.
    pub fn new(serializer: &'a mut Serializer<W>) -> (r: Self)
        ensures
            *r.target() == *old(serializer),
            *final(r.target()) == *final(serializer),
            r.is_empty(),
    {
        SerializeStructVariant { serializer, empty: true }
    }

    /// The emitter, for a field's own value.
    pub fn serializer(&mut self) -> (r: &mut Serializer<W>)
        ensures
            *r == *old(self).target(),
            *final(self).target() == *final(r),
            *final(final(self).target()) == *final(old(self).target()),
            final(self).is_empty() == old(self).is_empty(),
    {
        &mut *self.serializer
    }

    /// Starts a field: a line of its own unless it is the first, the name,
    /// the colon, and the field's scope. The field's value comes next.
    pub fn begin_field(&mut self, key: &str) -> (r: Result<(), Error>)
        requires
            old(self).target()@.depth < usize::MAX,
        ensures
            old(self).target()@.reliable ==> r is Ok,
            r is Ok ==> final(self).target()@ == old(self).target()@.begin_field(
                old(self).is_empty(),
                key@,
            ),
            r is Ok ==> !final(self).is_empty(),
            r is Err ==> r == Err::<(), Error>(Error::Write),
            r is Err ==> interrupted(
                old(self).target()@,
                final(self).target()@,
                old(self).target()@.begin_field(old(self).is_empty(), key@),
            ),
            *final(final(self).target()) == *final(old(self).target()),
    {
        let ghost st = self.serializer@;
        let ghost member = st.next_member(self.empty);
        let ghost name = member.indent(Element::MappingKey);
        let ghost target = st.begin_field(self.empty, key@);
        proof {
            lemma_steps_append(st, Element::MappingKey, key@, self.empty);
            lemma_steps_append(member, Element::MappingKey, key@, true);
            lemma_steps_append(name, Element::MappingKey, key@, true);
            lemma_steps_append(name.write(key@), Element::MappingKey, seq![':'], true);
            lemma_interrupted_steps(st, member, name, name.write(key@), target);
        }
        if !self.empty {
            self.serializer.char('\n')?;
        }
        self.empty = false;
        self.serializer.indent(Element::MappingKey)?;
        self.serializer.str(key)?;
        self.serializer.char(':')?;
        self.serializer.push();
        Ok(())
    }

    /// Ends a field: its scope is left.
    pub fn end_field(&mut self)
        requires
            old(self).target()@.depth > 0,
        ensures
            final(self).target()@ == old(self).target()@.leave(),
            final(self).is_empty() == old(self).is_empty(),
            *final(final(self).target()) == *final(old(self).target()),
    {
        self.serializer.pop();
    }

    /// Emits one field: its start, the value one level down, and its end.
    pub fn serialize_field(&mut self, key: &str, value: &Value) -> (r: Result<(), Error>)
        requires
            old(self).target()@.depth + 1 + value.nesting() <= usize::MAX,
        ensures
            old(self).target()@.reliable ==> r is Ok,
            r is Ok ==> final(self).target()@ == value.emitted(
                old(self).target()@.begin_field(old(self).is_empty(), key@),
            ).leave(),
            r is Ok ==> !final(self).is_empty(),
            r is Err ==> r == Err::<(), Error>(Error::Write),
            r is Err ==> interrupted(
                old(self).target()@,
                final(self).target()@,
                value.emitted(old(self).target()@.begin_field(old(self).is_empty(), key@)).leave(),
            ),
            *final(final(self).target()) == *final(old(self).target()),
        decreases value, 1nat,
    {
        let ghost st = self.serializer@;
        let ghost begun = st.begin_field(self.empty, key@);
        let ghost target = value.emitted(begun).leave();
        proof {
            lemma_emitted_frame(*value, begun);
            lemma_steps_append(st, Element::MappingKey, key@, self.empty);
            lemma_interrupted_steps(st, begun, value.emitted(begun), target, target);
        }
        self.begin_field(key)?;
        value.serialize(&mut *self.serializer)?;
        self.end_field();
        Ok(())
    }

    /// Closes the variant: `{}` if it has no fields, and the scope of the
    /// variant's name is left.
    pub fn end(self) -> (r: Result<(), Error>)
        requires
            self.target()@.depth > 0,
        ensures
            self.target()@.reliable ==> r is Ok,
            r is Ok ==> final(self.target())@ == self.target()@.close(
                self.is_empty(),
                "{}"@,
            ).leave(),
            r is Err ==> r == Err::<(), Error>(Error::Write),
            r is Err ==> final(self.target())@ == self.target()@,
    {
        if self.empty {
            self.serializer.str("{}")?;
        }
        self.serializer.pop();
        Ok(())
    }
}

} // verus!
