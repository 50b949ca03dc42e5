//! Values, and the text of each.

use vstd::prelude::*;
use vstd::string::*;

use crate::decimal::decimal;
use crate::error::Error;
use crate::failure::{interrupted, lemma_interrupted_steps, lemma_steps_append};
use crate::layout::{Element, State};
use crate::quote::quoted;
use crate::ser::Serializer;
use crate::sink::Sink;
use crate::value::frame::{
    lemma_elements_frame, lemma_elements_grow, lemma_emitted_frame, lemma_entries_frame,
    lemma_entries_grow, lemma_fields_frame, lemma_fields_grow,
};
use crate::value::nesting::{
    lemma_nesting_of_elements, lemma_nesting_of_entries, lemma_nesting_of_fields,
    nesting_of_elements, nesting_of_entries, nesting_of_fields,
};

pub mod frame;
pub mod nesting;

verus! {

broadcast use {
    crate::ser::map::lemma_map_resolved,
    crate::ser::sequence::lemma_seq_resolved,
    crate::ser::struct_::lemma_struct_resolved,
    crate::ser::struct_::lemma_struct_variant_resolved,
};

/// A value of one of the shapes that have a textual form.
#[derive(Debug)]
pub enum Value {
    /// The unit value, a struct without fields or name, an absent option:
    /// `null`.
    Null,
    /// `true` or `false`.
    Bool(bool),
    /// A signed integer, in decimal.
    Int(i64),
    /// An unsigned integer, in decimal.
    UInt(u64),
    /// One character, as it is.
    Char(char),
    /// A string, in single quotes where it needs them.
    Str(String),
    /// A scalar whose text was formatted elsewhere, such as a
    /// floating-point number.
    Literal(String),
    /// A sequence or a tuple: one `- element` per line.
    Sequence(Vec<Value>),
    /// A mapping: one `key: value` per line.
    Mapping(Vec<Entry>),
    /// A struct: one `name: value` per line.
    Struct(Vec<Field>),
    /// A variant without data, by its name.
    UnitVariant(String),
    /// A variant with one value, by its name.
    NewtypeVariant(String, Box<Value>),
    /// A variant with named fields, by its name.
    StructVariant(String, Vec<Field>),
}

/// An entry of a mapping.
#[derive(Debug)]
pub struct Entry {
    pub key: Value,
    pub value: Value,
}

/// A field of a struct or of a struct variant.
#[derive(Debug)]
pub struct Field {
    pub name: String,
    pub value: Value,
}

impl Value {
    /// How many scopes are open at once, at most, while the value is
    /// emitted.
    pub open spec fn nesting(&self) -> nat
        decreases self, 0nat,
    {
        match self {
            Value::Sequence(items) => nesting_of_elements(items@, items@.len()),
            Value::Mapping(entries) => nesting_of_entries(entries@, entries@.len()),
            Value::Struct(fields) => nesting_of_fields(fields@, fields@.len()),
            Value::NewtypeVariant(_, value) => 1 + value.nesting(),
            Value::StructVariant(_, fields) => 1 + nesting_of_fields(fields@, fields@.len()),
            _ => 0,
        }
    }

    /// The text of a scalar: a value that is emitted as one token.
    pub open spec fn scalar_text(&self) -> Option<Seq<char>> {
        match self {
            Value::Null => Some("null"@),
            Value::Bool(v) => Some(if *v { "true"@ } else { "false"@ }),
            Value::Int(v) => Some(decimal(*v as int)),
            Value::UInt(v) => Some(decimal(*v as int)),
            Value::Char(c) => Some(seq![*c]),
            Value::Str(s) => Some(quoted(s@)),
            Value::Literal(s) => Some(s@),
            Value::UnitVariant(variant) => Some(quoted(variant@)),
            _ => None,
        }
    }

    /// The state that emitting the value leads to from `st`.
    pub open spec fn emitted(&self, st: State) -> State
        decreases self, 0nat,
    {
        match self {
            Value::Sequence(items) => emitted_elements(items@, items@.len(), st).close(
                items@.len() == 0,
                "[]"@,
            ),
            Value::Mapping(entries) => emitted_entries(entries@, entries@.len(), st).close(
                entries@.len() == 0,
                "{}"@,
            ),
            Value::Struct(fields) => emitted_fields(fields@, fields@.len(), st).close(
                fields@.len() == 0,
                "{}"@,
            ),
            Value::NewtypeVariant(variant, value) => value.emitted(
                st.begin_field(true, variant@),
            ).leave(),
            Value::StructVariant(variant, fields) => emitted_fields(
                fields@,
                fields@.len(),
                st.begin_variant(variant@),
            ).close(fields@.len() == 0, "{}"@).leave(),
            _ => st.scalar(self.scalar_text().unwrap()),
        }
    }
}

/// The state after the first `n` elements of a sequence have been emitted
/// from `st`.
pub open spec fn emitted_elements(items: Seq<Value>, n: nat, st: State) -> State
    decreases items, n,
{
    if n == 0 || n > items.len() {
        st
    } else {
        let before = emitted_elements(items, (n - 1) as nat, st);
        items[n - 1].emitted(before.begin_element(n == 1)).leave()
    }
}

/// The state after the first `n` entries of a mapping have been emitted
/// from `st`.
pub open spec fn emitted_entries(entries: Seq<Entry>, n: nat, st: State) -> State
    decreases entries, n,
{
    if n == 0 || n > entries.len() {
        st
    } else {
        let before = emitted_entries(entries, (n - 1) as nat, st);
        let entry = entries[n - 1];
        entry.value.emitted(entry.key.emitted(before.begin_key(n == 1)).end_key()).leave()
    }
}

/// The state after the first `n` fields of a struct have been emitted from
/// `st`.
pub open spec fn emitted_fields(fields: Seq<Field>, n: nat, st: State) -> State
    decreases fields, n,
{
    if n == 0 || n > fields.len() {
        st
    } else {
        let before = emitted_fields(fields, (n - 1) as nat, st);
        let field = fields[n - 1];
        field.value.emitted(before.begin_field(n == 1, field.name@)).leave()
    }
}

impl Value {
    /// Emits the value through `serializer`, by the operation of its shape.
    pub fn serialize<W: Sink>(&self, serializer: &mut Serializer<W>) -> (r: Result<(), Error>)
        requires
            old(serializer)@.depth + self.nesting() <= usize::MAX,
        ensures
            old(serializer)@.reliable ==> r is Ok,
            r is Ok ==> final(serializer)@ == self.emitted(old(serializer)@),
            r is Err ==> r == Err::<(), Error>(Error::Write),
            r is Err ==> interrupted(
                old(serializer)@,
                final(serializer)@,
                self.emitted(old(serializer)@),
            ),
        decreases self, 0nat,
    {
        match self {
            Value::Null => serializer.serialize_none(),
            Value::Bool(v) => serializer.serialize_bool(*v),
            Value::Int(v) => serializer.serialize_i64(*v),
            Value::UInt(v) => serializer.serialize_u64(*v),
            Value::Char(c) => serializer.serialize_char(*c),
            Value::Str(s) => serializer.serialize_str(s.as_str()),
            Value::Literal(s) => serializer.serialize_literal(s.as_str()),
            Value::Sequence(items) => serialize_sequence(items, serializer),
            Value::Mapping(entries) => serialize_mapping(entries, serializer),
            Value::Struct(fields) => serialize_struct(fields, serializer),
            Value::UnitVariant(
                variant) => serializer.serialize_unit_variant("",
                0,
                variant.as_str(),
            ),
            Value::NewtypeVariant(variant, value) => serializer.serialize_newtype_variant(
                "",
                0,
                variant.as_str(),
                value,
            ),
            Value::StructVariant(variant, fields) => serialize_struct_variant(
                variant.as_str(),
                fields,
                serializer,
            ),
        }
    }
}

/// Emits a sequence: each element in turn, or `[]`.
fn serialize_sequence<W: Sink>(items: &Vec<Value>, serializer: &mut Serializer<W>) -> (r: Result<
    (),
    Error,
>)
    requires
        old(serializer)@.depth + nesting_of_elements(items@, items@.len()) <= usize::MAX,
    ensures
        old(serializer)@.reliable ==> r is Ok,
        r is Ok ==> final(serializer)@ == emitted_elements(
            items@,
            items@.len(),
            old(serializer)@,
        ).close(items@.len() == 0, "[]"@),
        r is Err ==> r == Err::<(), Error>(Error::Write),
        r is Err ==> interrupted(
            old(serializer)@,
            final(serializer)@,
            emitted_elements(
                items@,
                items@.len(),
                old(serializer)@).close(items@.len() == 0,
                "[]"@,
            ),
        ),
    decreases items, 0nat,
{
    let ghost st = serializer@;
    let mut seq = serializer.serialize_seq(Some(items.len()))?;
    let mut i: usize = 0;
    while i < items.len()
        invariant
            i <= items.len(),
            st == old(serializer)@,
            st.depth + nesting_of_elements(items@, items@.len()) <= usize::MAX,
            seq.target()@ == emitted_elements(items@, i as nat, st),
            seq.is_empty() == (i == 0),
            *final(seq.target()) == after_borrow(*serializer),
        decreases items.len() - i,
    {
        proof {
            lemma_elements_frame(items@, i as nat, st);
            lemma_nesting_of_elements(items@, items@.len(), i as int);
            lemma_elements_grow(items@, i as nat, (i + 1) as nat, st);
            lemma_elements_grow(items@, (i + 1) as nat, items@.len(), st);
            lemma_steps_append(
                emitted_elements(items@, items@.len(), st),
                Element::Literal,
                "[]"@,
                false,
            );
            lemma_interrupted_steps(
                st,
                emitted_elements(items@, i as nat, st),
                emitted_elements(items@, (i + 1) as nat, st),
                emitted_elements(items@, items@.len(), st),
                emitted_elements(items@, items@.len(), st).close(items@.len() == 0, "[]"@),
            );
        }
        seq.serialize_element(&items[i])?;
        i += 1;
    }
    proof {
        lemma_elements_frame(items@, items@.len(), st);
        lemma_steps_append(
            emitted_elements(items@, items@.len(), st),
            Element::Literal,
            "[]"@,
            true,
        );
        lemma_interrupted_steps(
            st,
            st,
            st,
            emitted_elements(items@, items@.len(), st),
            emitted_elements(items@, items@.len(), st).close(items@.len() == 0, "[]"@),
        );
    }
    seq.end()
}

/// Emits a mapping: each entry in turn, or `{}`.
fn serialize_mapping<W: Sink>(entries: &Vec<Entry>, serializer: &mut Serializer<W>) -> (r: Result<
    (),
    Error,
>)
    requires
        old(serializer)@.depth + nesting_of_entries(entries@, entries@.len()) <= usize::MAX,
    ensures
        old(serializer)@.reliable ==> r is Ok,
        r is Ok ==> final(serializer)@ == emitted_entries(
            entries@,
            entries@.len(),
            old(serializer)@,
        ).close(entries@.len() == 0, "{}"@),
        r is Err ==> r == Err::<(), Error>(Error::Write),
        r is Err ==> interrupted(
            old(serializer)@,
            final(serializer)@,
            emitted_entries(entries@, entries@.len(), old(serializer)@).close(
                entries@.len() == 0,
                "{}"@,
            ),
        ),
    decreases entries, 0nat,
{
    let ghost st = serializer@;
    let mut map = serializer.serialize_map(Some(entries.len()))?;
    let mut i: usize = 0;
    while i < entries.len()
        invariant
            i <= entries.len(),
            st == old(serializer)@,
            st.depth + nesting_of_entries(entries@, entries@.len()) <= usize::MAX,
            map.target()@ == emitted_entries(entries@, i as nat, st),
            map.is_empty() == (i == 0),
            *final(map.target()) == after_borrow(*serializer),
        decreases entries.len() - i,
    {
        let ghost before = emitted_entries(entries@, i as nat, st);
        let ghost keyed = entries@[i as int].key.emitted(before.begin_key(i == 0)).end_key();
        let ghost whole = emitted_entries(entries@, entries@.len(), st);
        proof {
            lemma_entries_frame(entries@, i as nat, st);
            lemma_nesting_of_entries(entries@, entries@.len(), i as int);
            lemma_emitted_frame(entries@[i as int].key, before.begin_key(i == 0));
            lemma_emitted_frame(entries@[i as int].value, keyed);
            lemma_steps_append(before, Element::PreMappingKey, seq![':'], i == 0);
            lemma_steps_append(
                entries@[i as int].key.emitted(before.begin_key(i == 0)),
                Element::PreMappingKey,
                seq![':'],
                true,
            );
            lemma_entries_grow(entries@, (i + 1) as nat, entries@.len(), st);
            lemma_steps_append(whole, Element::Literal, "{}"@, false);
            lemma_interrupted_steps(
                before,
                before.begin_key(i == 0),
                entries@[i as int].key.emitted(before.begin_key(i == 0)),
                keyed,
                keyed,
            );
            lemma_interrupted_steps(
                st,
                before,
                keyed,
                emitted_entries(entries@, (i + 1) as nat, st),
                whole.close(entries@.len() == 0, "{}"@),
            );
            lemma_interrupted_steps(
                emitted_entries(entries@, (i + 1) as nat, st),
                whole,
                whole,
                whole,
                whole.close(entries@.len() == 0, "{}"@),
            );
        }
        map.serialize_key(&entries[i].key)?;
        map.serialize_value(&entries[i].value)?;
        i += 1;
    }
    proof {
        lemma_entries_frame(entries@, entries@.len(), st);
        lemma_steps_append(
            emitted_entries(entries@, entries@.len(), st),
            Element::Literal,
            "{}"@,
            true,
        );
        lemma_interrupted_steps(
            st,
            st,
            st,
            emitted_entries(entries@, entries@.len(), st),
            emitted_entries(entries@, entries@.len(), st).close(entries@.len() == 0, "{}"@),
        );
    }
    map.end()
}

/// Emits a struct: each field in turn, or `{}`.
fn serialize_struct<W: Sink>(fields: &Vec<Field>, serializer: &mut Serializer<W>) -> (r: Result<
    (),
    Error,
>)
    requires
        old(serializer)@.depth + nesting_of_fields(fields@, fields@.len()) <= usize::MAX,
    ensures
        old(serializer)@.reliable ==> r is Ok,
        r is Ok ==> final(serializer)@ == emitted_fields(
            fields@,
            fields@.len(),
            old(serializer)@,
        ).close(fields@.len() == 0, "{}"@),
        r is Err ==> r == Err::<(), Error>(Error::Write),
        r is Err ==> interrupted(
            old(serializer)@,
            final(serializer)@,
            emitted_fields(
                fields@,
                fields@.len(),
                old(serializer)@).close(fields@.len() == 0,
                "{}"@,
            ),
        ),
    decreases fields, 0nat,
{
    let ghost st = serializer@;
    let mut s = serializer.serialize_struct("", fields.len())?;
    let mut i: usize = 0;
    while i < fields.len()
        invariant
            i <= fields.len(),
            st == old(serializer)@,
            st.depth + nesting_of_fields(fields@, fields@.len()) <= usize::MAX,
            s.target()@ == emitted_fields(fields@, i as nat, st),
            s.is_empty() == (i == 0),
            *final(s.target()) == after_borrow(*serializer),
        decreases fields.len() - i,
    {
        proof {
            lemma_fields_frame(fields@, i as nat, st);
            lemma_nesting_of_fields(fields@, fields@.len(), i as int);
            lemma_fields_grow(fields@, i as nat, (i + 1) as nat, st);
            lemma_fields_grow(fields@, (i + 1) as nat, fields@.len(), st);
            lemma_steps_append(
                emitted_fields(fields@, fields@.len(), st),
                Element::Literal,
                "{}"@,
                false,
            );
            lemma_interrupted_steps(
                st,
                emitted_fields(fields@, i as nat, st),
                emitted_fields(fields@, (i + 1) as nat, st),
                emitted_fields(fields@, fields@.len(), st),
                emitted_fields(fields@, fields@.len(), st).close(fields@.len() == 0, "{}"@),
            );
        }
        s.serialize_field(fields[i].name.as_str(), &fields[i].value)?;
        i += 1;
    }
    proof {
        lemma_fields_frame(fields@, fields@.len(), st);
        lemma_steps_append(
            emitted_fields(fields@, fields@.len(), st),
            Element::Literal,
            "{}"@,
            true,
        );
        lemma_interrupted_steps(
            st,
            st,
            st,
            emitted_fields(fields@, fields@.len(), st),
            emitted_fields(fields@, fields@.len(), st).close(fields@.len() == 0, "{}"@),
        );
    }
    s.end()
}

/// Emits a struct variant: its name, then each field in turn one level
/// down, or `{}`.
fn serialize_struct_variant<W: Sink>(
    variant: &str,
    fields: &Vec<Field>,
    serializer: &mut Serializer<W>,
) -> (r: Result<(), Error>)
    requires
        old(serializer)@.depth + 1 + nesting_of_fields(fields@, fields@.len()) <= usize::MAX,
    ensures
        old(serializer)@.reliable ==> r is Ok,
        r is Ok ==> final(serializer)@ == emitted_fields(
            fields@,
            fields@.len(),
            old(serializer)@.begin_variant(variant@),
        ).close(fields@.len() == 0, "{}"@).leave(),
        r is Err ==> r == Err::<(), Error>(Error::Write),
        r is Err ==> interrupted(
            old(serializer)@,
            final(serializer)@,
            emitted_fields(fields@, fields@.len(), old(serializer)@.begin_variant(variant@)).close(
                fields@.len() == 0,
                "{}"@,
            ).leave(),
        ),
    decreases fields, 0nat,
{
    let ghost st = serializer@.begin_variant(variant@);
    proof {
        lemma_fields_frame(fields@, fields@.len(), st);
        lemma_steps_append(
            emitted_fields(fields@, fields@.len(), st),
            Element::Literal,
            "{}"@,
            true,
        );
        lemma_steps_append(serializer@, Element::MappingKey, variant@, true);
        lemma_interrupted_steps(
            serializer@,
            serializer@,
            st,
            emitted_fields(fields@, fields@.len(), st),
            emitted_fields(fields@, fields@.len(), st).close(fields@.len() == 0, "{}"@).leave(),
        );
    }
    let mut s = serializer.serialize_struct_variant("", 0, variant, fields.len())?;
    let mut i: usize = 0;
    while i < fields.len()
        invariant
            i <= fields.len(),
            st == old(serializer)@.begin_variant(variant@),
            st.depth + nesting_of_fields(fields@, fields@.len()) <= usize::MAX,
            s.target()@ == emitted_fields(fields@, i as nat, st),
            s.is_empty() == (i == 0),
            *final(s.target()) == after_borrow(*serializer),
        decreases fields.len() - i,
    {
        proof {
            lemma_fields_frame(fields@, i as nat, st);
            lemma_nesting_of_fields(fields@, fields@.len(), i as int);
            lemma_fields_grow(fields@, i as nat, (i + 1) as nat, st);
            lemma_fields_grow(fields@, (i + 1) as nat, fields@.len(), st);
            lemma_steps_append(
                emitted_fields(fields@, fields@.len(), st),
                Element::Literal,
                "{}"@,
                false,
            );
            lemma_steps_append(old(serializer)@, Element::MappingKey, variant@, true);
            lemma_interrupted_steps(
                st,
                emitted_fields(fields@, i as nat, st),
                emitted_fields(fields@, (i + 1) as nat, st),
                emitted_fields(fields@, fields@.len(), st),
                emitted_fields(fields@, fields@.len(), st).close(fields@.len() == 0, "{}"@),
            );
            lemma_interrupted_steps(
                old(serializer)@,
                st,
                st,
                st,
                emitted_fields(fields@, fields@.len(), st).close(fields@.len() == 0, "{}"@),
            );
        }
        s.serialize_field(fields[i].name.as_str(), &fields[i].value)?;
        i += 1;
    }
    proof {
        lemma_fields_frame(fields@, fields@.len(), st);
        lemma_steps_append(
            emitted_fields(fields@, fields@.len(), st),
            Element::Literal,
            "{}"@,
            true,
        );
        lemma_steps_append(old(serializer)@, Element::MappingKey, variant@, true);
        lemma_interrupted_steps(
            old(serializer)@,
            st,
            st,
            emitted_fields(fields@, fields@.len(), st),
            emitted_fields(fields@, fields@.len(), st).close(fields@.len() == 0, "{}"@),
        );
    }
    s.end()
}

/// Emits `value` as a whole document into `w`, and gives `w` back with the
/// text in it. A sink that fails is given up, with whatever it took.
pub fn to_fmt<W: Sink>(w: W, value: &Value) -> (r: Result<W, Error>)
    requires
        value.nesting() <= usize::MAX,
    ensures
        w.reliable() ==> r is Ok,
        r is Ok ==> r->Ok_0.text() == value.emitted(
            State::initial(w.text(), w.reliable()),
        ).text,
        r is Ok ==> r->Ok_0.reliable() == w.reliable(),
        r is Err ==> r->Err_0 == Error::Write,
{
    let mut serializer = Serializer::new(w);
    match value.serialize(&mut serializer) {
        Ok(()) => {
            proof {
                lemma_emitted_frame(*value, State::initial(w.text(), w.reliable()));
            }
            Ok(serializer.into_inner())
        },
        Err(e) => Err(e),
    }
}

/// The text of `value` as a whole document.
pub fn to_string(value: &Value) -> (text: String)
    requires
        value.nesting() <= usize::MAX,
    ensures
        text@ == value.emitted(State::initial(Seq::empty(), true)).text,
{
    match to_fmt(String::new(), value) {
        Ok(text) => text,
        Err(_) => String::new(),
    }
}

} // verus!
