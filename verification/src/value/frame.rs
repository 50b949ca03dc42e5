//! Emitting a value only appends text, and ends at the depth at which it
//! began.

use vstd::prelude::*;

use crate::failure::{extends, lemma_interrupted_steps, lemma_prefix_chain, lemma_steps_append};
use crate::layout::{Element, State};
use crate::value::{emitted_elements, emitted_entries, emitted_fields, Entry, Field, Value};

verus! {

/// Emitting a value only appends text, and leaves the emitter at the depth
/// at which it began: every scope that is entered is left again.
pub proof fn lemma_emitted_frame(value: Value, st: State)
    ensures
        value.emitted(st).depth == st.depth,
        value.emitted(st).reliable == st.reliable,
        st.text.is_prefix_of(value.emitted(st).text),
    decreases value, 0nat,
{
    match value {
        Value::Sequence(items) => {
            lemma_elements_frame(items@, items@.len(), st);
        },
        Value::Mapping(entries) => {
            lemma_entries_frame(entries@, entries@.len(), st);
        },
        Value::Struct(fields) => {
            lemma_fields_frame(fields@, fields@.len(), st);
        },
        Value::NewtypeVariant(variant, inner) => {
            lemma_emitted_frame(*inner, st.begin_field(true, variant@));
        },
        Value::StructVariant(variant, fields) => {
            lemma_fields_frame(fields@, fields@.len(), st.begin_variant(variant@));
        },
        _ => {},
    }
}

/// The elements of a sequence only append text, and leave the depth as it
/// was.
pub proof fn lemma_elements_frame(items: Seq<Value>, n: nat, st: State)
    ensures
        emitted_elements(items, n, st).depth == st.depth,
        emitted_elements(items, n, st).reliable == st.reliable,
        st.text.is_prefix_of(emitted_elements(items, n, st).text),
    decreases items, n,
{
    if n == 0 || n > items.len() {
    } else {
        let before = emitted_elements(items, (n - 1) as nat, st);
        lemma_elements_frame(items, (n - 1) as nat, st);
        lemma_emitted_frame(items[n - 1], before.begin_element(n == 1));
    }
}

/// The entries of a mapping only append text, and leave the depth as it
/// was.
pub proof fn lemma_entries_frame(entries: Seq<Entry>, n: nat, st: State)
    ensures
        emitted_entries(entries, n, st).depth == st.depth,
        emitted_entries(entries, n, st).reliable == st.reliable,
        st.text.is_prefix_of(emitted_entries(entries, n, st).text),
    decreases entries, n,
{
    if n == 0 || n > entries.len() {
    } else {
        let before = emitted_entries(entries, (n - 1) as nat, st);
        let entry = entries[n - 1];
        lemma_entries_frame(entries, (n - 1) as nat, st);
        let key_at = before.begin_key(n == 1);
        let value_at = entry.key.emitted(key_at).end_key();
        lemma_emitted_frame(entry.key, key_at);
        lemma_emitted_frame(entry.value, value_at);
        lemma_prefix_chain(st.text, before.text, key_at.text);
        lemma_prefix_chain(st.text, key_at.text, value_at.text);
        lemma_prefix_chain(st.text, value_at.text, entry.value.emitted(value_at).text);
    }
}

/// The fields of a struct only append text, and leave the depth as it was.
pub proof fn lemma_fields_frame(fields: Seq<Field>, n: nat, st: State)
    ensures
        emitted_fields(fields, n, st).depth == st.depth,
        emitted_fields(fields, n, st).reliable == st.reliable,
        st.text.is_prefix_of(emitted_fields(fields, n, st).text),
    decreases fields, n,
{
    if n == 0 || n > fields.len() {
    } else {
        let before = emitted_fields(fields, (n - 1) as nat, st);
        let field = fields[n - 1];
        lemma_fields_frame(fields, (n - 1) as nat, st);
        lemma_emitted_frame(field.value, before.begin_field(n == 1, field.name@));
    }
}

/// The more elements of a sequence are emitted, the more text there is.
pub proof fn lemma_elements_grow(items: Seq<Value>, m: nat, n: nat, st: State)
    requires
        m <= n <= items.len(),
    ensures
        extends(emitted_elements(items, m, st), emitted_elements(items, n, st)),
    decreases n,
{
    if m < n {
        let before = emitted_elements(items, (n - 1) as nat, st);
        let begun = before.begin_element(n == 1);
        lemma_elements_grow(items, m, (n - 1) as nat, st);
        lemma_steps_append(before, Element::SequenceEntry, seq!['-'], n == 1);
        lemma_emitted_frame(items[n - 1], begun);
        lemma_interrupted_steps(
            emitted_elements(items, m, st),
            before,
            begun,
            items[n - 1].emitted(begun),
            emitted_elements(items, n, st),
        );
    }
}

/// The more entries of a mapping are emitted, the more text there is.
pub proof fn lemma_entries_grow(entries: Seq<Entry>, m: nat, n: nat, st: State)
    requires
        m <= n <= entries.len(),
    ensures
        extends(emitted_entries(entries, m, st), emitted_entries(entries, n, st)),
    decreases n,
{
    if m < n {
        let before = emitted_entries(entries, (n - 1) as nat, st);
        let begun = before.begin_key(n == 1);
        let keyed = entries[n - 1].key.emitted(begun).end_key();
        lemma_entries_grow(entries, m, (n - 1) as nat, st);
        lemma_steps_append(before, Element::PreMappingKey, seq![':'], n == 1);
        lemma_emitted_frame(entries[n - 1].key, begun);
        lemma_steps_append(
            entries[n - 1].key.emitted(begun),
            Element::PreMappingKey,
            seq![':'],
            true,
        );
        lemma_emitted_frame(entries[n - 1].value, keyed);
        lemma_interrupted_steps(
            before,
            begun,
            entries[n - 1].key.emitted(begun),
            keyed,
            emitted_entries(entries, n, st),
        );
        lemma_interrupted_steps(
            emitted_entries(entries, m, st),
            before,
            before,
            before,
            emitted_entries(entries, n, st),
        );
    }
}

/// The more fields of a struct are emitted, the more text there is.
pub proof fn lemma_fields_grow(fields: Seq<Field>, m: nat, n: nat, st: State)
    requires
        m <= n <= fields.len(),
    ensures
        extends(emitted_fields(fields, m, st), emitted_fields(fields, n, st)),
    decreases n,
{
    if m < n {
        let before = emitted_fields(fields, (n - 1) as nat, st);
        let begun = before.begin_field(n == 1, fields[n - 1].name@);
        lemma_fields_grow(fields, m, (n - 1) as nat, st);
        lemma_steps_append(before, Element::MappingKey, fields[n - 1].name@, n == 1);
        lemma_emitted_frame(fields[n - 1].value, begun);
        lemma_interrupted_steps(
            emitted_fields(fields, m, st),
            before,
            begun,
            fields[n - 1].value.emitted(begun),
            emitted_fields(fields, n, st),
        );
    }
}

} // verus!
