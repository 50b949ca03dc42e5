//! How deep a value nests.

use vstd::prelude::*;

use crate::value::{Entry, Field, Value};

verus! {

/// The deepest nesting among the first `n` elements, each one level down.
pub open spec fn nesting_of_elements(items: Seq<Value>, n: nat) -> nat
    decreases items, n,
{
    if n == 0 || n > items.len() {
        0
    } else {
        let rest = nesting_of_elements(items, (n - 1) as nat);
        let last = 1 + items[n - 1].nesting();
        if rest < last {
            last
        } else {
            rest
        }
    }
}

/// The deepest nesting among the first `n` entries. A key is emitted at the
/// level of the mapping, a value one level down.
pub open spec fn nesting_of_entries(entries: Seq<Entry>, n: nat) -> nat
    decreases entries, n,
{
    if n == 0 || n > entries.len() {
        0
    } else {
        let rest = nesting_of_entries(entries, (n - 1) as nat);
        let key = entries[n - 1].key.nesting();
        let value = 1 + entries[n - 1].value.nesting();
        let last = if key < value {
            value
        } else {
            key
        };
        if rest < last {
            last
        } else {
            rest
        }
    }
}

/// The deepest nesting among the first `n` fields, each one level down.
pub open spec fn nesting_of_fields(fields: Seq<Field>, n: nat) -> nat
    decreases fields, n,
{
    if n == 0 || n > fields.len() {
        0
    } else {
        let rest = nesting_of_fields(fields, (n - 1) as nat);
        let last = 1 + fields[n - 1].value.nesting();
        if rest < last {
            last
        } else {
            rest
        }
    }
}

/// An element counts towards the nesting of its sequence.
pub proof fn lemma_nesting_of_elements(items: Seq<Value>, n: nat, i: int)
    requires
        0 <= i < n <= items.len(),
    ensures
        1 + items[i].nesting() <= nesting_of_elements(items, n),
    decreases n,
{
    if i < n - 1 {
        lemma_nesting_of_elements(items, (n - 1) as nat, i);
    }
}

/// The key and the value of an entry count towards the nesting of their
/// mapping.
pub proof fn lemma_nesting_of_entries(entries: Seq<Entry>, n: nat, i: int)
    requires
        0 <= i < n <= entries.len(),
    ensures
        entries[i].key.nesting() <= nesting_of_entries(entries, n),
        1 + entries[i].value.nesting() <= nesting_of_entries(entries, n),
    decreases n,
{
    if i < n - 1 {
        lemma_nesting_of_entries(entries, (n - 1) as nat, i);
    }
}

/// A field counts towards the nesting of its struct.
pub proof fn lemma_nesting_of_fields(fields: Seq<Field>, n: nat, i: int)
    requires
        0 <= i < n <= fields.len(),
    ensures
        1 + fields[i].value.nesting() <= nesting_of_fields(fields, n),
    decreases n,
{
    if i < n - 1 {
        lemma_nesting_of_fields(fields, (n - 1) as nat, i);
    }
}

impl Value {
    /// Whether the value nests no deeper than `limit`: the test to make of
    /// a value of unknown depth before it is emitted `usize::MAX - limit`
    /// levels down.
    pub fn nests_within(&self, limit: usize) -> (b: bool)
        ensures
            b == (self.nesting() <= limit),
        decreases self, 0nat,
    {
        match self {
            Value::Sequence(items) => elements_nest_within(items, limit),
            Value::Mapping(entries) => entries_nest_within(entries, limit),
            Value::Struct(fields) => fields_nest_within(fields, limit),
            Value::NewtypeVariant(_, value) => limit >= 1 && value.nests_within(limit - 1),
            Value::StructVariant(_, fields) => limit >= 1 && fields_nest_within(fields, limit - 1),
            _ => true,
        }
    }
}

/// Whether the elements of a sequence nest no deeper than `limit`.
fn elements_nest_within(items: &Vec<Value>, limit: usize) -> (b: bool)
    ensures
        b == (nesting_of_elements(items@, items@.len()) <= limit),
    decreases items, 0nat,
{
    let mut i: usize = 0;
    while i < items.len()
        invariant
            i <= items.len(),
            nesting_of_elements(items@, i as nat) <= limit,
        decreases items.len() - i,
    {
        if limit == 0 || !items[i].nests_within(limit - 1) {
            proof {
                lemma_nesting_of_elements(items@, items@.len(), i as int);
            }
            return false;
        }
        i += 1;
    }
    true
}

/// Whether the entries of a mapping nest no deeper than `limit`.
fn entries_nest_within(entries: &Vec<Entry>, limit: usize) -> (b: bool)
    ensures
        b == (nesting_of_entries(entries@, entries@.len()) <= limit),
    decreases entries, 0nat,
{
    let mut i: usize = 0;
    while i < entries.len()
        invariant
            i <= entries.len(),
            nesting_of_entries(entries@, i as nat) <= limit,
        decreases entries.len() - i,
    {
        if limit == 0 || !entries[i].key.nests_within(limit) || !entries[i].value.nests_within(
            limit - 1,
        ) {
            proof {
                lemma_nesting_of_entries(entries@, entries@.len(), i as int);
            }
            return false;
        }
        i += 1;
    }
    true
}

/// Whether the fields of a struct nest no deeper than `limit`.
fn fields_nest_within(fields: &Vec<Field>, limit: usize) -> (b: bool)
    ensures
        b == (nesting_of_fields(fields@, fields@.len()) <= limit),
    decreases fields, 0nat,
{
    let mut i: usize = 0;
    while i < fields.len()
        invariant
            i <= fields.len(),
            nesting_of_fields(fields@, i as nat) <= limit,
        decreases fields.len() - i,
    {
        if limit == 0 || !fields[i].value.nests_within(limit - 1) {
            proof {
                lemma_nesting_of_fields(fields@, fields@.len(), i as int);
            }
            return false;
        }
        i += 1;
    }
    true
}

} // verus!
