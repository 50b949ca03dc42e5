//! Mappings.

use vstd::prelude::*;
use vstd::string::*;

use crate::error::Error;
use crate::failure::{interrupted, lemma_interrupted_steps, lemma_steps_append};
use crate::layout::Element;
use crate::ser::Serializer;
use crate::sink::Sink;
use crate::value::frame::lemma_emitted_frame;
use crate::value::Value;

verus! {

/// An open mapping: one `key: value` per line, and `{}` if it stays empty.
/// A key may be any value; one that is a scalar stands on the line of its
/// value.
pub struct SerializeMap<'a, W: Sink> {
    serializer: &'a mut Serializer<W>,
    empty: bool,
}

/// A mapping that is let go of leaves the emitter as it is.
pub broadcast proof fn lemma_map_resolved<'a, W: Sink>(map: SerializeMap<'a, W>)
    ensures
        #[trigger] has_resolved(map) ==> *final(map.target()) == *map.target(),
{
}

impl<'a, W: Sink> SerializeMap<'a, W> {
    /// The emitter that the mapping is written through.
    pub closed spec fn target(self) -> &'a mut Serializer<W> {
        self.serializer
    }

    /// Whether no entry has been started yet.
    pub closed spec fn is_empty(self) -> bool {
        self.empty
    }

    /// Opens a mapping on `serializer`. Nothing is written yet.
    pub fn new(serializer: &'a mut Serializer<W>) -> (r: Self)
        ensures
            *r.target() == *old(serializer),
            *final(r.target()) == *final(serializer),
            r.is_empty(),
    {
        SerializeMap { serializer, empty: true }
    }

    /// The emitter, for a key's or a value's own text.
    pub fn serializer(&mut self) -> (r: &mut Serializer<W>)
        ensures
            *r == *old(self).target(),
            *final(self).target() == *final(r),
            *final(final(self).target()) == *final(old(self).target()),
            final(self).is_empty() == old(self).is_empty(),
    {
        &mut *self.serializer
    }

    /// Starts an entry: a line of its own unless it is the first, and the
    /// announcement of a key. The key comes next.
    pub fn begin_key(&mut self) -> (r: Result<(), Error>)
        ensures
            old(self).target()@.reliable ==> r is Ok,
            r is Ok ==> final(self).target()@ == old(self).target()@.begin_key(
                old(self).is_empty(),
            ),
            r is Ok ==> !final(self).is_empty(),
            r is Err ==> r == Err::<(), Error>(Error::Write),
            r is Err ==> interrupted(
                old(self).target()@,
                final(self).target()@,
                old(self).target()@.begin_key(old(self).is_empty()),
            ),
            *final(final(self).target()) == *final(old(self).target()),
    {
        let ghost st = self.serializer@;
        let ghost member = st.next_member(self.empty);
        let ghost target = st.begin_key(self.empty);
        proof {
            lemma_steps_append(st, Element::PreMappingKey, seq![':'], self.empty);
            lemma_steps_append(member, Element::PreMappingKey, seq![':'], true);
            lemma_interrupted_steps(st, member, target, target, target);
        }
        if !self.empty {
            self.serializer.char('\n')?;
        }
        self.empty = false;
        self.serializer.indent(Element::PreMappingKey)
    }

    /// Ends the key: the entry's scope is entered and the colon written.
    /// The value comes next.
    pub fn end_key(&mut self) -> (r: Result<(), Error>)
        requires
            old(self).target()@.depth < usize::MAX,
        ensures
            old(self).target()@.reliable ==> r is Ok,
            r is Ok ==> final(self).target()@ == old(self).target()@.end_key(),
            r is Err ==> r == Err::<(), Error>(Error::Write),
            r is Err ==> final(self).target()@ == old(self).target()@.enter(),
            final(self).is_empty() == old(self).is_empty(),
            *final(final(self).target()) == *final(old(self).target()),
    {
        self.serializer.push();
        proof {
            reveal_strlit(":");
            assert(":"@ =~= seq![':']);
        }
        self.serializer.str(":")
    }

    /// Ends the value, and with it the entry: its scope is left.
    pub fn end_value(&mut self)
        requires
            old(self).target()@.depth > 0,
        ensures
            final(self).target()@ == old(self).target()@.leave(),
            final(self).is_empty() == old(self).is_empty(),
            *final(final(self).target()) == *final(old(self).target()),
    {
        self.serializer.pop();
    }

    /// Emits the key of an entry: its start, the key at the level of the
    /// mapping, and its end.
    pub fn serialize_key(&mut self, key: &Value) -> (r: Result<(), Error>)
        requires
            old(self).target()@.depth + key.nesting() <= usize::MAX,
            old(self).target()@.depth < usize::MAX,
        ensures
            old(self).target()@.reliable ==> r is Ok,
            r is Ok ==> final(self).target()@ == key.emitted(
                old(self).target()@.begin_key(old(self).is_empty()),
            ).end_key(),
            r is Ok ==> !final(self).is_empty(),
            r is Err ==> r == Err::<(), Error>(Error::Write),
            r is Err ==> interrupted(
                old(self).target()@,
                final(self).target()@,
                key.emitted(old(self).target()@.begin_key(old(self).is_empty())).end_key(),
            ),
            *final(final(self).target()) == *final(old(self).target()),
        decreases key, 1nat,
    {
        let ghost st = self.serializer@;
        let ghost begun = st.begin_key(self.empty);
        let ghost target = key.emitted(begun).end_key();
        proof {
            lemma_emitted_frame(*key, begun);
            lemma_steps_append(st, Element::PreMappingKey, seq![':'], self.empty);
            lemma_steps_append(key.emitted(begun), Element::PreMappingKey, seq![':'], true);
            lemma_interrupted_steps(
                st,
                begun,
                key.emitted(begun),
                key.emitted(begun).enter(),
                target,
            );
        }
        self.begin_key()?;
        key.serialize(&mut *self.serializer)?;
        self.end_key()
    }

    /// Emits the value of an entry, one level down, and ends the entry.
    pub fn serialize_value(&mut self, value: &Value) -> (r: Result<(), Error>)
        requires
            old(self).target()@.depth + value.nesting() <= usize::MAX,
            old(self).target()@.depth > 0,
        ensures
            old(self).target()@.reliable ==> r is Ok,
            r is Ok ==> final(self).target()@ == value.emitted(old(self).target()@).leave(),
            r is Ok ==> final(self).is_empty() == old(self).is_empty(),
            r is Err ==> r == Err::<(), Error>(Error::Write),
            r is Err ==> interrupted(
                old(self).target()@,
                final(self).target()@,
                value.emitted(old(self).target()@).leave(),
            ),
            *final(final(self).target()) == *final(old(self).target()),
        decreases value, 1nat,
    {
        let ghost st = self.serializer@;
        proof {
            lemma_emitted_frame(*value, st);
            lemma_interrupted_steps(
                st,
                st,
                value.emitted(st),
                value.emitted(st).leave(),
                value.emitted(st).leave(),
            );
        }
        value.serialize(&mut *self.serializer)?;
        self.end_value();
        Ok(())
    }

    /// Closes the mapping: `{}` if no entry was ever started.
    pub fn end(self) -> (r: Result<(), Error>)
        ensures
            self.target()@.reliable ==> r is Ok,
            r is Ok ==> final(self.target())@ == self.target()@.close(self.is_empty(), "{}"@),
            r is Err ==> r == Err::<(), Error>(Error::Write),
            r is Err ==> final(self.target())@ == self.target()@,
    {
        if self.empty {
            self.serializer.str("{}")?;
        }
        Ok(())
    }
}

} // verus!
