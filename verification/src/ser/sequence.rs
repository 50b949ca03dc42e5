//! Sequences.

use vstd::prelude::*;
use vstd::string::*;

use crate::error::Error;
use crate::failure::{interrupted, lemma_interrupted_steps, lemma_steps_append};
use crate::layout::Element;
use crate::ser::Serializer;
use crate::sink::Sink;
use crate::value::frame::lemma_emitted_frame;
use crate::value::Value;

verus! {

/// An open sequence: one `- element` per line, and `[]` if it stays empty.
pub struct SerializeSeq<'a, W: Sink> {
    serializer: &'a mut Serializer<W>,
    empty: bool,
}

/// A sequence that is let go of leaves the emitter as it is.
pub broadcast proof fn lemma_seq_resolved<'a, W: Sink>(seq: SerializeSeq<'a, W>)
    ensures
        #[trigger] has_resolved(seq) ==> *final(seq.target()) == *seq.target(),
{
}

impl<'a, W: Sink> SerializeSeq<'a, W> {
    /// The emitter that the sequence is written through.
    pub closed spec fn target(self) -> &'a mut Serializer<W> {
        self.serializer
    }

    /// Whether no element has been started yet.
    pub closed spec fn is_empty(self) -> bool {
        self.empty
    }

    /// Opens a sequence on `serializer`. Nothing is written yet.
    pub fn new(serializer: &'a mut Serializer<W>) -> (r: Self)
        ensures
            *r.target() == *old(serializer),
            *final(r.target()) == *final(serializer),
            r.is_empty(),
    {
        SerializeSeq { serializer, empty: true }
    }

    /// The emitter, for the element's own value.
    pub fn serializer(&mut self) -> (r: &mut Serializer<W>)
        ensures
            *r == *old(self).target(),
            *final(self).target() == *final(r),
            *final(final(self).target()) == *final(old(self).target()),
            final(self).is_empty() == old(self).is_empty(),
    {
        &mut *self.serializer
    }

    /// Starts an element: a line of its own unless it is the first, the
    /// dash, and the element's scope. The element's value comes next.
    pub fn begin_element(&mut self) -> (r: Result<(), Error>)
        requires
            old(self).target()@.depth < usize::MAX,
        ensures
            old(self).target()@.reliable ==> r is Ok,
            r is Ok ==> final(self).target()@ == old(self).target()@.begin_element(
                old(self).is_empty(),
            ),
            r is Ok ==> !final(self).is_empty(),
            r is Err ==> r == Err::<(), Error>(Error::Write),
            r is Err ==> interrupted(
                old(self).target()@,
                final(self).target()@,
                old(self).target()@.begin_element(old(self).is_empty()),
            ),
            *final(final(self).target()) == *final(old(self).target()),
    {
        let ghost st = self.serializer@;
        let ghost member = st.next_member(self.empty);
        let ghost dash = member.indent(Element::SequenceEntry);
        let ghost target = st.begin_element(self.empty);
        proof {
            lemma_steps_append(st, Element::SequenceEntry, seq!['-'], self.empty);
            lemma_steps_append(member, Element::SequenceEntry, seq!['-'], true);
            lemma_steps_append(dash, Element::SequenceEntry, seq!['-'], true);
            lemma_interrupted_steps(st, member, dash, dash.write(seq!['-']), target);
            reveal_strlit("-");
            assert("-"@ =~= seq!['-']);
        }
        if !self.empty {
            self.serializer.char('\n')?;
        }
        self.empty = false;
        self.serializer.indent(Element::SequenceEntry)?;
        self.serializer.str("-")?;
        self.serializer.push();
        Ok(())
    }

    /// Ends an element: its scope is left.
    pub fn end_element(&mut self)
        requires
            old(self).target()@.depth > 0,
        ensures
            final(self).target()@ == old(self).target()@.leave(),
            final(self).is_empty() == old(self).is_empty(),
            *final(final(self).target()) == *final(old(self).target()),
    {
        self.serializer.pop();
    }

    /// Emits one element: its start, the value one level down, and its
    /// end.
    pub fn serialize_element(&mut self, value: &Value) -> (r: Result<(), Error>)
        requires
            old(self).target()@.depth + 1 + value.nesting() <= usize::MAX,
        ensures
            old(self).target()@.reliable ==> r is Ok,
            r is Ok ==> final(self).target()@ == value.emitted(
                old(self).target()@.begin_element(old(self).is_empty()),
            ).leave(),
            r is Ok ==> !final(self).is_empty(),
            r is Err ==> r == Err::<(), Error>(Error::Write),
            r is Err ==> interrupted(
                old(self).target()@,
                final(self).target()@,
                value.emitted(old(self).target()@.begin_element(old(self).is_empty())).leave(),
            ),
            *final(final(self).target()) == *final(old(self).target()),
        decreases value, 1nat,
    {
        let ghost st = self.serializer@;
        let ghost begun = st.begin_element(self.empty);
        let ghost target = value.emitted(begun).leave();
        proof {
            lemma_emitted_frame(*value, begun);
            lemma_steps_append(st, Element::SequenceEntry, seq!['-'], self.empty);
            lemma_interrupted_steps(st, begun, value.emitted(begun), target, target);
        }
        self.begin_element()?;
        value.serialize(&mut *self.serializer)?;
        self.end_element();
        Ok(())
    }

    /// Closes the sequence: `[]` if no element was ever started.
    pub fn end(self) -> (r: Result<(), Error>)
        ensures
            self.target()@.reliable ==> r is Ok,
            r is Ok ==> final(self.target())@ == self.target()@.close(self.is_empty(), "[]"@),
            r is Err ==> r == Err::<(), Error>(Error::Write),
            r is Err ==> final(self.target())@ == self.target()@,
    {
        if self.empty {
            self.serializer.str("[]")?;
        }
        Ok(())
    }
}

} // verus!
