//! What a failed emission leaves behind.

use vstd::prelude::*;

use crate::layout::{spaces, Element, State};

verus! {

/// What an emission that failed may leave behind: the text from `before`,
/// then a part, from its start, of what would have led to `target`.
pub open spec fn interrupted(before: State, after: State, target: State) -> bool {
    before.text.is_prefix_of(after.text) && after.text.is_prefix_of(target.text)
}

/// A text is a prefix of itself with more behind it.
pub proof fn lemma_prefix_extended(a: Seq<char>, b: Seq<char>)
    ensures
        a.is_prefix_of(a + b),
        a.is_prefix_of(a),
{
    assert(a =~= (a + b).subrange(0, a.len() as int));
    assert(a =~= a.subrange(0, a.len() as int));
}

/// A prefix of a prefix is a prefix.
pub proof fn lemma_prefix_chain(a: Seq<char>, b: Seq<char>, c: Seq<char>)
    requires
        a.is_prefix_of(b),
        b.is_prefix_of(c),
    ensures
        a.is_prefix_of(c),
{
    assert(a =~= c.subrange(0, a.len() as int));
}

/// Fewer spaces are a prefix of more.
pub proof fn lemma_spaces_prefix(text: Seq<char>, m: nat, n: nat)
    requires
        m <= n,
    ensures
        (text + spaces(m)).is_prefix_of(text + spaces(n)),
{
    assert(text + spaces(m) =~= (text + spaces(n)).subrange(0, (text + spaces(m)).len() as int));
}

/// A failure in a later part of an emission is a failure of the whole:
/// what led to `mid` stays, and what follows `part` is not written.
pub proof fn lemma_interrupted_within(
    before: State,
    mid: State,
    after: State,
    part: State,
    target: State,
)
    requires
        before.text.is_prefix_of(mid.text),
        interrupted(mid, after, part),
        part.text.is_prefix_of(target.text),
    ensures
        interrupted(before, after, target),
{
    lemma_prefix_chain(before.text, mid.text, after.text);
    lemma_prefix_chain(after.text, part.text, target.text);
}

/// Whether the text of `b` is that of `a`, with or without more behind it.
pub open spec fn extends(a: State, b: State) -> bool {
    a.text.is_prefix_of(b.text) || a.text == b.text
}

/// An emission in up to four steps, each of which only appends text: a
/// failure in any step, or between two of them, is a failure of the whole.
/// An emission in fewer steps repeats a state.
pub proof fn lemma_interrupted_steps(s0: State, s1: State, s2: State, s3: State, s4: State)
    requires
        extends(s0, s1),
        extends(s1, s2),
        extends(s2, s3),
        extends(s3, s4),
    ensures
        forall|after: State| #[trigger] interrupted(s0, after, s1) ==> interrupted(s0, after, s4),
        forall|after: State| #[trigger] interrupted(s1, after, s2) ==> interrupted(s0, after, s4),
        forall|after: State| #[trigger] interrupted(s2, after, s3) ==> interrupted(s0, after, s4),
        forall|after: State| #[trigger] interrupted(s3, after, s4) ==> interrupted(s0, after, s4),
        interrupted(s0, s0, s4),
        interrupted(s0, s1, s4),
        interrupted(s0, s2, s4),
        interrupted(s0, s3, s4),
        interrupted(s0, s4, s4),
        extends(s0, s4),
{
    lemma_prefix_extended(s0.text, Seq::empty());
    lemma_prefix_extended(s1.text, Seq::empty());
    lemma_prefix_extended(s2.text, Seq::empty());
    lemma_prefix_extended(s3.text, Seq::empty());
    lemma_prefix_extended(s4.text, Seq::empty());
    lemma_prefix_chain(s0.text, s1.text, s2.text);
    lemma_prefix_chain(s0.text, s2.text, s3.text);
    lemma_prefix_chain(s0.text, s3.text, s4.text);
    lemma_prefix_chain(s1.text, s2.text, s3.text);
    lemma_prefix_chain(s1.text, s3.text, s4.text);
    lemma_prefix_chain(s2.text, s3.text, s4.text);
    assert forall|after: State| #[trigger] interrupted(s0, after, s1) implies interrupted(
        s0,
        after,
        s4,
    ) by {
        lemma_interrupted_within(s0, s0, after, s1, s4);
    }
    assert forall|after: State| #[trigger] interrupted(s1, after, s2) implies interrupted(
        s0,
        after,
        s4,
    ) by {
        lemma_interrupted_within(s0, s1, after, s2, s4);
    }
    assert forall|after: State| #[trigger] interrupted(s2, after, s3) implies interrupted(
        s0,
        after,
        s4,
    ) by {
        lemma_interrupted_within(s0, s2, after, s3, s4);
    }
    assert forall|after: State| #[trigger] interrupted(s3, after, s4) implies interrupted(
        s0,
        after,
        s4,
    ) by {
        lemma_interrupted_within(s0, s3, after, s4, s4);
    }
}

/// Every step of the layout only appends text.
pub proof fn lemma_steps_append(st: State, next: Element, s: Seq<char>, first: bool)
    ensures
        st.text.is_prefix_of(st.write(s).text),
        st.text.is_prefix_of(st.indent(next).text),
        st.text.is_prefix_of(st.next_member(first).text),
        st.text.is_prefix_of(st.scalar(s).text),
        st.indent(next).text.is_prefix_of(st.indent(next).write(s).text),
        st.text.is_prefix_of(st.begin_element(first).text),
        st.text.is_prefix_of(st.begin_key(first).text),
        st.text.is_prefix_of(st.end_key().text),
        st.text.is_prefix_of(st.begin_field(first, s).text),
        st.text.is_prefix_of(st.begin_variant(s).text),
        st.text.is_prefix_of(st.close(first, s).text),
        st.enter().text == st.text,
        st.leave().text == st.text,
{
    lemma_prefix_extended(st.text, s);
    lemma_prefix_extended(st.text, st.separator(next));
    lemma_prefix_extended(st.text, seq!['\n']);
    lemma_prefix_extended(st.indent(next).text, s);
    lemma_prefix_extended(st.text, st.separator(Element::Literal));
    lemma_prefix_extended(st.indent(Element::Literal).text, s);
    lemma_prefix_chain(st.text, st.indent(Element::Literal).text, st.scalar(s).text);
    let m = st.next_member(first);
    lemma_prefix_extended(m.text, m.separator(Element::SequenceEntry));
    lemma_prefix_extended(m.indent(Element::SequenceEntry).text, seq!['-']);
    lemma_prefix_chain(
        m.text,
        m.indent(Element::SequenceEntry).text,
        m.indent(Element::SequenceEntry).write(seq!['-']).text,
    );
    lemma_prefix_chain(st.text, m.text, st.begin_element(first).text);
    lemma_prefix_extended(m.text, m.separator(Element::PreMappingKey));
    lemma_prefix_chain(st.text, m.text, st.begin_key(first).text);
    lemma_prefix_extended(st.text, seq![':']);
    let k = m.indent(Element::MappingKey);
    lemma_prefix_extended(m.text, m.separator(Element::MappingKey));
    lemma_prefix_extended(k.text, s);
    lemma_prefix_extended(k.write(s).text, seq![':']);
    lemma_prefix_chain(m.text, k.text, k.write(s).text);
    lemma_prefix_chain(m.text, k.write(s).text, k.write(s).write(seq![':']).text);
    lemma_prefix_chain(st.text, m.text, st.begin_field(first, s).text);
    let v = st.indent(Element::MappingKey);
    lemma_prefix_extended(st.text, st.separator(Element::MappingKey));
    lemma_prefix_extended(v.text, s);
    lemma_prefix_extended(v.write(s).text, seq![':']);
    lemma_prefix_chain(st.text, v.text, v.write(s).text);
    lemma_prefix_chain(st.text, v.write(s).text, st.begin_variant(s).text);
}

} // verus!
