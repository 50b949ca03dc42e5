//! A value that is emitted one level deeper is the same text, shifted two
//! spaces to the right.

use vstd::prelude::*;
use vstd::string::*;

use crate::layout::{spaces, Element, State};
use crate::value::frame::{lemma_emitted_frame, lemma_fields_frame};
use crate::value::{emitted_elements, emitted_entries, emitted_fields, Entry, Field, Value};

verus! {

/// Whether a text holds no line break.
pub open spec fn one_line(t: Seq<char>) -> bool {
    forall|i: int| 0 <= i < t.len() ==> t[i] != '\n'
}

/// The text with two spaces put behind every line break: every line but
/// the first is moved two columns to the right.
pub open spec fn shifted(t: Seq<char>) -> Seq<char>
    decreases t.len(),
{
    if t.len() == 0 {
        t
    } else if t.last() == '\n' {
        shifted(t.drop_last()) + seq!['\n', ' ', ' ']
    } else {
        shifted(t.drop_last()).push(t.last())
    }
}

/// What was written between two states of one emission.
pub open spec fn added(from: State, to: State) -> Seq<char> {
    to.text.skip(from.text.len() as int)
}

impl Value {
    /// Whether the text of every scalar and every name in the value is one
    /// line, and every key of a mapping a scalar.
    pub open spec fn in_lines(&self) -> bool
        decreases self,
    {
        match self {
            Value::Sequence(items) => forall|i: int|
                0 <= i < items@.len() ==> (#[trigger] items@[i]).in_lines(),
            Value::Mapping(entries) => forall|i: int|
                0 <= i < entries@.len() ==> {
                    &&& (#[trigger] entries@[i]).key.scalar_text() is Some
                    &&& entries@[i].key.in_lines()
                    &&& entries@[i].value.in_lines()
                },
            Value::Struct(fields) => forall|i: int|
                0 <= i < fields@.len() ==> {
                    &&& one_line((#[trigger] fields@[i]).name@)
                    &&& fields@[i].value.in_lines()
                },
            Value::NewtypeVariant(variant, value) => one_line(variant@) && value.in_lines(),
            Value::StructVariant(variant, fields) => one_line(variant@) && forall|i: int|
                0 <= i < fields@.len() ==> {
                    &&& one_line((#[trigger] fields@[i]).name@)
                    &&& fields@[i].value.in_lines()
                },
            _ => one_line(self.scalar_text().unwrap()),
        }
    }

    /// Whether emitting the value begins with a token: all do but the
    /// containers without members, which are a marker alone.
    pub open spec fn begins_with_token(&self) -> bool {
        match self {
            Value::Sequence(items) => items@.len() > 0,
            Value::Mapping(entries) => entries@.len() > 0,
            Value::Struct(fields) => fields@.len() > 0,
            _ => true,
        }
    }
}

/// Shifting goes through a concatenation.
pub proof fn lemma_shifted_concat(a: Seq<char>, b: Seq<char>)
    ensures
        shifted(a + b) == shifted(a) + shifted(b),
    decreases b.len(),
{
    if b.len() == 0 {
        assert(a + b =~= a);
        assert(shifted(a) + shifted(b) =~= shifted(a));
    } else {
        assert((a + b).drop_last() =~= a + b.drop_last());
        assert((a + b).last() == b.last());
        lemma_shifted_concat(a, b.drop_last());
        if b.last() == '\n' {
            assert(shifted(a) + shifted(b.drop_last()) + seq!['\n', ' ', ' '] =~= shifted(a) + (
            shifted(b.drop_last()) + seq!['\n', ' ', ' ']));
        } else {
            assert((shifted(a) + shifted(b.drop_last())).push(b.last()) =~= shifted(a) + shifted(
                b.drop_last(),
            ).push(b.last()));
        }
    }
}

/// A text of one line is its own shift.
pub proof fn lemma_shifted_one_line(t: Seq<char>)
    requires
        one_line(t),
    ensures
        shifted(t) == t,
    decreases t.len(),
{
    if t.len() > 0 {
        lemma_shifted_one_line(t.drop_last());
        assert(t.drop_last().push(t.last()) =~= t);
    }
}

/// A line break and the indentation, shifted, are the line break and the
/// indentation of one level deeper.
pub proof fn lemma_shifted_separators(depth: nat)
    ensures
        one_line(spaces(2 * depth)),
        one_line(seq![' ']),
        one_line(seq!['-']),
        one_line(seq![':']),
        one_line(Seq::<char>::empty()),
        shifted(seq!['\n']) == seq!['\n', ' ', ' '],
        shifted(seq!['\n'] + spaces(2 * depth)) == seq!['\n'] + spaces(2 * (depth + 1)),
        spaces(2 * (depth + 1)) == seq![' ', ' '] + spaces(2 * depth),
{
    assert(seq!['\n'].drop_last() =~= Seq::<char>::empty());
    assert(shifted(Seq::<char>::empty()) == Seq::<char>::empty());
    assert(seq!['\n'].last() == '\n');
    assert(shifted(seq!['\n']) =~= seq!['\n', ' ', ' ']);
    lemma_shifted_concat(seq!['\n'], spaces(2 * depth));
    lemma_shifted_one_line(spaces(2 * depth));
    assert(seq!['\n', ' ', ' '] + spaces(2 * depth) =~= seq!['\n'] + spaces(2 * (depth + 1)));
    assert(spaces(2 * (depth + 1)) =~= seq![' ', ' '] + spaces(2 * depth));
}

/// Whether `b` is as `a`, one level deeper: after the same kind of token,
/// whatever the text of either.
pub open spec fn one_deeper(a: State, b: State) -> bool {
    b.depth == a.depth + 1 && b.last == a.last
}

/// The two spaces by which a first token is indented more, one level
/// deeper, where it starts the output or a scope.
pub open spec fn lead_of(a: State) -> Seq<char> {
    if a.last == Element::Nothing {
        seq![' ', ' ']
    } else {
        Seq::empty()
    }
}

/// Whether a stretch of an emission, from `a0` to `a1`, and the same
/// stretch one level deeper, from `b0` to `b1`, write the same text but
/// for the shift: the deeper text is `lead`, then the other, shifted.
pub open spec fn shifts(a0: State, a1: State, b0: State, b1: State, lead: Seq<char>) -> bool {
    &&& one_deeper(a1, b1)
    &&& a0.text.is_prefix_of(a1.text)
    &&& b0.text.is_prefix_of(b1.text)
    &&& added(b0, b1) == lead + shifted(added(a0, a1))
}

/// What two stretches of an emission added is what the first added, then
/// what the second did.
pub proof fn lemma_added_compose(s0: State, s1: State, s2: State)
    requires
        s0.text.is_prefix_of(s1.text),
        s1.text.is_prefix_of(s2.text),
    ensures
        s0.text.is_prefix_of(s2.text),
        added(s0, s2) == added(s0, s1) + added(s1, s2),
{
    assert(s0.text =~= s2.text.subrange(0, s0.text.len() as int));
    assert(added(s0, s2) =~= added(s0, s1) + added(s1, s2));
}

/// What a write added is what was written.
pub proof fn lemma_added_write(st: State, s: Seq<char>)
    ensures
        st.text.is_prefix_of(st.write(s).text),
        added(st, st.write(s)) == s,
        st.text.is_prefix_of(st.text),
        added(st, st) == Seq::<char>::empty(),
{
    assert(st.text =~= st.write(s).text.subrange(0, st.text.len() as int));
    assert(added(st, st.write(s)) =~= s);
    assert(st.text =~= st.text.subrange(0, st.text.len() as int));
    assert(added(st, st) =~= Seq::<char>::empty());
}

/// Two stretches that shift, one after the other, shift as one.
pub proof fn lemma_shifts_then(
    a0: State,
    a1: State,
    a2: State,
    b0: State,
    b1: State,
    b2: State,
    lead: Seq<char>,
)
    requires
        shifts(a0, a1, b0, b1, lead),
        shifts(a1, a2, b1, b2, Seq::empty()),
    ensures
        shifts(a0, a2, b0, b2, lead),
{
    lemma_added_compose(a0, a1, a2);
    lemma_added_compose(b0, b1, b2);
    lemma_shifted_concat(added(a0, a1), added(a1, a2));
    assert(lead + shifted(added(a0, a1)) + (Seq::<char>::empty() + shifted(added(a1, a2))) =~= lead
        + (shifted(added(a0, a1)) + shifted(added(a1, a2))));
}

/// A stretch in which nothing is written shifts.
pub proof fn lemma_shifts_nothing(a0: State, a1: State, b0: State, b1: State)
    requires
        one_deeper(a1, b1),
        a1.text == a0.text,
        b1.text == b0.text,
    ensures
        shifts(a0, a1, b0, b1, Seq::empty()),
{
    lemma_added_write(a0, Seq::empty());
    lemma_added_write(b0, Seq::empty());
    assert(added(a0, a1) =~= Seq::<char>::empty());
    assert(added(b0, b1) =~= Seq::<char>::empty());
    assert(shifted(Seq::<char>::empty()) == Seq::<char>::empty());
    assert(Seq::<char>::empty() + Seq::<char>::empty() =~= Seq::<char>::empty());
}

/// A write of one line shifts.
pub proof fn lemma_shifts_write(a: State, b: State, s: Seq<char>)
    requires
        one_deeper(a, b),
        one_line(s),
    ensures
        shifts(a, a.write(s), b, b.write(s), Seq::empty()),
{
    lemma_added_write(a, s);
    lemma_added_write(b, s);
    lemma_shifted_one_line(s);
    assert(Seq::<char>::empty() + s =~= s);
}

/// The separator of a token shifts: where the token starts the output or a
/// scope, it is indented by two more spaces.
pub proof fn lemma_shifts_indent(a: State, b: State, next: Element)
    requires
        one_deeper(a, b),
    ensures
        shifts(a, a.indent(next), b, b.indent(next), lead_of(a)),
{
    lemma_added_write(a, a.separator(next));
    lemma_added_write(b, b.separator(next));
    lemma_shifted_separators(a.depth);
    if a.last == Element::Nothing {
        lemma_shifted_one_line(spaces(2 * a.depth));
    } else if a.separator(next) == seq!['\n'] + spaces(2 * a.depth) {
        assert(Seq::<char>::empty() + (seq!['\n'] + spaces(2 * (a.depth + 1))) =~= seq!['\n']
            + spaces(2 * (a.depth + 1)));
    } else {
        lemma_shifted_one_line(a.separator(next));
        assert(Seq::<char>::empty() + a.separator(next) =~= a.separator(next));
    }
}

/// The line break before a later member and the separator of its first
/// token shift together: the line is indented by two more spaces.
pub proof fn lemma_shifts_member(a: State, b: State, first: bool, next: Element)
    requires
        one_deeper(a, b),
        first || a.last == Element::Nothing,
    ensures
        shifts(
            a,
            a.next_member(first).indent(next),
            b,
            b.next_member(first).indent(next),
            if first {
                lead_of(a)
            } else {
                Seq::empty()
            },
        ),
{
    if first {
        lemma_shifts_indent(a, b, next);
    } else {
        let line = seq!['\n'] + spaces(2 * a.depth);
        let deeper = seq!['\n'] + spaces(2 * (a.depth + 1));
        lemma_shifted_separators(a.depth);
        assert(a.next_member(first).indent(next).text =~= a.write(line).text);
        assert(b.next_member(first).indent(next).text =~= b.write(deeper).text);
        lemma_added_write(a, line);
        lemma_added_write(b, deeper);
        assert(Seq::<char>::empty() + deeper =~= deeper);
    }
}

/// The start of a sequence entry shifts.
pub proof fn lemma_shifts_begin_element(a: State, b: State, first: bool)
    requires
        one_deeper(a, b),
        first || a.last == Element::Nothing,
    ensures
        shifts(
            a,
            a.begin_element(first),
            b,
            b.begin_element(first),
            if first {
                lead_of(a)
            } else {
                Seq::empty()
            },
        ),
        a.begin_element(first).last == Element::SequenceEntry,
{
    let lead = if first {
        lead_of(a)
    } else {
        Seq::empty()
    };
    let a1 = a.next_member(first).indent(Element::SequenceEntry);
    let b1 = b.next_member(first).indent(Element::SequenceEntry);
    lemma_shifted_separators(a.depth);
    lemma_shifts_member(a, b, first, Element::SequenceEntry);
    lemma_shifts_write(a1, b1, seq!['-']);
    lemma_shifts_then(a, a1, a1.write(seq!['-']), b, b1, b1.write(seq!['-']), lead);
    lemma_shifts_nothing(
        a1.write(seq!['-']),
        a.begin_element(first),
        b1.write(seq!['-']),
        b.begin_element(first),
    );
    lemma_shifts_then(
        a,
        a1.write(seq!['-']),
        a.begin_element(first),
        b,
        b1.write(seq!['-']),
        b.begin_element(first),
        lead,
    );
}

/// The start of a mapping entry shifts.
pub proof fn lemma_shifts_begin_key(a: State, b: State, first: bool)
    requires
        one_deeper(a, b),
        first || a.last == Element::Nothing,
    ensures
        shifts(
            a,
            a.begin_key(first),
            b,
            b.begin_key(first),
            if first {
                lead_of(a)
            } else {
                Seq::empty()
            },
        ),
        a.begin_key(first).last == Element::PreMappingKey,
{
    lemma_shifts_member(a, b, first, Element::PreMappingKey);
}

/// The colon behind a key shifts.
pub proof fn lemma_shifts_end_key(a: State, b: State)
    requires
        one_deeper(a, b),
    ensures
        shifts(a, a.end_key(), b, b.end_key(), Seq::empty()),
        a.end_key().last == a.last,
{
    lemma_shifted_separators(a.depth);
    lemma_shifts_write(a.enter(), b.enter(), seq![':']);
    lemma_added_write(a, seq![':']);
    lemma_added_write(b, seq![':']);
    assert(added(a, a.end_key()) == added(a.enter(), a.end_key()));
    assert(added(b, b.end_key()) == added(b.enter(), b.end_key()));
}

/// The start of a field shifts.
pub proof fn lemma_shifts_begin_field(a: State, b: State, first: bool, name: Seq<char>)
    requires
        one_deeper(a, b),
        first || a.last == Element::Nothing,
        one_line(name),
    ensures
        shifts(
            a,
            a.begin_field(first, name),
            b,
            b.begin_field(first, name),
            if first {
                lead_of(a)
            } else {
                Seq::empty()
            },
        ),
        a.begin_field(first, name).last == Element::MappingKey,
{
    let lead = if first {
        lead_of(a)
    } else {
        Seq::empty()
    };
    let a1 = a.next_member(first).indent(Element::MappingKey);
    let b1 = b.next_member(first).indent(Element::MappingKey);
    let a2 = a1.write(name);
    let b2 = b1.write(name);
    let a3 = a2.write(seq![':']);
    let b3 = b2.write(seq![':']);
    lemma_shifted_separators(a.depth);
    lemma_shifts_member(a, b, first, Element::MappingKey);
    lemma_shifts_write(a1, b1, name);
    lemma_shifts_then(a, a1, a2, b, b1, b2, lead);
    lemma_shifts_write(a2, b2, seq![':']);
    lemma_shifts_then(a, a2, a3, b, b2, b3, lead);
    lemma_shifts_nothing(a3, a.begin_field(first, name), b3, b.begin_field(first, name));
    lemma_shifts_then(a, a3, a.begin_field(first, name), b, b3, b.begin_field(first, name), lead);
}

/// The name of a struct variant shifts.
pub proof fn lemma_shifts_begin_variant(a: State, b: State, name: Seq<char>)
    requires
        one_deeper(a, b),
        one_line(name),
    ensures
        shifts(a, a.begin_variant(name), b, b.begin_variant(name), lead_of(a)),
        a.begin_variant(name).last == Element::MappingKey,
{
    lemma_shifts_begin_field(a, b, true, name);
    assert(a.begin_variant(name) == a.begin_field(true, name));
    assert(b.begin_variant(name) == b.begin_field(true, name));
}

/// The end of a container shifts, with its marker or without.
pub proof fn lemma_shifts_close(a: State, b: State, empty: bool, marker: Seq<char>)
    requires
        one_deeper(a, b),
        one_line(marker),
    ensures
        shifts(a, a.close(empty, marker), b, b.close(empty, marker), Seq::empty()),
        a.close(empty, marker).last == a.last,
{
    if empty {
        lemma_shifts_write(a, b, marker);
    } else {
        lemma_shifts_nothing(a, a, b, b);
    }
}

/// Leaving a scope shifts.
pub proof fn lemma_shifts_leave(a: State, b: State)
    requires
        one_deeper(a, b),
        a.depth > 0,
    ensures
        shifts(a, a.leave(), b, b.leave(), Seq::empty()),
        a.leave().last == Element::Nothing,
{
    lemma_shifts_nothing(a, a.leave(), b, b.leave());
}

/// A value that is emitted one level deeper is emitted as the same text,
/// shifted: every line but the first is indented by two more spaces, and
/// so is the first where the value starts the output or a scope. This
/// holds of every value whose scalars and names are one line each and
/// whose mapping keys are scalars.
pub proof fn law_deeper_is_shifted(value: Value, a: State, b: State)
    requires
        value.in_lines(),
        one_deeper(a, b),
    ensures
        shifts(
            a,
            value.emitted(a),
            b,
            value.emitted(b),
            if value.begins_with_token() {
                lead_of(a)
            } else {
                Seq::empty()
            },
        ),
    decreases value, 0nat,
{
    match value {
        Value::Sequence(items) => {
            let n = items@.len();
            lemma_elements_shift(items@, n, a, b);
            lemma_marker_lines();
            let a1 = emitted_elements(items@, n, a);
            let b1 = emitted_elements(items@, n, b);
            lemma_shifts_close(a1, b1, n == 0, "[]"@);
            lemma_shifts_then(a, a1, value.emitted(a), b, b1, value.emitted(b), if n > 0 {
                lead_of(a)
            } else {
                Seq::empty()
            });
        },
        Value::Mapping(entries) => {
            let n = entries@.len();
            lemma_entries_shift(entries@, n, a, b);
            lemma_marker_lines();
            let a1 = emitted_entries(entries@, n, a);
            let b1 = emitted_entries(entries@, n, b);
            lemma_shifts_close(a1, b1, n == 0, "{}"@);
            lemma_shifts_then(a, a1, value.emitted(a), b, b1, value.emitted(b), if n > 0 {
                lead_of(a)
            } else {
                Seq::empty()
            });
        },
        Value::Struct(fields) => {
            let n = fields@.len();
            lemma_fields_shift(fields@, n, a, b);
            lemma_marker_lines();
            let a1 = emitted_fields(fields@, n, a);
            let b1 = emitted_fields(fields@, n, b);
            lemma_shifts_close(a1, b1, n == 0, "{}"@);
            lemma_shifts_then(a, a1, value.emitted(a), b, b1, value.emitted(b), if n > 0 {
                lead_of(a)
            } else {
                Seq::empty()
            });
        },
        Value::NewtypeVariant(variant, inner) => {
            let a1 = a.begin_field(true, variant@);
            let b1 = b.begin_field(true, variant@);
            lemma_shifts_begin_field(a, b, true, variant@);
            law_deeper_is_shifted(*inner, a1, b1);
            let a2 = inner.emitted(a1);
            let b2 = inner.emitted(b1);
            lemma_shifts_then(a, a1, a2, b, b1, b2, lead_of(a));
            lemma_emitted_frame(*inner, a1);
            lemma_shifts_leave(a2, b2);
            lemma_shifts_then(a, a2, a2.leave(), b, b2, b2.leave(), lead_of(a));
        },
        Value::StructVariant(variant, fields) => {
            let n = fields@.len();
            let a1 = a.begin_variant(variant@);
            let b1 = b.begin_variant(variant@);
            lemma_shifts_begin_variant(a, b, variant@);
            lemma_fields_shift(fields@, n, a1, b1);
            let a2 = emitted_fields(fields@, n, a1);
            let b2 = emitted_fields(fields@, n, b1);
            lemma_shifts_then(a, a1, a2, b, b1, b2, lead_of(a));
            lemma_marker_lines();
            let a3 = a2.close(n == 0, "{}"@);
            let b3 = b2.close(n == 0, "{}"@);
            lemma_shifts_close(a2, b2, n == 0, "{}"@);
            lemma_shifts_then(a, a2, a3, b, b2, b3, lead_of(a));
            lemma_fields_frame(fields@, n, a1);
            lemma_shifts_leave(a3, b3);
            lemma_shifts_then(a, a3, a3.leave(), b, b3, b3.leave(), lead_of(a));
        },
        _ => {
            let text = value.scalar_text().unwrap();
            lemma_shifts_indent(a, b, Element::Literal);
            lemma_shifts_write(a.indent(Element::Literal), b.indent(Element::Literal), text);
            lemma_shifts_then(
                a,
                a.indent(Element::Literal),
                a.scalar(text),
                b,
                b.indent(Element::Literal),
                b.scalar(text),
                lead_of(a),
            );
        },
    }
}

/// The markers of the empty containers are one line each.
proof fn lemma_marker_lines()
    ensures
        one_line("[]"@),
        one_line("{}"@),
{
    reveal_strlit("[]");
    reveal_strlit("{}");
}

/// The same of the first `n` elements of a sequence.
pub proof fn lemma_elements_shift(items: Seq<Value>, n: nat, a: State, b: State)
    requires
        n <= items.len(),
        forall|i: int| 0 <= i < n ==> (#[trigger] items[i]).in_lines(),
        one_deeper(a, b),
    ensures
        shifts(
            a,
            emitted_elements(items, n, a),
            b,
            emitted_elements(items, n, b),
            if n > 0 {
                lead_of(a)
            } else {
                Seq::empty()
            },
        ),
        n > 0 ==> emitted_elements(items, n, a).last == Element::Nothing,
    decreases items, n,
{
    if n == 0 {
        lemma_shifts_nothing(a, a, b, b);
    } else {
        let a0 = emitted_elements(items, (n - 1) as nat, a);
        let b0 = emitted_elements(items, (n - 1) as nat, b);
        lemma_elements_shift(items, (n - 1) as nat, a, b);
        let a1 = a0.begin_element(n == 1);
        let b1 = b0.begin_element(n == 1);
        lemma_shifts_begin_element(a0, b0, n == 1);
        if n > 1 {
            lemma_shifts_then(a, a0, a1, b, b0, b1, lead_of(a));
        }
        let a2 = items[n - 1].emitted(a1);
        let b2 = items[n - 1].emitted(b1);
        law_deeper_is_shifted(items[n - 1], a1, b1);
        lemma_shifts_then(a, a1, a2, b, b1, b2, lead_of(a));
        lemma_emitted_frame(items[n - 1], a1);
        lemma_shifts_leave(a2, b2);
        lemma_shifts_then(a, a2, a2.leave(), b, b2, b2.leave(), lead_of(a));
    }
}

/// The same of the first `n` entries of a mapping.
pub proof fn lemma_entries_shift(entries: Seq<Entry>, n: nat, a: State, b: State)
    requires
        n <= entries.len(),
        forall|i: int|
            0 <= i < n ==> {
                &&& (#[trigger] entries[i]).key.scalar_text() is Some
                &&& entries[i].key.in_lines()
                &&& entries[i].value.in_lines()
            },
        one_deeper(a, b),
    ensures
        shifts(
            a,
            emitted_entries(entries, n, a),
            b,
            emitted_entries(entries, n, b),
            if n > 0 {
                lead_of(a)
            } else {
                Seq::empty()
            },
        ),
        n > 0 ==> emitted_entries(entries, n, a).last == Element::Nothing,
    decreases entries, n,
{
    if n == 0 {
        lemma_shifts_nothing(a, a, b, b);
    } else {
        let entry = entries[n - 1];
        let a0 = emitted_entries(entries, (n - 1) as nat, a);
        let b0 = emitted_entries(entries, (n - 1) as nat, b);
        lemma_entries_shift(entries, (n - 1) as nat, a, b);
        let a1 = a0.begin_key(n == 1);
        let b1 = b0.begin_key(n == 1);
        lemma_shifts_begin_key(a0, b0, n == 1);
        if n > 1 {
            lemma_shifts_then(a, a0, a1, b, b0, b1, lead_of(a));
        }
        let a2 = entry.key.emitted(a1);
        let b2 = entry.key.emitted(b1);
        law_deeper_is_shifted(entry.key, a1, b1);
        lemma_shifts_then(a, a1, a2, b, b1, b2, lead_of(a));
        assert(a2.last == Element::MappingKey);
        let a3 = a2.end_key();
        let b3 = b2.end_key();
        lemma_shifts_end_key(a2, b2);
        lemma_shifts_then(a, a2, a3, b, b2, b3, lead_of(a));
        let a4 = entry.value.emitted(a3);
        let b4 = entry.value.emitted(b3);
        law_deeper_is_shifted(entry.value, a3, b3);
        lemma_shifts_then(a, a3, a4, b, b3, b4, lead_of(a));
        lemma_emitted_frame(entry.value, a3);
        lemma_shifts_leave(a4, b4);
        lemma_shifts_then(a, a4, a4.leave(), b, b4, b4.leave(), lead_of(a));
    }
}

/// The same of the first `n` fields of a struct.
pub proof fn lemma_fields_shift(fields: Seq<Field>, n: nat, a: State, b: State)
    requires
        n <= fields.len(),
        forall|i: int|
            0 <= i < n ==> {
                &&& one_line((#[trigger] fields[i]).name@)
                &&& fields[i].value.in_lines()
            },
        one_deeper(a, b),
    ensures
        shifts(
            a,
            emitted_fields(fields, n, a),
            b,
            emitted_fields(fields, n, b),
            if n > 0 {
                lead_of(a)
            } else {
                Seq::empty()
            },
        ),
        n > 0 ==> emitted_fields(fields, n, a).last == Element::Nothing,
    decreases fields, n,
{
    if n == 0 {
        lemma_shifts_nothing(a, a, b, b);
    } else {
        let field = fields[n - 1];
        let a0 = emitted_fields(fields, (n - 1) as nat, a);
        let b0 = emitted_fields(fields, (n - 1) as nat, b);
        lemma_fields_shift(fields, (n - 1) as nat, a, b);
        let a1 = a0.begin_field(n == 1, field.name@);
        let b1 = b0.begin_field(n == 1, field.name@);
        lemma_shifts_begin_field(a0, b0, n == 1, field.name@);
        if n > 1 {
            lemma_shifts_then(a, a0, a1, b, b0, b1, lead_of(a));
        }
        let a2 = field.value.emitted(a1);
        let b2 = field.value.emitted(b1);
        law_deeper_is_shifted(field.value, a1, b1);
        lemma_shifts_then(a, a1, a2, b, b1, b2, lead_of(a));
        lemma_emitted_frame(field.value, a1);
        lemma_shifts_leave(a2, b2);
        lemma_shifts_then(a, a2, a2.leave(), b, b2, b2.leave(), lead_of(a));
    }
}

} // verus!
