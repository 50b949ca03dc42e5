//! What holds of every emission.

use vstd::prelude::*;

use crate::decimal::{decimal, digits};
use crate::layout::{spaces, Element, State};
use crate::quote::{needs_quotes, quoted};
use crate::value::{emitted_elements, emitted_entries, emitted_fields, Entry, Field, Value};

verus! {

/// A string is emitted between two single quotes exactly if it needs
/// quotes, and as it is otherwise.
pub proof fn law_quoted_iff_needed(s: Seq<char>)
    ensures
        needs_quotes(s) ==> quoted(s) == seq!['\''] + s + seq!['\''],
        !needs_quotes(s) ==> quoted(s) == s,
        needs_quotes(s) <==> quoted(s) != s,
{
    if needs_quotes(s) {
        assert(quoted(s).len() == s.len() + 2);
    }
}

/// The empty string is emitted as two single quotes.
pub proof fn law_empty_string_is_quoted()
    ensures
        quoted(Seq::<char>::empty()) == seq!['\'', '\''],
{
    let empty = Seq::<char>::empty();
    assert(needs_quotes(empty));
    assert(seq!['\''] + empty + seq!['\''] =~= seq!['\'', '\'']);
}

/// The digits of a number are decimal digits, at least one, and the first
/// is a zero only if the number is zero.
pub proof fn law_digits_without_leading_zero(n: nat)
    ensures
        digits(n).len() >= 1,
        forall|i: int| 0 <= i < digits(n).len() ==> '0' <= #[trigger] digits(n)[i] <= '9',
        digits(n)[0] == '0' <==> n == 0,
    decreases n,
{
    if n >= 10 {
        law_digits_without_leading_zero(n / 10);
    }
}

/// The text of an integer starts with a minus sign exactly if the integer
/// is negative; what follows are the digits of its magnitude.
pub proof fn law_decimal_sign(v: int)
    ensures
        decimal(v)[0] == '-' <==> v < 0,
        v < 0 ==> decimal(v).skip(1) == digits((-v) as nat),
        v >= 0 ==> decimal(v) == digits(v as nat),
{
    if v < 0 {
        assert(decimal(v).skip(1) =~= digits((-v) as nat));
    } else {
        law_digits_without_leading_zero(v as nat);
    }
}

/// The first token of a document stands at the start of the text: nothing
/// separates it from what the sink held before.
pub proof fn law_document_starts_flush(text: Seq<char>, reliable: bool, next: Element, s: Seq<char>)
    ensures
        State::initial(text, reliable).separator(next) == Seq::<char>::empty(),
        State::initial(text, reliable).scalar(s).text == text + s,
{
    assert(spaces(0) =~= Seq::<char>::empty());
    assert(text + Seq::<char>::empty() + s =~= text + s);
}

/// The absent value is emitted as the scalar `null`: alone it is the whole
/// document.
pub proof fn law_absent_is_null(st: State)
    ensures
        Value::Null.emitted(st) == st.scalar("null"@),
        Value::Null.emitted(State::initial(Seq::empty(), st.reliable)).text == "null"@,
{
    assert(Seq::<char>::empty() + spaces(0) + "null"@ =~= "null"@);
}

/// A sequence without elements is emitted as `[]`, with nothing before it,
/// and changes nothing else.
pub proof fn law_empty_sequence(items: Vec<Value>, st: State)
    requires
        items@.len() == 0,
    ensures
        Value::Sequence(items).emitted(st) == st.write("[]"@),
{
    assert(emitted_elements(items@, 0, st) == st);
}

/// A mapping without entries is emitted as `{}`, with nothing before it,
/// and changes nothing else.
pub proof fn law_empty_mapping(entries: Vec<Entry>, st: State)
    requires
        entries@.len() == 0,
    ensures
        Value::Mapping(entries).emitted(st) == st.write("{}"@),
{
    assert(emitted_entries(entries@, 0, st) == st);
}

/// A struct without fields is emitted as `{}`, with nothing before it, and
/// changes nothing else.
pub proof fn law_empty_struct(fields: Vec<Field>, st: State)
    requires
        fields@.len() == 0,
    ensures
        Value::Struct(fields).emitted(st) == st.write("{}"@),
{
    assert(emitted_fields(fields@, 0, st) == st);
}

/// Every element of a sequence stands behind a dash of its own. The first
/// dash is separated like any first token; every later one starts a line:
/// a line break, the indentation of the sequence, the dash. The element's
/// value is emitted one level deeper.
pub proof fn law_sequence_entry(items: Seq<Value>, n: nat, st: State)
    requires
        1 <= n <= items.len(),
    ensures
        ({
            let before = emitted_elements(items, (n - 1) as nat, st);
            let lead = if n == 1 {
                st.separator(Element::SequenceEntry)
            } else {
                seq!['\n'] + spaces(2 * st.depth)
            };
            emitted_elements(items, n, st) == items[n - 1].emitted(
                State {
                    text: before.text + lead + seq!['-'],
                    depth: st.depth + 1,
                    last: Element::SequenceEntry,
                    reliable: st.reliable,
                },
            ).leave()
        }),
{
    let before = emitted_elements(items, (n - 1) as nat, st);
    if n == 1 {
        assert(before == st);
    } else {
        crate::value::frame::lemma_elements_frame(items, (n - 1) as nat, st);
        assert(before.last == Element::Nothing);
        assert(before.begin_element(false).text =~= before.text + (seq!['\n'] + spaces(
            2 * st.depth,
        )) + seq!['-']);
    }
}

/// The lines of the first `n` of a sequence's scalars at `depth`: for each
/// a dash, a space and its text, with a line break and the indentation
/// between one and the next.
pub open spec fn dash_lines(texts: Seq<Seq<char>>, n: nat, depth: nat) -> Seq<char>
    decreases n,
{
    if n == 0 || n > texts.len() {
        Seq::empty()
    } else if n == 1 {
        seq!['-', ' '] + texts[0]
    } else {
        dash_lines(texts, (n - 1) as nat, depth) + seq!['\n'] + spaces(2 * depth) + seq!['-', ' ']
            + texts[n - 1]
    }
}

/// The texts of the values that are scalars; of the others, no text.
pub open spec fn scalar_texts(items: Seq<Value>) -> Seq<Seq<char>> {
    Seq::new(
        items.len(),
        |i: int|
            match items[i].scalar_text() {
                Some(text) => text,
                None => Seq::empty(),
            },
    )
}

/// A sequence of scalars is emitted as one `- text` per line: after the
/// separator that the sequence's first token gets come the lines, each
/// but the first at the indentation of the sequence.
pub proof fn law_sequence_of_scalars(items: Seq<Value>, n: nat, st: State)
    requires
        1 <= n <= items.len(),
        forall|i: int| 0 <= i < n ==> (#[trigger] items[i]).scalar_text() is Some,
    ensures
        emitted_elements(items, n, st).text == st.text + st.separator(Element::SequenceEntry)
            + dash_lines(scalar_texts(items), n, st.depth),
        emitted_elements(items, n, st).depth == st.depth,
        emitted_elements(items, n, st).last == Element::Nothing,
    decreases n,
{
    let texts = scalar_texts(items);
    let lead = st.text + st.separator(Element::SequenceEntry);
    if n == 1 {
        assert(emitted_elements(items, 0, st) == st);
        let at = st.begin_element(true);
        assert(items[0].emitted(at) == at.scalar(texts[0]));
        assert(at.scalar(texts[0]).text =~= lead + (seq!['-', ' '] + texts[0]));
    } else {
        law_sequence_of_scalars(items, (n - 1) as nat, st);
        let before = emitted_elements(items, (n - 1) as nat, st);
        let at = before.begin_element(false);
        assert(items[n - 1].emitted(at) == at.scalar(texts[n - 1]));
        assert(at.scalar(texts[n - 1]).text =~= lead + (dash_lines(texts, (n - 1) as nat, st.depth)
            + seq!['\n'] + spaces(2 * st.depth) + seq!['-', ' '] + texts[n - 1]));
    }
}

/// The lines of the first `n` of a struct's fields with scalar values at
/// `depth`: for each its name, a colon, a space and the text of its value,
/// with a line break and the indentation between one and the next.
pub open spec fn field_lines(
    names: Seq<Seq<char>>,
    texts: Seq<Seq<char>>,
    n: nat,
    depth: nat,
) -> Seq<char>
    decreases n,
{
    if n == 0 || n > names.len() || n > texts.len() {
        Seq::empty()
    } else if n == 1 {
        names[0] + seq![':', ' '] + texts[0]
    } else {
        field_lines(names, texts, (n - 1) as nat, depth) + seq!['\n'] + spaces(2 * depth) + names[n
            - 1] + seq![':', ' '] + texts[n - 1]
    }
}

/// The names of fields.
pub open spec fn field_names(fields: Seq<Field>) -> Seq<Seq<char>> {
    Seq::new(fields.len(), |i: int| fields[i].name@)
}

/// The values of fields.
pub open spec fn field_values(fields: Seq<Field>) -> Seq<Value> {
    Seq::new(fields.len(), |i: int| fields[i].value)
}

/// The keys of entries.
pub open spec fn entry_keys(entries: Seq<Entry>) -> Seq<Value> {
    Seq::new(entries.len(), |i: int| entries[i].key)
}

/// The values of entries.
pub open spec fn entry_values(entries: Seq<Entry>) -> Seq<Value> {
    Seq::new(entries.len(), |i: int| entries[i].value)
}

/// A struct whose fields are scalars is emitted as one `name: text` per
/// line: after the separator that the struct's first token gets come the
/// lines, each but the first at the indentation of the struct.
pub proof fn law_struct_of_scalars(fields: Seq<Field>, n: nat, st: State)
    requires
        1 <= n <= fields.len(),
        forall|i: int| 0 <= i < n ==> (#[trigger] fields[i]).value.scalar_text() is Some,
    ensures
        emitted_fields(fields, n, st).text == st.text + st.separator(Element::MappingKey)
            + field_lines(field_names(fields), scalar_texts(field_values(fields)), n, st.depth),
        emitted_fields(fields, n, st).depth == st.depth,
        emitted_fields(fields, n, st).last == Element::Nothing,
    decreases n,
{
    let names = field_names(fields);
    let texts = scalar_texts(field_values(fields));
    let lead = st.text + st.separator(Element::MappingKey);
    if n == 1 {
        assert(emitted_fields(fields, 0, st) == st);
        let at = st.begin_field(true, names[0]);
        assert(fields[0].value.emitted(at) == at.scalar(texts[0]));
        assert(at.scalar(texts[0]).text =~= lead + (names[0] + seq![':', ' '] + texts[0]));
    } else {
        law_struct_of_scalars(fields, (n - 1) as nat, st);
        let before = emitted_fields(fields, (n - 1) as nat, st);
        let at = before.begin_field(false, names[n - 1]);
        assert(fields[n - 1].value.emitted(at) == at.scalar(texts[n - 1]));
        assert(at.scalar(texts[n - 1]).text =~= lead + (field_lines(
            names,
            texts,
            (n - 1) as nat,
            st.depth,
        ) + seq!['\n'] + spaces(2 * st.depth) + names[n - 1] + seq![':', ' '] + texts[n - 1]));
    }
}

/// A mapping whose keys and values are scalars is emitted as one
/// `key: value` per line, like a struct, with the text of each key in the
/// place of a field's name.
pub proof fn law_mapping_of_scalars(entries: Seq<Entry>, n: nat, st: State)
    requires
        1 <= n <= entries.len(),
        forall|i: int| 0 <= i < n ==> (#[trigger] entries[i]).key.scalar_text() is Some,
        forall|i: int| 0 <= i < n ==> (#[trigger] entries[i]).value.scalar_text() is Some,
    ensures
        emitted_entries(entries, n, st).text == st.text + st.separator(Element::PreMappingKey)
            + field_lines(
            scalar_texts(entry_keys(entries)),
            scalar_texts(entry_values(entries)),
            n,
            st.depth,
        ),
        emitted_entries(entries, n, st).depth == st.depth,
        emitted_entries(entries, n, st).last == Element::Nothing,
    decreases n,
{
    let keys = scalar_texts(entry_keys(entries));
    let texts = scalar_texts(entry_values(entries));
    let lead = st.text + st.separator(Element::PreMappingKey);
    if n == 1 {
        assert(emitted_entries(entries, 0, st) == st);
        let at = st.begin_key(true);
        assert(entries[0].key.emitted(at) == at.scalar(keys[0]));
        let then = at.scalar(keys[0]).end_key();
        assert(entries[0].value.emitted(then) == then.scalar(texts[0]));
        assert(then.scalar(texts[0]).text =~= lead + (keys[0] + seq![':', ' '] + texts[0]));
    } else {
        law_mapping_of_scalars(entries, (n - 1) as nat, st);
        let before = emitted_entries(entries, (n - 1) as nat, st);
        let at = before.begin_key(false);
        assert(entries[n - 1].key.emitted(at) == at.scalar(keys[n - 1]));
        let then = at.scalar(keys[n - 1]).end_key();
        assert(entries[n - 1].value.emitted(then) == then.scalar(texts[n - 1]));
        assert(then.scalar(texts[n - 1]).text =~= lead + (field_lines(
            keys,
            texts,
            (n - 1) as nat,
            st.depth,
        ) + seq!['\n'] + spaces(2 * st.depth) + keys[n - 1] + seq![':', ' '] + texts[n - 1]));
    }
}

/// Whether a token of kind `next` after one of kind `last` starts a line,
/// or the output: it does unless it follows a dash, is a scalar that is
/// or follows a mapping key, or is a key that follows a scalar.
pub open spec fn starts_line(last: Element, next: Element) -> bool {
    !(last == Element::SequenceEntry || (last == Element::MappingKey && next == Element::Literal)
        || (last == Element::PreMappingKey && next == Element::Literal) || (last
        == Element::Literal && next == Element::MappingKey))
}

/// A token that starts a line is indented by two spaces for each level of
/// nesting, and so by two more spaces one level deeper. A token that
/// continues a line is separated by at most one space, at any depth.
pub proof fn law_deeper_by_two_spaces(st: State, next: Element)
    ensures
        starts_line(st.last, next) ==> st.separator(next) == (if st.last == Element::Nothing {
            Seq::<char>::empty()
        } else {
            seq!['\n']
        }) + spaces(2 * st.depth),
        starts_line(st.last, next) ==> st.enter().separator(next) == st.separator(next) + seq![
            ' ',
            ' ',
        ],
        !starts_line(st.last, next) ==> st.enter().separator(next) == st.separator(next),
        !starts_line(st.last, next) ==> st.separator(next) == seq![' '] || st.separator(next)
            == Seq::<char>::empty(),
{
    assert(spaces(2 * (st.depth + 1)) =~= spaces(2 * st.depth) + seq![' ', ' ']);
    assert(seq!['\n'] + spaces(2 * (st.depth + 1)) =~= seq!['\n'] + spaces(2 * st.depth) + seq![
        ' ',
        ' ',
    ]);
    assert(Seq::<char>::empty() + spaces(2 * st.depth) =~= spaces(2 * st.depth));
}

/// A scalar that follows a dash or a key stands on the same line, after
/// one space.
pub proof fn law_scalar_continues_line(st: State, s: Seq<char>)
    requires
        st.last == Element::SequenceEntry || st.last == Element::MappingKey,
    ensures
        st.scalar(s).text == st.text + seq![' '] + s,
        st.scalar(s).last == Element::Literal,
{
}

/// A scalar that is emitted as a mapping key gets no separator of its own
/// beyond that of the entry, and counts as the key from then on.
pub proof fn law_scalar_key(st: State, first: bool, s: Seq<char>)
    ensures
        st.begin_key(first).scalar(s).text == st.begin_key(first).text + s,
        st.begin_key(first).scalar(s).last == Element::MappingKey,
{
    assert(st.begin_key(first).text + Seq::<char>::empty() + s =~= st.begin_key(first).text + s);
}

} // verus!
