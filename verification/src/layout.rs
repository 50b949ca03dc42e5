//! The model of the layout state machine.

use vstd::prelude::*;

verus! {

/// The kind of the token that was emitted last.
#[derive(Clone, Copy, Debug, PartialEq, Eq, Structural)]
pub enum Element {
    /// The dash that opens a sequence entry.
    SequenceEntry,
    /// A mapping key is about to be emitted.
    PreMappingKey,
    /// A mapping key has been emitted.
    MappingKey,
    /// A scalar.
    Literal,
    /// Nothing yet, or a nested scope has just been left.
    Nothing,
}

/// `n` spaces.
pub open spec fn spaces(n: nat) -> Seq<char> {
    Seq::new(n, |i: int| ' ')
}

/// What an emitter has done so far: the text it has written, how deeply it
/// is nested, and the kind of its last token. `reliable` says of its sink
/// that it takes every write.
pub struct State {
    pub text: Seq<char>,
    pub depth: nat,
    pub last: Element,
    pub reliable: bool,
}

impl State {
    /// The state of a fresh emitter on a sink that holds `text`.
    pub open spec fn initial(text: Seq<char>, reliable: bool) -> State {
        State { text, depth: 0, last: Element::Nothing, reliable }
    }

    /// The state after the raw text `s` has been written.
    pub open spec fn write(self, s: Seq<char>) -> State {
        State { text: self.text + s, ..self }
    }

    /// The separator that goes before a token of kind `next`.
    pub open spec fn separator(self, next: Element) -> Seq<char> {
        match (self.last, next) {
            (Element::SequenceEntry, _) => seq![' '],
            (Element::MappingKey, Element::Literal) => seq![' '],
            (Element::PreMappingKey, Element::Literal) => Seq::empty(),
            (Element::Literal, Element::MappingKey) => Seq::empty(),
            (Element::Nothing, _) => spaces(2 * self.depth),
            _ => seq!['\n'] + spaces(2 * self.depth),
        }
    }

    /// The kind that is recorded once a token of kind `next` is announced: a
    /// scalar that follows the announcement of a mapping key is that key.
    pub open spec fn classify(self, next: Element) -> Element {
        if self.last == Element::PreMappingKey && next == Element::Literal {
            Element::MappingKey
        } else {
            next
        }
    }

    /// The state after a token of kind `next` has been announced.
    pub open spec fn indent(self, next: Element) -> State {
        State { text: self.text + self.separator(next), last: self.classify(next), ..self }
    }

    /// The state after a nested scope has been entered.
    pub open spec fn enter(self) -> State {
        State { depth: self.depth + 1, ..self }
    }

    /// The state after a nested scope has been left.
    pub open spec fn leave(self) -> State {
        State { depth: (self.depth - 1) as nat, last: Element::Nothing, ..self }
    }

    /// The state after the line break that parts a member of a container
    /// from the one before it: none before the first.
    pub open spec fn next_member(self, first: bool) -> State {
        if first {
            self
        } else {
            self.write(seq!['\n'])
        }
    }

    /// The state in which the value of a sequence entry is emitted: the
    /// dash stands, and the scope of the entry is entered.
    pub open spec fn begin_element(self, first: bool) -> State {
        self.next_member(first).indent(Element::SequenceEntry).write(seq!['-']).enter()
    }

    /// The state in which the key of a mapping entry is emitted.
    pub open spec fn begin_key(self, first: bool) -> State {
        self.next_member(first).indent(Element::PreMappingKey)
    }

    /// The state in which the value of a mapping entry is emitted: the
    /// colon stands behind the key, and the scope of the entry is entered.
    pub open spec fn end_key(self) -> State {
        self.enter().write(seq![':'])
    }

    /// The state in which the value of a field named `key` is emitted: the
    /// name and its colon stand, and the scope of the field is entered.
    pub open spec fn begin_field(self, first: bool, key: Seq<char>) -> State {
        self.next_member(first).indent(Element::MappingKey).write(key).write(seq![':']).enter()
    }

    /// The state in which the fields of a struct variant are emitted: the
    /// variant's name and its colon stand as a mapping key, and the scope
    /// of its fields is entered.
    pub open spec fn begin_variant(self, variant: Seq<char>) -> State {
        self.indent(Element::MappingKey).write(variant).write(seq![':']).enter()
    }

    /// The state after a container has been closed: one that never got a
    /// member leaves its marker, `[]` or `{}`.
    pub open spec fn close(self, empty: bool, marker: Seq<char>) -> State {
        if empty {
            self.write(marker)
        } else {
            self
        }
    }

    /// The state after a scalar with the text `s` has been emitted.
    pub open spec fn scalar(self, s: Seq<char>) -> State {
        self.indent(Element::Literal).write(s)
    }
}

} // verus!
