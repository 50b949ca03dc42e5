//! Where the emitted text goes.

use vstd::prelude::*;
use vstd::string::*;

use crate::error::Error;

verus! {

/// The one failure a writer can signal.
#[derive(Clone, Copy, Debug, PartialEq, Eq, Structural)]
pub struct WriteError;

/// A destination for text about which nothing is known: a formatter, a
/// device, a fixed buffer. Each call either takes the whole piece or fails.
pub trait Write {
    /// Takes `s`, or fails.
    fn write_str(&mut self, s: &str) -> Result<(), WriteError>;

    /// Takes `c`, or fails.
    fn write_char(&mut self, c: char) -> Result<(), WriteError>;
}

/// A destination for text whose content is known: a string in memory, or
/// a [`Write`] with a record of what it took.
pub trait Sink {
    /// The text that the sink has taken so far.
    spec fn text(&self) -> Seq<char>;

    /// Whether the sink takes every write. An in-memory string does; a
    /// device may not.
    spec fn reliable(&self) -> bool;

    /// Appends `s`, or takes nothing of it and fails with
    /// [`Error::Write`].
    fn write_str(&mut self, s: &str) -> (r: Result<(), Error>)
        ensures
            final(self).reliable() == old(self).reliable(),
            old(self).reliable() ==> r is Ok,
            r is Ok ==> final(self).text() == old(self).text() + s@,
            r is Err ==> r == Err::<(), Error>(Error::Write),
            r is Err ==> final(self).text() == old(self).text(),
    ;

    /// Appends `c`, or takes nothing and fails with [`Error::Write`].
    fn write_char(&mut self, c: char) -> (r: Result<(), Error>)
        ensures
            final(self).reliable() == old(self).reliable(),
            old(self).reliable() ==> r is Ok,
            r is Ok ==> final(self).text() == old(self).text().push(c),
            r is Err ==> r == Err::<(), Error>(Error::Write),
            r is Err ==> final(self).text() == old(self).text(),
    ;
}

/// `String::push`: appends one character to the end of the string.
#[verifier::external_body]
fn push_char(s: &mut String, c: char)
    ensures
        final(s)@ == old(s)@.push(c),
{
    s.push(c)
}

impl Sink for String {
    open spec fn text(&self) -> Seq<char> {
        self@
    }

    open spec fn reliable(&self) -> bool {
        true
    }

    fn write_str(&mut self, s: &str) -> (r: Result<(), Error>) {
        self.append(s);
        Ok(())
    }

    fn write_char(&mut self, c: char) -> (r: Result<(), Error>) {
        push_char(self, c);
        Ok(())
    }
}

/// A [`Write`] together with a ghost record of every piece it has taken.
///
/// The record is what makes an opaque writer a [`Sink`]: its text is the
/// concatenation of the writes that succeeded, in order.
pub struct Recorded<W: Write> {
    writer: W,
    taken: Ghost<Seq<char>>,
}

impl<W: Write> Recorded<W> {
    /// The writer that the record is kept of.
    pub closed spec fn inner(&self) -> W {
        self.writer
    }

    /// Wraps `writer` with an empty record.
    pub fn new(writer: W) -> (r: Self)
        ensures
            r.inner() == writer,
            r.text() == Seq::<char>::empty(),
            !r.reliable(),
    {
        Recorded { writer, taken: Ghost(Seq::empty()) }
    }

    /// Gives the writer back, as the writes have left it.
    pub fn into_inner(self) -> (w: W)
        ensures
            w == self.inner(),
    {
        self.writer
    }
}

impl<W: Write> Sink for Recorded<W> {
    closed spec fn text(&self) -> Seq<char> {
        self.taken@
    }

    open spec fn reliable(&self) -> bool {
        false
    }

    fn write_str(&mut self, s: &str) -> (r: Result<(), Error>) {
        match self.writer.write_str(s) {
            Ok(()) => {
                proof {
                    self.taken@ = self.taken@ + s@;
                }
                Ok(())
            },
            Err(_) => Err(Error::Write),
        }
    }

    fn write_char(&mut self, c: char) -> (r: Result<(), Error>) {
        match self.writer.write_char(c) {
            Ok(()) => {
                proof {
                    self.taken@ = self.taken@.push(c);
                }
                Ok(())
            },
            Err(_) => Err(Error::Write),
        }
    }
}

} // verus!
