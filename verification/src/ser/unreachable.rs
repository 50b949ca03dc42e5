//! Shapes without a textual form.

use vstd::prelude::*;

use crate::error::Error;

verus! {

/// The members of a tuple struct or a tuple variant. There is no way to
/// write them: the emitter refuses to open either, so it never hands out a
/// value of this type, and nothing else can make one.
pub struct Unreachable {
    never: (),
}

impl Unreachable {
    /// Refuses a member.
    pub fn serialize_field(&mut self) -> (r: Result<(), Error>)
        ensures
            r == Err::<(), Error>(Error::Unsupported),
    {
        Err(Error::Unsupported)
    }

    /// Refuses to close.
    pub fn end(self) -> (r: Result<(), Error>)
        ensures
            r == Err::<(), Error>(Error::Unsupported),
    {
        Err(Error::Unsupported)
    }
}

} // verus!
