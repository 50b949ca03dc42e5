//! The failures of an emission.

use vstd::prelude::*;

verus! {

/// Why an emission stopped.
#[derive(Clone, Copy, Debug, PartialEq, Eq, Structural)]
pub enum Error {
    /// The sink refused a write.
    Write,
    /// A byte buffer handed over as text was not valid UTF-8.
    InvalidUtf8,
    /// The value has a shape without a textual form: a tuple struct or a
    /// tuple variant.
    Unsupported,
}

} // verus!
