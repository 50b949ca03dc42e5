//! A minimal emitter of indented YAML-style text.
//!
//! A [`Serializer`] writes a document token by token into a [`Sink`]. Before
//! every token it decides what separates the token from the one before: a
//! line break and the indentation, the indentation alone, a single space,
//! or nothing. Sequences, mappings, structs and struct variants are written
//! through adapters that are opened on the serializer, fed member by member
//! and closed; a container that got no member is written as `[]` or `{}`.
//!
//! Everything that is written is stated over a mathematical model of the
//! emitter, [`State`]: each operation has a transition of the model, and the
//! text of a whole [`Value`] is the composition of the transitions of its
//! parts. [`laws`] and [`indentation`] hold what follows for every
//! document; [`failure`] says what a write that fails leaves behind.
//!
//! Floating-point numbers are not formatted here: a caller hands their text
//! to [`Serializer::serialize_literal`].

pub mod decimal;
pub mod error;
pub mod failure;
pub mod indentation;
pub mod laws;
pub mod layout;
pub mod quote;
pub mod ser;
pub mod sink;
pub mod value;

pub use crate::error::Error;
pub use crate::layout::{Element, State};
pub use crate::ser::map::SerializeMap;
pub use crate::ser::sequence::SerializeSeq;
pub use crate::ser::struct_::{SerializeStruct, SerializeStructVariant};
pub use crate::ser::unreachable::Unreachable;
pub use crate::ser::Serializer;
pub use crate::sink::{Recorded, Sink, Write, WriteError};
pub use crate::value::{to_fmt, to_string, Entry, Field, Value};
