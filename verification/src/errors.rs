//! Diagnostics of the engine.
//!
//! Every failure the engine can detect is reported through one of these
//! variants; once an occurrence is accepted, nothing here can surface at the
//! run time of the emitted code.

use vstd::prelude::*;

verus! {

/// A rejection of one occurrence.
#[derive(Debug, PartialEq)]
pub enum EngineError {
    /// The surface form is malformed; `position` is a token index at or
    /// before which parsing stopped.
    Syntax { position: usize },
    /// A field list names `name` twice; `position` is the index, in source
    /// order, of the second occurrence.
    DuplicateField { name: Vec<u8>, position: usize },
    /// At some canonical position a site expected one field name and the
    /// record supplies another.
    NameMismatch { expected: Vec<u8>, found: Vec<u8> },
    /// A named call supplies no field for the parameter `name`.
    MissingArgument { name: Vec<u8> },
    /// A named call supplies the field `name` that no parameter declares.
    ExtraArgument { name: Vec<u8> },
}

} // verus!
