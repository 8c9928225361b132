pub mod area_of_study;
pub mod decimal;
pub mod filter;
pub mod laws;
pub mod requirement;
pub mod rule;
pub mod rules;
pub mod student;
pub mod text;
pub mod value;

use vstd::prelude::*;

verus! {

/// Errors raised while parsing the filter-clause expression grammar.
///
/// These are local to one clause: a caller rejects the offending text and
/// goes on with the rest of the document.
#[derive(Debug, PartialEq, Eq, Structural, Clone, Copy)]
pub enum ParseError {
    /// The operator/value split of a tagged value was malformed.
    InvalidAction,
    /// A constant token was not part of the closed vocabulary.
    UnknownCommand,
}

/// Errors raised by the renderers for tree shapes that a well-formed rule
/// tree can never take: they mark a contract broken upstream, not bad user
/// input.
#[derive(Debug, PartialEq, Eq, Structural, Clone, Copy)]
pub enum RenderError {
    /// A shape the renderers hold impossible, such as a three-child mixed
    /// list that is not two of one kind and one of the other.
    UnreachableShape,
}

} // verus!
