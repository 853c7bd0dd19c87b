//! The faults the engine reports.
//!
//! Every fault is fatal to the generation run: the derived artifacts are
//! produced whole or not at all.
use vstd::prelude::*;

verus! {

/// A fault while parsing, resolving or rendering a token document.
#[derive(Debug, PartialEq, Eq)]
pub enum Error {
    /// The raw value text matches no form of the expression grammar; holds
    /// the offending text.
    Parse(String),
    /// A reference path does not lead to a token; holds the path.
    Lookup(Vec<String>),
    /// Arithmetic between different value kinds, an extension transform on
    /// a non-color value, or an extension the engine does not know.
    TypeMismatch,
    /// Reference resolution ran into a cycle.
    Cycle,
    /// A composite token was used where a single value is needed.
    CompositeScalar,
    /// A numeric result does not fit the engine's decimal representation.
    Overflow,
    /// Division of a number by zero.
    DivideByZero,
}

/// The mathematical image of an [`Error`].
pub enum SpecError {
    Parse(Seq<char>),
    Lookup(Seq<Seq<char>>),
    TypeMismatch,
    Cycle,
    CompositeScalar,
    Overflow,
    DivideByZero,
}

impl View for Error {
    type V = SpecError;

    open spec fn view(&self) -> SpecError {
        match self {
            Error::Parse(s) => SpecError::Parse(s@),
            Error::Lookup(p) => SpecError::Lookup(p@.map(|i: int, s: String| s@)),
            Error::TypeMismatch => SpecError::TypeMismatch,
            Error::Cycle => SpecError::Cycle,
            Error::CompositeScalar => SpecError::CompositeScalar,
            Error::Overflow => SpecError::Overflow,
            Error::DivideByZero => SpecError::DivideByZero,
        }
    }
}

} // verus!
