//! Error kinds reported by the measurement engine.
//!
//! Derivations that merely lack data (no scale bound, no geometry yet) return
//! `None` instead of an error; these kinds cover invalid user input.

use vstd::prelude::*;

verus! {

/// What went wrong, with a short description of the offending field.
#[derive(Debug, Clone)]
pub enum TakeoffError {
    /// A scale definition with a non-positive pixel or real distance.
    InvalidScale { detail: String },
    /// A unit string that is not one of the recognized tokens.
    UnknownUnit { input: String },
    /// An operation that needs more geometry than the value holds.
    EmptyGeometry { what: String },
    /// A parameter outside its admissible range.
    OutOfRange { what: String },
}

impl TakeoffError {
    /// A short description of the error, for hosts that surface messages.
    pub fn message(&self) -> (r: &String)
        ensures
            r@ == match self {
                TakeoffError::InvalidScale { detail } => detail@,
                TakeoffError::UnknownUnit { input } => input@,
                TakeoffError::EmptyGeometry { what } => what@,
                TakeoffError::OutOfRange { what } => what@,
            },
    {
        match self {
            TakeoffError::InvalidScale { detail } => detail,
            TakeoffError::UnknownUnit { input } => input,
            TakeoffError::EmptyGeometry { what } => what,
            TakeoffError::OutOfRange { what } => what,
        }
    }

    /// True for the `InvalidScale` variant.
    pub fn is_invalid_scale(&self) -> (r: bool)
        ensures
            r == (self is InvalidScale),
    {
        matches!(self, TakeoffError::InvalidScale { .. })
    }

    /// True for the `UnknownUnit` variant.
    pub fn is_unknown_unit(&self) -> (r: bool)
        ensures
            r == (self is UnknownUnit),
    {
        matches!(self, TakeoffError::UnknownUnit { .. })
    }

    /// True for the `EmptyGeometry` variant.
    pub fn is_empty_geometry(&self) -> (r: bool)
        ensures
            r == (self is EmptyGeometry),
    {
        matches!(self, TakeoffError::EmptyGeometry { .. })
    }

    /// True for the `OutOfRange` variant.
    pub fn is_out_of_range(&self) -> (r: bool)
        ensures
            r == (self is OutOfRange),
    {
        matches!(self, TakeoffError::OutOfRange { .. })
    }
}

} // verus!
