//! A fixed-dimension exact linear-algebra engine and the 2D collision
//! module built on top of it.
//!
//! Scalars are exact rational numbers ([`rat::Rat`]), so every identity the
//! contracts state holds exactly, with no rounding. Overflow of the
//! underlying machine integers is either excluded by a precondition or
//! reported through a typed error, never silent.

use vstd::prelude::*;

pub mod collision;
pub mod matrix;
pub mod rat;

verus! {

/// The failures the library reports.
///
/// Every other computation is total: it cannot fail on inputs that satisfy
/// its precondition.
#[derive(Clone, Copy, Debug, PartialEq, Eq)]
pub enum Error {
    /// Dynamically sized input whose shape disagrees with the declared
    /// dimensions.
    DimensionMismatch,
    /// A closed-form computation would divide by zero; detected before the
    /// division, never discovered through a poisoned result.
    DegenerateGeometry,
    /// A shape pair whose collision algorithm is not provided.
    UnsupportedOperation,
    /// An exact result whose reduced representation does not fit the
    /// machine scalars.
    NumericOverflow,
}

/// State of the interactive demo shell. The terminal loop that drives it
/// lives in the companion binary; the library side carries no data yet.
pub struct State {}

impl State {
    /// A fresh shell state.
    pub fn new() -> (s: State)
        ensures
            s == (State {  }),
    {
        State {  }
    }
}

} // verus!

