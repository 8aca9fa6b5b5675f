//! The ways in which a parse fails.

use vstd::prelude::*;

verus! {

/// Why an input was not parsed.
#[derive(Clone, Copy, Debug, PartialEq, Eq, Structural)]
pub enum ParseError {
    /// The recognizer produced no candidate at all.
    NoParse,
    /// The selected candidate left part of the input unconsumed.
    IncompleteParse,
}

} // verus!
