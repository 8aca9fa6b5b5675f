//! The recognizer abstraction.

use vstd::prelude::*;
use crate::candidates::{located, trailing, within};

verus! {

/// A recognizer: an immutable value that stands for a pure function from an
/// input sequence to a candidate set.
///
/// A recognizer may hold functions, and a function is known by its contract
/// alone. What a recognizer does is therefore given by two predicates: on
/// which inputs it can be run at all, and which candidate sets a run on an
/// input may return. A recognizer that holds no function, or only functions
/// whose contracts determine their results, has one candidate set on each
/// input.
pub trait Recognizer {
    /// The units of input.
    type Token;

    /// What a match produces.
    type Value;

    /// Whether this recognizer can be run on `input`: every function that
    /// the run applies accepts the argument it is given there.
    spec fn accepts(&self, input: Seq<Self::Token>) -> bool;

    /// Whether `found` is a candidate set of this recognizer on `input`.
    spec fn yields(
        &self,
        input: Seq<Self::Token>,
        found: Seq<(Self::Value, Seq<Self::Token>)>,
    ) -> bool;

    /// Computes the candidate set on the part of `input` from `start` on.
    /// Each leftover is given as the position in `input` at which it begins.
    fn run(&self, input: &[Self::Token], start: usize) -> (found: Vec<(Self::Value, usize)>)
        requires
            start <= input.len(),
            self.accepts(input@.skip(start as int)),
        ensures
            within(found@, start, input@.len()),
            self.yields(input@.skip(start as int), located(found@, input@)),
    ;

    /// A recognizer neither makes up tokens nor reorders them: what a
    /// candidate leaves is a trailing part of the input.
    proof fn lemma_leftovers(
        &self,
        input: Seq<Self::Token>,
        found: Seq<(Self::Value, Seq<Self::Token>)>,
    )
        requires
            self.yields(input, found),
        ensures
            trailing(found, input),
    ;
}

} // verus!
