//! The primitive recognizer: a match of one token.

use vstd::prelude::*;
use crate::candidates::{located, single};
use crate::recognizer::Recognizer;
use crate::token::Token;

verus! {

/// Recognizes the token `expected` at the front of the input.
pub struct One<T> {
    pub expected: T,
}

impl<T: Token> Recognizer for One<T> {
    type Token = T;

    type Value = T;

    open spec fn accepts(&self, input: Seq<T>) -> bool {
        true
    }

    open spec fn yields(&self, input: Seq<T>, found: Seq<(T, Seq<T>)>) -> bool {
        found == single(self.expected, input)
    }

    fn run(&self, input: &[T], start: usize) -> (found: Vec<(T, usize)>) {
        let mut found: Vec<(T, usize)> = Vec::new();
        if start < input.len() && input[start].same(&self.expected) {
            found.push((self.expected, start + 1));
            assert(input@.skip(start as int).skip(1) == input@.skip(start + 1));
        }
        assert(located(found@, input@) == single(self.expected, input@.skip(start as int)));
        found
    }

    proof fn lemma_leftovers(&self, input: Seq<T>, found: Seq<(T, Seq<T>)>) {
    }
}

} // verus!
