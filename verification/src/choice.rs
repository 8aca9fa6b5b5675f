//! Alternatives: the union of two recognizers and the ordered choice
//! between them.

use vstd::prelude::*;
use crate::candidates::{joined, located};
use crate::recognizer::Recognizer;

verus! {

/// Recognizes what either of two recognizers does: both are run on the same
/// input, and the candidates of `second` come before those of `first`.
pub struct Combined<P, Q> {
    pub first: P,
    pub second: Q,
}

impl<T, U, P, Q> Recognizer for Combined<P, Q> where
    P: Recognizer<Token = T, Value = U>,
    Q: Recognizer<Token = T, Value = U>,
 {
    type Token = T;

    type Value = U;

    open spec fn accepts(&self, input: Seq<T>) -> bool {
        &&& self.first.accepts(input)
        &&& self.second.accepts(input)
    }

    open spec fn yields(&self, input: Seq<T>, found: Seq<(U, Seq<T>)>) -> bool {
        exists|preferred: Seq<(U, Seq<T>)>, other: Seq<(U, Seq<T>)>|
            {
                &&& #[trigger] self.first.yields(input, preferred)
                &&& #[trigger] self.second.yields(input, other)
                &&& found == joined(preferred, other)
            }
    }

    fn run(&self, input: &[T], start: usize) -> (found: Vec<(U, usize)>) {
        let mut preferred = self.first.run(input, start);
        let mut found = self.second.run(input, start);
        let ghost head = found@;
        let ghost tail = preferred@;
        found.append(&mut preferred);
        assert(located(found@, input@) == joined(located(tail, input@), located(head, input@)));
        found
    }

    proof fn lemma_leftovers(&self, input: Seq<T>, found: Seq<(U, Seq<T>)>) {
        let (preferred, other) = choose|preferred: Seq<(U, Seq<T>)>, other: Seq<(U, Seq<T>)>|
            {
                &&& #[trigger] self.first.yields(input, preferred)
                &&& #[trigger] self.second.yields(input, other)
                &&& found == joined(preferred, other)
            };
        self.first.lemma_leftovers(input, preferred);
        self.second.lemma_leftovers(input, other);
    }
}

/// Recognizes what `first` does and, only where `first` has no candidate,
/// what `second` does. Where `first` has a candidate, `second` is not run,
/// and so need not accept the input.
pub struct Alternative<P, Q> {
    pub first: P,
    pub second: Q,
}

impl<T, U, P, Q> Recognizer for Alternative<P, Q> where
    P: Recognizer<Token = T, Value = U>,
    Q: Recognizer<Token = T, Value = U>,
 {
    type Token = T;

    type Value = U;

    open spec fn accepts(&self, input: Seq<T>) -> bool {
        &&& self.first.accepts(input)
        &&& forall|preferred: Seq<(U, Seq<T>)>|
            #[trigger] self.first.yields(input, preferred) && preferred.len() == 0
                ==> self.second.accepts(input)
    }

    open spec fn yields(&self, input: Seq<T>, found: Seq<(U, Seq<T>)>) -> bool {
        exists|preferred: Seq<(U, Seq<T>)>|
            {
                &&& #[trigger] self.first.yields(input, preferred)
                &&& if preferred.len() > 0 {
                    found == preferred
                } else {
                    self.second.yields(input, found)
                }
            }
    }

    fn run(&self, input: &[T], start: usize) -> (found: Vec<(U, usize)>) {
        let preferred = self.first.run(input, start);
        if preferred.len() == 0 {
            self.second.run(input, start)
        } else {
            preferred
        }
    }

    proof fn lemma_leftovers(&self, input: Seq<T>, found: Seq<(U, Seq<T>)>) {
        let preferred = choose|preferred: Seq<(U, Seq<T>)>|
            {
                &&& #[trigger] self.first.yields(input, preferred)
                &&& if preferred.len() > 0 {
                    found == preferred
                } else {
                    self.second.yields(input, found)
                }
            };
        self.first.lemma_leftovers(input, preferred);
        if preferred.len() == 0 {
            self.second.lemma_leftovers(input, found);
        }
    }
}

} // verus!
