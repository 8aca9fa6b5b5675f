//! The transform of a recognizer by a function on its values.

use vstd::prelude::*;
use crate::candidates::{located, within};
use crate::recognizer::Recognizer;

verus! {

/// Whether `function` accepts the value of every candidate in `found`.
pub open spec fn applies_to<T, U, V, F: Fn(&U) -> V>(function: F, found: Seq<(U, Seq<T>)>) -> bool {
    forall|i: int| 0 <= i < found.len() ==> function.requires((&(#[trigger] found[i]).0,))
}

/// Whether `found` is `inner` with `function` applied to the value of every
/// candidate: as many candidates in the same order, each with the leftover
/// that it had and with a value that `function` returns on the one it had.
pub open spec fn images<T, U, V, F: Fn(&U) -> V>(
    function: F,
    inner: Seq<(U, Seq<T>)>,
    found: Seq<(V, Seq<T>)>,
) -> bool {
    &&& found.len() == inner.len()
    &&& forall|i: int|
        0 <= i < inner.len() ==> {
            &&& (#[trigger] found[i]).1 == inner[i].1
            &&& function.ensures((&inner[i].0,), found[i].0)
        }
}

/// Whether what `function` returns on the value of a candidate in `found` is
/// determined by that value.
pub open spec fn determined_on<T, U, V, F: Fn(&U) -> V>(
    function: F,
    found: Seq<(U, Seq<T>)>,
) -> bool {
    forall|i: int, first: V, second: V|
        0 <= i < found.len() && #[trigger] function.ensures((&found[i].0,), first)
            && #[trigger] function.ensures((&found[i].0,), second) ==> first == second
}

/// Recognizes what `inner` recognizes, with `transform` applied to every
/// value.
pub struct Mapped<P, F> {
    pub inner: P,
    pub transform: F,
}

impl<T, U, V, P, F> Recognizer for Mapped<P, F> where
    P: Recognizer<Token = T, Value = U>,
    F: Fn(&U) -> V,
 {
    type Token = T;

    type Value = V;

    open spec fn accepts(&self, input: Seq<T>) -> bool {
        &&& self.inner.accepts(input)
        &&& forall|inner: Seq<(U, Seq<T>)>| #[trigger]
            self.inner.yields(input, inner) ==> applies_to(self.transform, inner)
    }

    open spec fn yields(&self, input: Seq<T>, found: Seq<(V, Seq<T>)>) -> bool {
        exists|inner: Seq<(U, Seq<T>)>| #[trigger]
            self.inner.yields(input, inner) && images(self.transform, inner, found)
    }

    fn run(&self, input: &[T], start: usize) -> (found: Vec<(V, usize)>) {
        let inner = self.inner.run(input, start);
        let ghost matched = located(inner@, input@);
        let mut found: Vec<(V, usize)> = Vec::new();
        let mut i: usize = 0;
        while i < inner.len()
            invariant
                i <= inner.len(),
                found.len() == i,
                within(inner@, start, input@.len()),
                matched == located(inner@, input@),
                applies_to(self.transform, matched),
                forall|j: int|
                    0 <= j < i ==> {
                        &&& (#[trigger] found[j]).1 == inner[j].1
                        &&& self.transform.ensures((&inner[j].0,), found[j].0)
                    },
            decreases inner.len() - i,
        {
            assert(matched[i as int].0 == inner[i as int].0);
            let value = (self.transform)(&inner[i].0);
            found.push((value, inner[i].1));
            i += 1;
        }
        assert(images(self.transform, matched, located(found@, input@)));
        found
    }

    proof fn lemma_leftovers(&self, input: Seq<T>, found: Seq<(V, Seq<T>)>) {
        let inner = choose|inner: Seq<(U, Seq<T>)>| #[trigger]
            self.inner.yields(input, inner) && images(self.transform, inner, found);
        self.inner.lemma_leftovers(input, inner);
    }
}

} // verus!
