//! Sequencing: a recognizer followed by one that is chosen by its value.

use vstd::prelude::*;
use crate::candidates::{
    lemma_flatten_trailing,
    lemma_trailing_of_trailing,
    located,
    trailing,
    within,
};
use crate::parser::Parser;
use crate::recognizer::Recognizer;

verus! {

/// Whether `next` can be applied to the value of every candidate in `found`
/// and returns a parser that can be run on what the candidate left.
pub open spec fn continues_on<T, U, V, Q, F>(next: F, found: Seq<(U, Seq<T>)>) -> bool where
    Q: Recognizer<Token = T, Value = V>,
    F: Fn(U) -> Parser<Q>,
 {
    forall|i: int|
        0 <= i < found.len() ==> {
            &&& next.requires(((#[trigger] found[i]).0,))
            &&& forall|parser: Parser<Q>| #[trigger]
                next.ensures((found[i].0,), parser) ==> parser.accepts(found[i].1)
        }
}

/// Whether `part` is a candidate set, on `rest`, of a parser that `next`
/// returns on `value`.
pub open spec fn follows<T, U, V, Q, F>(
    next: F,
    value: U,
    rest: Seq<T>,
    part: Seq<(V, Seq<T>)>,
) -> bool where Q: Recognizer<Token = T, Value = V>, F: Fn(U) -> Parser<Q> {
    exists|parser: Parser<Q>| #[trigger] next.ensures((value,), parser) && parser.yields(rest, part)
}

/// Whether `parts` holds, for each candidate of `found` in order, a
/// candidate set that follows it: one of a parser that `next` returns on the
/// candidate's value, on what the candidate left.
pub open spec fn follows_each<T, U, V, Q, F>(
    next: F,
    found: Seq<(U, Seq<T>)>,
    parts: Seq<Seq<(V, Seq<T>)>>,
) -> bool where Q: Recognizer<Token = T, Value = V>, F: Fn(U) -> Parser<Q> {
    &&& parts.len() == found.len()
    &&& forall|i: int|
        0 <= i < found.len() ==> follows(next, found[i].0, found[i].1, #[trigger] parts[i])
}

/// Whether the parsers that `next` returns on the value of a candidate in
/// `found` are all alike on what the candidate left: each has at most one
/// candidate set there, and what one of them finds there the others find.
pub open spec fn alike_on<T, U, V, Q, F>(next: F, found: Seq<(U, Seq<T>)>) -> bool where
    Q: Recognizer<Token = T, Value = V>,
    F: Fn(U) -> Parser<Q>,
 {
    forall|i: int, first: Parser<Q>, second: Parser<Q>|
        0 <= i < found.len() && #[trigger] next.ensures((found[i].0,), first)
            && #[trigger] next.ensures((found[i].0,), second) ==> {
            &&& first.determined(found[i].1)
            &&& forall|part: Seq<(V, Seq<T>)>| #[trigger]
                second.yields(found[i].1, part) ==> first.yields(found[i].1, part)
        }
}

/// Recognizes what `first` does and then, on each leftover, what the parser
/// does that `next` returns for the value matched.
pub struct Bound<P, F> {
    pub first: P,
    pub next: F,
}

impl<T, U, V, P, F, Q> Recognizer for Bound<P, F> where
    U: Copy,
    P: Recognizer<Token = T, Value = U>,
    F: Fn(U) -> Parser<Q>,
    Q: Recognizer<Token = T, Value = V>,
 {
    type Token = T;

    type Value = V;

    open spec fn accepts(&self, input: Seq<T>) -> bool {
        &&& self.first.accepts(input)
        &&& forall|outer: Seq<(U, Seq<T>)>| #[trigger]
            self.first.yields(input, outer) ==> continues_on(self.next, outer)
    }

    open spec fn yields(&self, input: Seq<T>, found: Seq<(V, Seq<T>)>) -> bool {
        exists|outer: Seq<(U, Seq<T>)>, parts: Seq<Seq<(V, Seq<T>)>>|
            {
                &&& #[trigger] self.first.yields(input, outer)
                &&& #[trigger] follows_each(self.next, outer, parts)
                &&& found == parts.flatten()
            }
    }

    fn run(&self, input: &[T], start: usize) -> (found: Vec<(V, usize)>) {
        let outer = self.first.run(input, start);
        let ghost matched = located(outer@, input@);
        let ghost mut parts: Seq<Seq<(V, Seq<T>)>> = Seq::empty();
        let mut found: Vec<(V, usize)> = Vec::new();
        let mut i: usize = 0;
        assert(located(found@, input@) == parts.flatten());
        while i < outer.len()
            invariant
                i <= outer.len(),
                within(outer@, start, input@.len()),
                matched == located(outer@, input@),
                continues_on(self.next, matched),
                within(found@, start, input@.len()),
                parts.len() == i,
                forall|j: int|
                    0 <= j < i ==> follows(
                        self.next,
                        matched[j].0,
                        matched[j].1,
                        #[trigger] parts[j],
                    ),
                located(found@, input@) == parts.flatten(),
            decreases outer.len() - i,
        {
            let (value, position) = outer[i];
            let ghost rest = input@.skip(position as int);
            assert(matched[i as int] == (value, rest));
            let parser = (self.next)(value);
            let mut inner = parser.recognizer.run(input, position);
            let ghost before = found@;
            let ghost added = inner@;
            found.append(&mut inner);
            proof {
                let part = located(added, input@);
                assert(self.next.ensures((value,), parser) && parser.yields(rest, part));
                assert(located(found@, input@) == located(before, input@) + part);
                parts.lemma_flatten_push(part);
                parts = parts.push(part);
            }
            i += 1;
        }
        assert(follows_each(self.next, matched, parts));
        found
    }

    proof fn lemma_leftovers(&self, input: Seq<T>, found: Seq<(V, Seq<T>)>) {
        let (outer, parts) = choose|outer: Seq<(U, Seq<T>)>, parts: Seq<Seq<(V, Seq<T>)>>|
            {
                &&& #[trigger] self.first.yields(input, outer)
                &&& #[trigger] follows_each(self.next, outer, parts)
                &&& found == parts.flatten()
            };
        self.first.lemma_leftovers(input, outer);
        assert forall|i: int| 0 <= i < parts.len() implies trailing(#[trigger] parts[i], input) by {
            let (value, rest) = outer[i];
            assert(follows(self.next, value, rest, parts[i]));
            let parser = choose|parser: Parser<Q>| #[trigger]
                self.next.ensures((value,), parser) && parser.yields(rest, parts[i]);
            parser.recognizer.lemma_leftovers(rest, parts[i]);
            lemma_trailing_of_trailing(parts[i], rest, input);
        }
        lemma_flatten_trailing(parts, input);
    }
}

} // verus!
