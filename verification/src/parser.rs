//! Parsers: recognizers together with the entry operation.

use vstd::prelude::*;
use crate::candidates::{joined, located, selected, single};
use crate::choice::{Alternative, Combined};
use crate::error::ParseError;
use crate::primitive::One;
use crate::recognizer::Recognizer;
use crate::sequence::{continues_on, follows_each, Bound};
use crate::token::Token;
use crate::transform::{applies_to, images, Mapped};

verus! {

/// A parser for a grammar fragment: a recognizer, to be combined with others
/// or run against an input.
pub struct Parser<R> {
    pub recognizer: R,
}

impl<T, U, R: Recognizer<Token = T, Value = U>> Parser<R> {
    /// Whether this parser can be run on `input`: every function that the
    /// run applies accepts the argument it is given there.
    #[verifier::inline]
    pub open spec fn accepts(&self, input: Seq<T>) -> bool {
        self.recognizer.accepts(input)
    }

    /// Whether `found` is a candidate set of this parser on `input`.
    #[verifier::inline]
    pub open spec fn yields(&self, input: Seq<T>, found: Seq<(U, Seq<T>)>) -> bool {
        self.recognizer.yields(input, found)
    }

    /// Whether `result` is what this parser makes of `input`: what is
    /// selected from a candidate set of it on `input`.
    pub open spec fn parses(&self, input: Seq<T>, result: Result<U, ParseError>) -> bool {
        exists|found: Seq<(U, Seq<T>)>| #[trigger]
            self.yields(input, found) && result == selected(found)
    }

    /// Whether this parser has at most one candidate set on `input`.
    pub open spec fn determined(&self, input: Seq<T>) -> bool {
        forall|found: Seq<(U, Seq<T>)>, other: Seq<(U, Seq<T>)>|
            #[trigger] self.yields(input, found) && #[trigger] self.yields(input, other)
                ==> found == other
    }

    /// Runs the parser against the whole of `input`. The last candidate is
    /// the one that counts: its value is returned if it left no input. With
    /// no candidate at all there is no parse, and with input left the parse
    /// is incomplete.
    pub fn parse(&self, input: &[T]) -> (result: Result<U, ParseError>)
        requires
            self.accepts(input@),
        ensures
            self.parses(input@, result),
    {
        assert(input@.skip(0) == input@);
        let mut found = self.recognizer.run(input, 0);
        assert(self.yields(input@, located(found@, input@)));
        match found.pop() {
            None => Err(ParseError::NoParse),
            Some((value, position)) => {
                if position < input.len() {
                    Err(ParseError::IncompleteParse)
                } else {
                    Ok(value)
                }
            },
        }
    }

    /// `map` as a value in specifications.
    pub open spec fn spec_map<V, F: Fn(&U) -> V>(self, transform: F) -> Parser<Mapped<R, F>> {
        Parser { recognizer: Mapped { inner: self.recognizer, transform } }
    }

    /// The parser that matches what `self` matches and produces
    /// `transform` of each value: as many candidates in the same order, each
    /// with the leftover that it had.
    ///
    /// It can be run where `self` can and `transform` accepts the values
    /// that `self` produces.
    #[verifier::when_used_as_spec(spec_map)]
    pub fn map<V, F: Fn(&U) -> V>(self, transform: F) -> (parser: Parser<Mapped<R, F>>)
        ensures
            parser == self.spec_map(transform),
            forall|input: Seq<T>| #[trigger]
                parser.accepts(input) <==> {
                    &&& self.accepts(input)
                    &&& forall|inner: Seq<(U, Seq<T>)>| #[trigger]
                        self.yields(input, inner) ==> applies_to(transform, inner)
                },
            forall|input: Seq<T>, found: Seq<(V, Seq<T>)>| #[trigger]
                parser.yields(input, found) <==> exists|inner: Seq<(U, Seq<T>)>| #[trigger]
                    self.yields(input, inner) && images(transform, inner, found),
    {
        assert(self.spec_map(transform).recognizer.inner == self.recognizer);
        Parser { recognizer: Mapped { inner: self.recognizer, transform } }
    }
}

impl<T: Token> Parser<One<T>> {
    /// `one` as a value in specifications.
    pub open spec fn spec_one(token: T) -> Self {
        Parser { recognizer: One { expected: token } }
    }

    /// The parser that matches the single token `token` and produces it: on
    /// an input that begins with `token` it has one candidate, `token` with
    /// the rest of the input, and on any other input none.
    ///
    /// It can be run on every input.
    #[verifier::when_used_as_spec(spec_one)]
    pub fn one(token: T) -> (parser: Self)
        ensures
            parser == Self::spec_one(token),
            forall|input: Seq<T>| #[trigger] parser.accepts(input),
            forall|input: Seq<T>, found: Seq<(T, Seq<T>)>| #[trigger]
                parser.yields(input, found) <==> found == single(token, input),
    {
        Parser { recognizer: One { expected: token } }
    }
}

impl<T, U, P, Q> Parser<Combined<P, Q>> where
    U: Copy,
    P: Recognizer<Token = T, Value = U>,
    Q: Recognizer<Token = T, Value = U>,
 {
    /// `combine` as a value in specifications.
    pub open spec fn spec_combine(first: Parser<P>, second: Parser<Q>) -> Self {
        Parser { recognizer: Combined { first: first.recognizer, second: second.recognizer } }
    }

    /// The parser that runs both `first` and `second` on the same input and
    /// unites their candidates, those of `second` ahead of those of `first`.
    /// With the last candidate selected, `first` wins wherever it has a
    /// candidate.
    ///
    /// It can be run where both `first` and `second` can.
    #[verifier::when_used_as_spec(spec_combine)]
    pub fn combine(first: Parser<P>, second: Parser<Q>) -> (parser: Self)
        ensures
            parser == Self::spec_combine(first, second),
            forall|input: Seq<T>| #[trigger]
                parser.accepts(input) <==> first.accepts(input) && second.accepts(input),
            forall|input: Seq<T>, found: Seq<(U, Seq<T>)>| #[trigger]
                parser.yields(input, found) <==> exists|
                    preferred: Seq<(U, Seq<T>)>,
                    other: Seq<(U, Seq<T>)>,
                |
                    {
                        &&& #[trigger] first.yields(input, preferred)
                        &&& #[trigger] second.yields(input, other)
                        &&& found == joined(preferred, other)
                    },
    {
        assert(Self::spec_combine(first, second).recognizer.first == first.recognizer);
        assert(Self::spec_combine(first, second).recognizer.second == second.recognizer);
        Parser { recognizer: Combined { first: first.recognizer, second: second.recognizer } }
    }
}

impl<T, U, P, Q> Parser<Alternative<P, Q>> where
    U: Copy,
    P: Recognizer<Token = T, Value = U>,
    Q: Recognizer<Token = T, Value = U>,
 {
    /// `option` as a value in specifications.
    pub open spec fn spec_option(first: Parser<P>, second: Parser<Q>) -> Self {
        Parser {
            recognizer: Alternative { first: first.recognizer, second: second.recognizer },
        }
    }

    /// The parser that runs `first` and returns its candidates unchanged if
    /// there are any, and only otherwise runs `second` and returns its
    /// candidates.
    ///
    /// It can be run where `first` can and, in case `first` has no candidate
    /// there, `second` can too: where `first` has a candidate, `second` is
    /// not run.
    #[verifier::when_used_as_spec(spec_option)]
    pub fn option(first: Parser<P>, second: Parser<Q>) -> (parser: Self)
        ensures
            parser == Self::spec_option(first, second),
            forall|input: Seq<T>| #[trigger]
                parser.accepts(input) <==> {
                    &&& first.accepts(input)
                    &&& forall|preferred: Seq<(U, Seq<T>)>|
                        #[trigger] first.yields(input, preferred) && preferred.len() == 0
                            ==> second.accepts(input)
                },
            forall|input: Seq<T>, found: Seq<(U, Seq<T>)>| #[trigger]
                parser.yields(input, found) <==> exists|preferred: Seq<(U, Seq<T>)>|
                    {
                        &&& #[trigger] first.yields(input, preferred)
                        &&& if preferred.len() > 0 {
                            found == preferred
                        } else {
                            second.yields(input, found)
                        }
                    },
    {
        assert(Self::spec_option(first, second).recognizer.first == first.recognizer);
        assert(Self::spec_option(first, second).recognizer.second == second.recognizer);
        Parser { recognizer: Alternative { first: first.recognizer, second: second.recognizer } }
    }
}

impl<T, U, V, P, F, Q> Parser<Bound<P, F>> where
    U: Copy,
    P: Recognizer<Token = T, Value = U>,
    F: Fn(U) -> Parser<Q>,
    Q: Recognizer<Token = T, Value = V>,
 {
    /// `bind` as a value in specifications.
    pub open spec fn spec_bind(first: Parser<P>, next: F) -> Self {
        Parser { recognizer: Bound { first: first.recognizer, next } }
    }

    /// The parser that runs `first` and then, for each of its candidates in
    /// order, the parser that `next` returns for the candidate's value, on
    /// what the candidate left. Its candidates are those of the parsers run
    /// after `first`, one candidate set after the other.
    ///
    /// It can be run where `first` can, `next` accepts the values that
    /// `first` produces, and each parser that `next` returns can be run on
    /// what was left.
    #[verifier::when_used_as_spec(spec_bind)]
    pub fn bind(first: Parser<P>, next: F) -> (parser: Self)
        ensures
            parser == Self::spec_bind(first, next),
            forall|input: Seq<T>| #[trigger]
                parser.accepts(input) <==> {
                    &&& first.accepts(input)
                    &&& forall|outer: Seq<(U, Seq<T>)>| #[trigger]
                        first.yields(input, outer) ==> continues_on(next, outer)
                },
            forall|input: Seq<T>, found: Seq<(V, Seq<T>)>| #[trigger]
                parser.yields(input, found) <==> exists|
                    outer: Seq<(U, Seq<T>)>,
                    parts: Seq<Seq<(V, Seq<T>)>>,
                |
                    {
                        &&& #[trigger] first.yields(input, outer)
                        &&& #[trigger] follows_each(next, outer, parts)
                        &&& found == parts.flatten()
                    },
    {
        assert(Self::spec_bind(first, next).recognizer.first == first.recognizer);
        assert(Self::spec_bind(first, next).recognizer.next == next);
        Parser { recognizer: Bound { first: first.recognizer, next } }
    }
}

} // verus!
