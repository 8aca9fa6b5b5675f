//! The mathematical model of candidate sets.
//!
//! A candidate is a pair of a produced value and the input that is left
//! unconsumed. A candidate set is the ordered sequence of candidates that a
//! recognizer produces on one input.

use vstd::prelude::*;
use crate::error::ParseError;

verus! {

/// The candidate set of the recognizer of the single token `expected`:
/// one candidate when `input` begins with that token, none otherwise.
pub open spec fn single<T>(expected: T, input: Seq<T>) -> Seq<(T, Seq<T>)> {
    if input.len() > 0 && input[0] == expected {
        seq![(expected, input.skip(1))]
    } else {
        Seq::empty()
    }
}

/// The union of two candidate sets: the candidates of `second`, then those
/// of `first`. With the last candidate selected, `first` has precedence.
pub open spec fn joined<T, U>(first: Seq<(U, Seq<T>)>, second: Seq<(U, Seq<T>)>) -> Seq<
    (U, Seq<T>),
> {
    second + first
}

/// The result that a candidate set stands for: the value of its last
/// candidate, provided that candidate leaves no input.
pub open spec fn selected<T, U>(found: Seq<(U, Seq<T>)>) -> Result<U, ParseError> {
    if found.len() == 0 {
        Err(ParseError::NoParse)
    } else if found.last().1.len() > 0 {
        Err(ParseError::IncompleteParse)
    } else {
        Ok(found.last().0)
    }
}

/// The candidate set that a list of values and positions denotes over
/// `input`: a position stands for the input from that position on.
pub open spec fn located<T, U>(found: Seq<(U, usize)>, input: Seq<T>) -> Seq<(U, Seq<T>)> {
    found.map_values(|entry: (U, usize)| (entry.0, input.skip(entry.1 as int)))
}

/// Whether every position in `found` lies between `start` and the end of an
/// input of length `len`.
pub open spec fn within<U>(found: Seq<(U, usize)>, start: usize, len: nat) -> bool {
    forall|i: int| 0 <= i < found.len() ==> start <= (#[trigger] found[i]).1 <= len
}

/// Whether every leftover in `found` is a trailing part of `input`.
pub open spec fn trailing<T, U>(found: Seq<(U, Seq<T>)>, input: Seq<T>) -> bool {
    forall|i: int| 0 <= i < found.len() ==> (#[trigger] found[i]).1.is_suffix_of(input)
}

/// Leftovers of a trailing part of `input` are trailing parts of `input`.
pub proof fn lemma_trailing_of_trailing<T, U>(
    found: Seq<(U, Seq<T>)>,
    rest: Seq<T>,
    input: Seq<T>,
)
    requires
        trailing(found, rest),
        rest.is_suffix_of(input),
    ensures
        trailing(found, input),
{
    assert forall|i: int| 0 <= i < found.len() implies (#[trigger] found[i]).1.is_suffix_of(
        input,
    ) by {
        assert(found[i].1.is_suffix_of(rest));
    }
}

/// Candidate sets laid end to end keep their leftovers trailing.
pub proof fn lemma_flatten_trailing<T, U>(parts: Seq<Seq<(U, Seq<T>)>>, input: Seq<T>)
    requires
        forall|i: int| 0 <= i < parts.len() ==> trailing(#[trigger] parts[i], input),
    ensures
        trailing(parts.flatten(), input),
    decreases parts.len(),
{
    if parts.len() > 0 {
        let front = parts.drop_last();
        assert forall|i: int| 0 <= i < front.len() implies trailing(#[trigger] front[i], input) by {
            assert(front[i] == parts[i]);
        }
        lemma_flatten_trailing(front, input);
        assert(parts == front.push(parts.last()));
        front.lemma_flatten_push(parts.last());
        assert(trailing(parts.last(), input));
    }
}

} // verus!
