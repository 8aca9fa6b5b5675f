//! What holds of every parser, whatever it is built from.

use vstd::prelude::*;
use crate::candidates::{selected, single, trailing};
use crate::error::ParseError;
use crate::parser::Parser;
use crate::recognizer::Recognizer;
use crate::sequence::{alike_on, follows, follows_each};
use crate::token::Token;
use crate::transform::{determined_on, images};

verus! {

/// Whether `result` is `inner` with `function` applied to what was parsed:
/// a value gives a value that `function` returns on it, a failure stays as
/// it is.
pub open spec fn result_image<U, V, F: Fn(&U) -> V>(
    function: F,
    inner: Result<U, ParseError>,
    result: Result<V, ParseError>,
) -> bool {
    match inner {
        Ok(value) => result matches Ok(image) && function.ensures((&value,), image),
        Err(error) => result == Err::<V, ParseError>(error),
    }
}

/// Whether `function` returns its argument, whatever it is applied to.
pub open spec fn is_identity<U, F: Fn(&U) -> U>(function: F) -> bool {
    forall|argument: U, value: U| #[trigger]
        function.ensures((&argument,), value) ==> value == argument
}

/// Whether `found` is `inner` with `function` and then `after` applied to
/// the value of every candidate.
pub open spec fn images_twice<T, U, V, W, F: Fn(&U) -> V, G: Fn(&V) -> W>(
    function: F,
    after: G,
    inner: Seq<(U, Seq<T>)>,
    found: Seq<(W, Seq<T>)>,
) -> bool {
    &&& found.len() == inner.len()
    &&& forall|i: int|
        0 <= i < inner.len() ==> {
            &&& (#[trigger] found[i]).1 == inner[i].1
            &&& exists|middle: V| #[trigger]
                function.ensures((&inner[i].0,), middle) && after.ensures(
                    (&middle,),
                    found[i].0,
                )
        }
}

/// The parser of one token parses exactly the input that consists of that
/// token. It leaves a longer input that begins with the token incomplete,
/// and has no parse of the empty input nor of another token.
pub proof fn law_one<T: Token>(a: T, b: T, result: Result<T, ParseError>)
    requires
        a != b,
    ensures
        Parser::one(a).parses(seq![a], result) <==> result == Ok::<T, ParseError>(a),
        Parser::one(a).parses(seq![a, b], result) <==> result == Err::<T, ParseError>(
            ParseError::IncompleteParse,
        ),
        Parser::one(a).parses(Seq::empty(), result) <==> result == Err::<T, ParseError>(
            ParseError::NoParse,
        ),
        Parser::one(a).parses(seq![b], result) <==> result == Err::<T, ParseError>(
            ParseError::NoParse,
        ),
{
    let p = Parser::one(a);
    assert(seq![a].skip(1).len() == 0);
    assert(seq![a, b].skip(1).len() == 1);
    assert(p.yields(seq![a], single(a, seq![a])));
    assert(p.yields(seq![a, b], single(a, seq![a, b])));
    assert(p.yields(Seq::empty(), single(a, Seq::empty())));
    assert(p.yields(seq![b], single(a, seq![b])));
}

/// A parser has no parse of an input exactly where it has an empty
/// candidate set on that input.
pub proof fn law_no_parse<T, U, R: Recognizer<Token = T, Value = U>>(p: Parser<R>, input: Seq<T>)
    ensures
        p.parses(input, Err(ParseError::NoParse)) <==> p.yields(input, Seq::empty()),
{
    if p.parses(input, Err(ParseError::NoParse)) {
        let found = choose|found: Seq<(U, Seq<T>)>| #[trigger]
            p.yields(input, found) && Err::<U, ParseError>(ParseError::NoParse) == selected(found);
        assert(found =~= Seq::empty());
    }
    if p.yields(input, Seq::empty()) {
        assert(selected(Seq::<(U, Seq<T>)>::empty()) == Err::<U, ParseError>(ParseError::NoParse));
    }
}

/// What a candidate of a parser leaves is a trailing part of the input.
pub proof fn law_leftovers<T, U, R: Recognizer<Token = T, Value = U>>(
    p: Parser<R>,
    input: Seq<T>,
    found: Seq<(U, Seq<T>)>,
)
    requires
        p.yields(input, found),
    ensures
        trailing(found, input),
{
    p.recognizer.lemma_leftovers(input, found);
}

/// To parse with a transformed parser is to parse with the parser and then
/// apply the function: the two succeed together, the one with a value that
/// the function returns on the value of the other, and fail alike.
pub proof fn law_map_outcome<T, U, V, R, F>(
    p: Parser<R>,
    f: F,
    input: Seq<T>,
    result: Result<V, ParseError>,
) where R: Recognizer<Token = T, Value = U>, F: Fn(&U) -> V
    requires
        p.map(f).parses(input, result),
    ensures
        exists|inner: Result<U, ParseError>| #[trigger]
            p.parses(input, inner) && result_image(f, inner, result),
{
    let found = choose|found: Seq<(V, Seq<T>)>| #[trigger]
        p.map(f).yields(input, found) && result == selected(found);
    let inner = choose|inner: Seq<(U, Seq<T>)>| #[trigger]
        p.yields(input, inner) && images(f, inner, found);
    assert(p.parses(input, selected(inner)));
    if inner.len() > 0 {
        assert(found.last().1 == inner.last().1);
    }
    assert(result_image(f, selected(inner), result));
}

/// A transform by the identity function changes nothing: what the
/// transformed parser finds and parses, the parser finds and parses.
pub proof fn law_map_identity<T, U, R, F>(p: Parser<R>, f: F, input: Seq<T>) where
    R: Recognizer<Token = T, Value = U>,
    F: Fn(&U) -> U,

    requires
        is_identity(f),
    ensures
        forall|found: Seq<(U, Seq<T>)>| #[trigger]
            p.map(f).yields(input, found) ==> p.yields(input, found),
        forall|result: Result<U, ParseError>| #[trigger]
            p.map(f).parses(input, result) ==> p.parses(input, result),
{
    assert forall|found: Seq<(U, Seq<T>)>| #[trigger]
        p.map(f).yields(input, found) implies p.yields(input, found) by {
        let inner = choose|inner: Seq<(U, Seq<T>)>| #[trigger]
            p.yields(input, inner) && images(f, inner, found);
        assert(found =~= inner);
    }
    assert forall|result: Result<U, ParseError>| #[trigger]
        p.map(f).parses(input, result) implies p.parses(input, result) by {
        let found = choose|found: Seq<(U, Seq<T>)>| #[trigger]
            p.map(f).yields(input, found) && result == selected(found);
        assert(p.yields(input, found));
    }
}

/// Two transforms in a row are the transform by the composed function.
pub proof fn law_map_composition<T, U, V, W, R, F, G>(
    p: Parser<R>,
    f: F,
    g: G,
    input: Seq<T>,
    found: Seq<(W, Seq<T>)>,
) where R: Recognizer<Token = T, Value = U>, F: Fn(&U) -> V, G: Fn(&V) -> W
    requires
        p.map(f).map(g).yields(input, found),
    ensures
        exists|inner: Seq<(U, Seq<T>)>| #[trigger]
            p.yields(input, inner) && images_twice(f, g, inner, found),
{
    let middle = choose|middle: Seq<(V, Seq<T>)>| #[trigger]
        p.map(f).yields(input, middle) && images(g, middle, found);
    let inner = choose|inner: Seq<(U, Seq<T>)>| #[trigger]
        p.yields(input, inner) && images(f, inner, middle);
    assert forall|i: int| 0 <= i < inner.len() implies {
        &&& (#[trigger] found[i]).1 == inner[i].1
        &&& exists|value: V| #[trigger]
            f.ensures((&inner[i].0,), value) && g.ensures((&value,), found[i].0)
    } by {
        assert(found[i].1 == middle[i].1);
        assert(f.ensures((&inner[i].0,), middle[i].0) && g.ensures((&middle[i].0,), found[i].0));
    }
    assert(images_twice(f, g, inner, found));
}

/// The union prefers its first parser: what it parses is what `first`
/// parses from a candidate set that is not empty, or else, where `first` has
/// an empty candidate set, what `second` parses.
pub proof fn law_combine_outcome<T, U, P, Q>(
    first: Parser<P>,
    second: Parser<Q>,
    input: Seq<T>,
    result: Result<U, ParseError>,
) where U: Copy, P: Recognizer<Token = T, Value = U>, Q: Recognizer<Token = T, Value = U>
    requires
        Parser::combine(first, second).parses(input, result),
    ensures
        ({
            ||| exists|preferred: Seq<(U, Seq<T>)>| #[trigger]
                first.yields(input, preferred) && preferred.len() > 0 && result == selected(
                    preferred,
                )
            ||| first.yields(input, Seq::empty()) && second.parses(input, result)
        }),
{
    let found = choose|found: Seq<(U, Seq<T>)>| #[trigger]
        Parser::combine(first, second).yields(input, found) && result == selected(found);
    let (preferred, other) = choose|preferred: Seq<(U, Seq<T>)>, other: Seq<(U, Seq<T>)>|
        {
            &&& #[trigger] first.yields(input, preferred)
            &&& #[trigger] second.yields(input, other)
            &&& found == other + preferred
        };
    if preferred.len() > 0 {
        assert(found.last() == preferred.last());
    } else {
        assert(preferred =~= Seq::empty());
        assert(found =~= other);
    }
}

/// The ordered choice prefers its first parser: what it parses is what
/// `first` parses from a candidate set that is not empty, or else, where
/// `first` has an empty candidate set, what `second` parses.
pub proof fn law_option_outcome<T, U, P, Q>(
    first: Parser<P>,
    second: Parser<Q>,
    input: Seq<T>,
    result: Result<U, ParseError>,
) where U: Copy, P: Recognizer<Token = T, Value = U>, Q: Recognizer<Token = T, Value = U>
    requires
        Parser::option(first, second).parses(input, result),
    ensures
        ({
            ||| exists|preferred: Seq<(U, Seq<T>)>| #[trigger]
                first.yields(input, preferred) && preferred.len() > 0 && result == selected(
                    preferred,
                )
            ||| first.yields(input, Seq::empty()) && second.parses(input, result)
        }),
{
    let found = choose|found: Seq<(U, Seq<T>)>| #[trigger]
        Parser::option(first, second).yields(input, found) && result == selected(found);
    let preferred = choose|preferred: Seq<(U, Seq<T>)>|
        {
            &&& #[trigger] first.yields(input, preferred)
            &&& if preferred.len() > 0 {
                found == preferred
            } else {
                second.yields(input, found)
            }
        };
    if preferred.len() == 0 {
        assert(preferred =~= Seq::empty());
        assert(second.parses(input, result));
    }
}

/// The ordered choice does without its second parser where the first has a
/// candidate: it finds there what the first finds, whatever the second
/// would, and can be run there whether or not the second can.
pub proof fn law_option_short_circuit<T, U, P, Q>(
    first: Parser<P>,
    second: Parser<Q>,
    input: Seq<T>,
    preferred: Seq<(U, Seq<T>)>,
) where U: Copy, P: Recognizer<Token = T, Value = U>, Q: Recognizer<Token = T, Value = U>
    requires
        first.yields(input, preferred),
        preferred.len() > 0,
    ensures
        Parser::option(first, second).yields(input, preferred),
        first.accepts(input) && first.determined(input) ==> Parser::option(
            first,
            second,
        ).accepts(input),
{
    assert(Parser::option(first, second).recognizer.first.yields(input, preferred));
}

/// Where the first parser has no candidate, nothing is sequenced after it.
pub proof fn law_bind_nothing<T, U, V, P, F, Q>(
    first: Parser<P>,
    next: F,
    input: Seq<T>,
    found: Seq<(V, Seq<T>)>,
) where
    U: Copy,
    P: Recognizer<Token = T, Value = U>,
    F: Fn(U) -> Parser<Q>,
    Q: Recognizer<Token = T, Value = V>,

    requires
        forall|outer: Seq<(U, Seq<T>)>| #[trigger] first.yields(input, outer) ==> outer.len() == 0,
        Parser::bind(first, next).yields(input, found),
    ensures
        found.len() == 0,
{
    let (outer, parts) = choose|outer: Seq<(U, Seq<T>)>, parts: Seq<Seq<(V, Seq<T>)>>|
        {
            &&& #[trigger] first.yields(input, outer)
            &&& #[trigger] follows_each(next, outer, parts)
            &&& found == parts.flatten()
        };
    assert(parts =~= Seq::empty());
}

/// Where the first parser has one candidate, what is sequenced after it is
/// a candidate set of a parser for that candidate's value, on what the
/// candidate left.
pub proof fn law_bind_one<T, U, V, P, F, Q>(
    first: Parser<P>,
    next: F,
    input: Seq<T>,
    value: U,
    rest: Seq<T>,
    found: Seq<(V, Seq<T>)>,
) where
    U: Copy,
    P: Recognizer<Token = T, Value = U>,
    F: Fn(U) -> Parser<Q>,
    Q: Recognizer<Token = T, Value = V>,

    requires
        forall|outer: Seq<(U, Seq<T>)>| #[trigger]
            first.yields(input, outer) ==> outer == seq![(value, rest)],
        Parser::bind(first, next).yields(input, found),
    ensures
        follows(next, value, rest, found),
{
    let (outer, parts) = choose|outer: Seq<(U, Seq<T>)>, parts: Seq<Seq<(V, Seq<T>)>>|
        {
            &&& #[trigger] first.yields(input, outer)
            &&& #[trigger] follows_each(next, outer, parts)
            &&& found == parts.flatten()
        };
    assert(follows(next, outer[0].0, outer[0].1, parts[0]));
    parts.lemma_flatten_singleton();
}

/// The parser of one token has one candidate set on every input.
pub proof fn law_one_determined<T: Token>(a: T, input: Seq<T>)
    ensures
        Parser::one(a).yields(input, single(a, input)),
        Parser::one(a).determined(input),
{
}

/// A transformed parser has at most one candidate set where the parser has
/// and the function returns, on the values found, results that the values
/// determine.
pub proof fn law_map_determined<T, U, V, R, F>(p: Parser<R>, f: F, input: Seq<T>) where
    R: Recognizer<Token = T, Value = U>,
    F: Fn(&U) -> V,

    requires
        p.determined(input),
        forall|inner: Seq<(U, Seq<T>)>| #[trigger]
            p.yields(input, inner) ==> determined_on(f, inner),
    ensures
        p.map(f).determined(input),
{
    let parser = p.map(f);
    assert forall|found: Seq<(V, Seq<T>)>, other: Seq<(V, Seq<T>)>|
        #[trigger] parser.yields(input, found) && #[trigger] parser.yields(
            input,
            other,
        ) implies found == other by {
        let inner = choose|inner: Seq<(U, Seq<T>)>| #[trigger]
            p.yields(input, inner) && images(f, inner, found);
        let again = choose|again: Seq<(U, Seq<T>)>| #[trigger]
            p.yields(input, again) && images(f, again, other);
        assert(inner == again);
        assert forall|i: int| 0 <= i < found.len() implies found[i] == other[i] by {
            assert(f.ensures((&inner[i].0,), found[i].0));
            assert(f.ensures((&inner[i].0,), other[i].0));
            assert(found[i].1 == other[i].1);
        }
        assert(found =~= other);
    }
}

/// The union has at most one candidate set where both parsers have.
pub proof fn law_combine_determined<T, U, P, Q>(
    first: Parser<P>,
    second: Parser<Q>,
    input: Seq<T>,
) where U: Copy, P: Recognizer<Token = T, Value = U>, Q: Recognizer<Token = T, Value = U>
    requires
        first.determined(input),
        second.determined(input),
    ensures
        Parser::combine(first, second).determined(input),
{
}

/// The ordered choice has at most one candidate set where the first parser
/// has and, in case that one is empty, the second has too.
pub proof fn law_option_determined<T, U, P, Q>(
    first: Parser<P>,
    second: Parser<Q>,
    input: Seq<T>,
) where U: Copy, P: Recognizer<Token = T, Value = U>, Q: Recognizer<Token = T, Value = U>
    requires
        first.determined(input),
        first.yields(input, Seq::empty()) ==> second.determined(input),
    ensures
        Parser::option(first, second).determined(input),
{
    let parser = Parser::option(first, second);
    assert forall|found: Seq<(U, Seq<T>)>, other: Seq<(U, Seq<T>)>|
        #[trigger] parser.yields(input, found) && #[trigger] parser.yields(
            input,
            other,
        ) implies found == other by {
        let preferred = choose|preferred: Seq<(U, Seq<T>)>|
            {
                &&& #[trigger] first.yields(input, preferred)
                &&& if preferred.len() > 0 {
                    found == preferred
                } else {
                    second.yields(input, found)
                }
            };
        let again = choose|again: Seq<(U, Seq<T>)>|
            {
                &&& #[trigger] first.yields(input, again)
                &&& if again.len() > 0 {
                    other == again
                } else {
                    second.yields(input, other)
                }
            };
        assert(preferred == again);
        if preferred.len() == 0 {
            assert(preferred =~= Seq::empty());
        }
    }
}

/// A sequence has at most one candidate set where the first parser has and
/// the parsers that follow its candidates are determined by their values.
pub proof fn law_bind_determined<T, U, V, P, F, Q>(first: Parser<P>, next: F, input: Seq<T>) where
    U: Copy,
    P: Recognizer<Token = T, Value = U>,
    F: Fn(U) -> Parser<Q>,
    Q: Recognizer<Token = T, Value = V>,

    requires
        first.determined(input),
        forall|outer: Seq<(U, Seq<T>)>| #[trigger]
            first.yields(input, outer) ==> alike_on(next, outer),
    ensures
        Parser::bind(first, next).determined(input),
{
    let parser = Parser::bind(first, next);
    assert forall|found: Seq<(V, Seq<T>)>, other: Seq<(V, Seq<T>)>|
        #[trigger] parser.yields(input, found) && #[trigger] parser.yields(
            input,
            other,
        ) implies found == other by {
        let (outer, parts) = choose|outer: Seq<(U, Seq<T>)>, parts: Seq<Seq<(V, Seq<T>)>>|
            {
                &&& #[trigger] first.yields(input, outer)
                &&& #[trigger] follows_each(next, outer, parts)
                &&& found == parts.flatten()
            };
        let (again, others) = choose|again: Seq<(U, Seq<T>)>, others: Seq<Seq<(V, Seq<T>)>>|
            {
                &&& #[trigger] first.yields(input, again)
                &&& #[trigger] follows_each(next, again, others)
                &&& other == others.flatten()
            };
        assert(outer == again);
        assert forall|i: int| 0 <= i < parts.len() implies parts[i] == others[i] by {
            let (value, rest) = outer[i];
            assert(follows(next, value, rest, parts[i]));
            assert(follows(next, value, rest, others[i]));
            let one = choose|one: Parser<Q>| #[trigger]
                next.ensures((value,), one) && one.yields(rest, parts[i]);
            let two = choose|two: Parser<Q>| #[trigger]
                next.ensures((value,), two) && two.yields(rest, others[i]);
            assert(one.yields(rest, others[i]));
        }
        assert(parts =~= others);
    }
}

} // verus!
