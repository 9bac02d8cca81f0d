use vstd::prelude::*;

use crate::combinators::{Outcome, ParseResult, Parser};
use crate::input::Input;

verus! {

/// Runs two recognizers in sequence and keeps both values. The sequence is
/// atomic: when the second reports no match, the position goes back to where
/// the first started.
pub struct Then<P1, P2> {
    parser1: P1,
    parser2: P2,
}

/// A sequence that keeps only the second value.
pub struct IgnoreThen<P1, P2> {
    inner: Then<P1, P2>,
}

/// A sequence that keeps only the first value.
pub struct ThenIgnore<P1, P2> {
    inner: Then<P1, P2>,
}

/// The outcome of running `o1`'s recognizer and then, from where it stopped,
/// the second one, whose outcome at each position `second` gives.
pub open spec fn sequence<A, B>(
    o1: Outcome<A>,
    second: spec_fn(nat) -> Outcome<B>,
) -> Outcome<(A, B)> {
    match o1 {
        Outcome::Matched(a, p) => match second(p) {
            Outcome::Matched(b, q) => Outcome::Matched((a, b), q),
            Outcome::NoMatch => Outcome::NoMatch,
            Outcome::Fatal(m) => Outcome::Fatal(m),
        },
        Outcome::NoMatch => Outcome::NoMatch,
        Outcome::Fatal(m) => Outcome::Fatal(m),
    }
}

/// The outcome `o` with the value of a match replaced by `f` of it.
pub open spec fn map_outcome<A, B>(o: Outcome<A>, f: spec_fn(A) -> B) -> Outcome<B> {
    match o {
        Outcome::Matched(a, q) => Outcome::Matched(f(a), q),
        Outcome::NoMatch => Outcome::NoMatch,
        Outcome::Fatal(m) => Outcome::Fatal(m),
    }
}

impl<P1, P2> Then<P1, P2> {
    pub closed spec fn first(&self) -> P1 {
        self.parser1
    }

    pub closed spec fn second(&self) -> P2 {
        self.parser2
    }

    pub fn new(parser1: P1, parser2: P2) -> (r: Self)
        ensures
            r.first() == parser1,
            r.second() == parser2,
    {
        Self { parser1, parser2 }
    }
}

impl<P1, P2> IgnoreThen<P1, P2> {
    pub closed spec fn pair(&self) -> Then<P1, P2> {
        self.inner
    }

    pub fn new(parser1: P1, parser2: P2) -> (r: Self)
        ensures
            r.pair().first() == parser1,
            r.pair().second() == parser2,
    {
        Self { inner: Then::new(parser1, parser2) }
    }
}

impl<P1, P2> ThenIgnore<P1, P2> {
    pub closed spec fn pair(&self) -> Then<P1, P2> {
        self.inner
    }

    pub fn new(parser1: P1, parser2: P2) -> (r: Self)
        ensures
            r.pair().first() == parser1,
            r.pair().second() == parser2,
    {
        Self { inner: Then::new(parser1, parser2) }
    }
}

impl<P1: Parser, P2: Parser> Parser for Then<P1, P2> {
    type Output = (P1::Output, P2::Output);

    open spec fn outcome(&self, src: Seq<char>, pos: nat) -> Outcome<
        (<P1::Output as DeepView>::V, <P2::Output as DeepView>::V),
    > {
        sequence(self.first().outcome(src, pos), |p: nat| self.second().outcome(src, p))
    }

    fn parse(&self, input: &mut Input) -> (r: ParseResult<(P1::Output, P2::Output)>) {
        let position = input.position();
        let result1 = match self.parser1.parse(input) {
            Ok(Some(v)) => v,
            Ok(None) => {
                input.reset_to(position);
                return Ok(None);
            },
            Err(e) => return Err(e),
        };
        let result2 = match self.parser2.parse(input) {
            Ok(Some(v)) => v,
            Ok(None) => {
                input.reset_to(position);
                return Ok(None);
            },
            Err(e) => return Err(e),
        };
        Ok(Some((result1, result2)))
    }
}

impl<P1: Parser, P2: Parser> Parser for IgnoreThen<P1, P2> {
    type Output = P2::Output;

    open spec fn outcome(&self, src: Seq<char>, pos: nat) -> Outcome<<P2::Output as DeepView>::V> {
        map_outcome(
            self.pair().outcome(src, pos),
            |v: (<P1::Output as DeepView>::V, <P2::Output as DeepView>::V)| v.1,
        )
    }

    fn parse(&self, input: &mut Input) -> (r: ParseResult<P2::Output>) {
        match self.inner.parse(input) {
            Ok(Some((_, r))) => Ok(Some(r)),
            Ok(None) => Ok(None),
            Err(e) => Err(e),
        }
    }
}

impl<P1: Parser, P2: Parser> Parser for ThenIgnore<P1, P2> {
    type Output = P1::Output;

    open spec fn outcome(&self, src: Seq<char>, pos: nat) -> Outcome<<P1::Output as DeepView>::V> {
        map_outcome(
            self.pair().outcome(src, pos),
            |v: (<P1::Output as DeepView>::V, <P2::Output as DeepView>::V)| v.0,
        )
    }

    fn parse(&self, input: &mut Input) -> (r: ParseResult<P1::Output>) {
        match self.inner.parse(input) {
            Ok(Some((r, _))) => Ok(Some(r)),
            Ok(None) => Ok(None),
            Err(e) => Err(e),
        }
    }
}

} // verus!
