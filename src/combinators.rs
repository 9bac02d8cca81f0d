use vstd::prelude::*;

use crate::error::{unterminated_message, Error};
use crate::input::{chars_of, occurs_at, push_char, Input, Span};

verus! {

/// What a recognizer does at a position, stated over plain values.
pub enum Outcome<V> {
    /// It applies: the value, and the position just after what it consumed.
    Matched(V, nat),
    /// It does not apply; the position is left where it was.
    NoMatch,
    /// It applies but the text is malformed; the message says why.
    Fatal(Seq<char>),
}

/// `Ok(Some(v))` for a match, `Ok(None)` for no match, `Err` for a fatal error.
pub type ParseResult<T> = Result<Option<T>, Error>;

/// Whether a returned result, with the position before and after the call,
/// is the one that the outcome `o` describes. A no-match leaves the position
/// where it was.
pub open spec fn realizes<T: DeepView>(
    r: ParseResult<T>,
    before: nat,
    after: nat,
    o: Outcome<T::V>,
) -> bool {
    match o {
        Outcome::Matched(v, q) => r is Ok && r->Ok_0 is Some && r->Ok_0->Some_0.deep_view() == v
            && after == q,
        Outcome::NoMatch => r is Ok && r->Ok_0 is None && after == before,
        Outcome::Fatal(m) => r is Err && r->Err_0.message@ == m,
    }
}

/// A stateless recognizer that can be run any number of times on any input.
pub trait Parser {
    type Output: DeepView;

    /// What the recognizer does when run at position `pos` of `src`.
    spec fn outcome(&self, src: Seq<char>, pos: nat) -> Outcome<<Self::Output as DeepView>::V>;

    fn parse(&self, input: &mut Input) -> (r: ParseResult<Self::Output>)
        requires
            old(input).wf(),
        ensures
            final(input).wf(),
            final(input).src() == old(input).src(),
            realizes(r, old(input).at(), final(input).at(), self.outcome(old(input).src(), old(input).at())),
    ;
}

/// Matches a fixed text.
pub struct Literal {
    pub pattern: Vec<char>,
}

pub fn literal(text: &str) -> (r: Literal)
    ensures
        r.pattern@ == text@,
{
    Literal { pattern: chars_of(text) }
}

impl Parser for Literal {
    type Output = Span;

    open spec fn outcome(&self, src: Seq<char>, pos: nat) -> Outcome<Span> {
        if occurs_at(src, pos as int, self.pattern@) {
            let q = pos + self.pattern@.len();
            Outcome::Matched(Span { start: pos as usize, end: q as usize }, q)
        } else {
            Outcome::NoMatch
        }
    }

    fn parse(&self, input: &mut Input) -> (r: ParseResult<Span>) {
        let start = input.position();
        if input.occurs_at(start, &self.pattern) {
            match input.consume_count(self.pattern.len()) {
                Ok(span) => Ok(Some(span)),
                Err(e) => Err(e),
            }
        } else {
            Ok(None)
        }
    }
}

/// Unicode's White_Space characters, those that `char::is_whitespace` accepts.
pub open spec fn is_space(c: char) -> bool {
    ('\t' <= c && c <= '\r') || c == ' ' || c == '\u{85}' || c == '\u{a0}' || c == '\u{1680}'
        || ('\u{2000}' <= c && c <= '\u{200a}') || c == '\u{2028}' || c == '\u{2029}' || c
        == '\u{202f}' || c == '\u{205f}' || c == '\u{3000}'
}

fn char_is_space(c: char) -> (r: bool)
    ensures
        r == is_space(c),
{
    ('\t' <= c && c <= '\r') || c == ' ' || c == '\u{85}' || c == '\u{a0}' || c == '\u{1680}'
        || ('\u{2000}' <= c && c <= '\u{200a}') || c == '\u{2028}' || c == '\u{2029}' || c
        == '\u{202f}' || c == '\u{205f}' || c == '\u{3000}'
}

/// The end of the run of whitespace that starts at `i`.
pub open spec fn space_end(src: Seq<char>, i: int) -> int
    decreases src.len() - i,
{
    if i < src.len() && is_space(src[i]) {
        space_end(src, i + 1)
    } else {
        i
    }
}

/// Matches the longest run of whitespace; an empty run matches unless
/// `at_least_one` is set.
pub struct Whitespace {
    pub at_least_one: bool,
}

pub fn whitespace() -> (r: Whitespace)
    ensures
        !r.at_least_one,
{
    Whitespace { at_least_one: false }
}

impl Whitespace {
    /// This recognizer inside `Optional`: where it reports no match, the
    /// result is a match of `None` that consumes nothing.
    pub fn optional(self) -> (r: Optional<Whitespace>)
        ensures
            r.inner == self,
    {
        Optional { inner: self }
    }
}

impl Parser for Whitespace {
    type Output = Span;

    open spec fn outcome(&self, src: Seq<char>, pos: nat) -> Outcome<Span> {
        let e = space_end(src, pos as int);
        if self.at_least_one && e == pos {
            Outcome::NoMatch
        } else {
            Outcome::Matched(Span { start: pos as usize, end: e as usize }, e as nat)
        }
    }

    fn parse(&self, input: &mut Input) -> (r: ParseResult<Span>) {
        let start = input.position();
        let len = input.len();
        let mut i: usize = start;
        while i < len && char_is_space(input.char_at(i))
            invariant
                input.wf(),
                len == input.src().len(),
                start == input.at(),
                start <= i <= len,
                space_end(input.src(), start as int) == space_end(input.src(), i as int),
            decreases len - i,
        {
            i = i + 1;
        }
        if self.at_least_one && i == start {
            return Ok(None);
        }
        input.reset_to(i);
        Ok(Some(Span { start, end: i }))
    }
}

/// Turns the inner recognizer's no-match into a match of `None`.
pub struct Optional<P> {
    pub inner: P,
}

impl<P: Parser> Parser for Optional<P> {
    type Output = Option<P::Output>;

    open spec fn outcome(&self, src: Seq<char>, pos: nat) -> Outcome<Option<<P::Output as DeepView>::V>> {
        match self.inner.outcome(src, pos) {
            Outcome::Matched(v, q) => Outcome::Matched(Some(v), q),
            Outcome::NoMatch => Outcome::Matched(None, pos),
            Outcome::Fatal(m) => Outcome::Fatal(m),
        }
    }

    fn parse(&self, input: &mut Input) -> (r: ParseResult<Option<P::Output>>) {
        match self.inner.parse(input) {
            Ok(Some(v)) => Ok(Some(Some(v))),
            Ok(None) => Ok(Some(None)),
            Err(e) => Err(e),
        }
    }
}

/// Always matches `value`, consuming nothing.
pub struct Just<T> {
    pub value: T,
}

pub fn just<T: Copy + DeepView>(value: T) -> (r: Just<T>)
    ensures
        r.value == value,
{
    Just { value }
}

impl<T: Copy + DeepView> Parser for Just<T> {
    type Output = T;

    open spec fn outcome(&self, src: Seq<char>, pos: nat) -> Outcome<T::V> {
        Outcome::Matched(self.value.deep_view(), pos)
    }

    fn parse(&self, input: &mut Input) -> (r: ParseResult<T>) {
        Ok(Some(self.value))
    }
}

/// Puts `prefix` in front of the text of a scan result.
pub open spec fn prefixed(prefix: Seq<char>, r: Option<(Seq<char>, int)>) -> Option<(Seq<char>, int)> {
    match r {
        Some((t, q)) => Some((prefix + t, q)),
        None => None,
    }
}

/// Scans from `i` for the first `term` that is not part of an `esc`. Each
/// `esc` passed over stands for one `term` in the text. Gives the text and
/// the position of the terminator, or `None` when the input ends first.
pub open spec fn scan(src: Seq<char>, i: int, term: Seq<char>, esc: Seq<char>) -> Option<(Seq<char>, int)>
    decreases src.len() - i,
{
    if i < 0 || i >= src.len() {
        None
    } else if esc.len() > 0 && occurs_at(src, i, esc) {
        prefixed(term, scan(src, i + esc.len(), term, esc))
    } else if occurs_at(src, i, term) {
        Some((Seq::empty(), i))
    } else {
        prefixed(seq![src[i]], scan(src, i + 1, term, esc))
    }
}

/// Consumes text up to the first `terminator` that is not part of an
/// `escaped_terminator`, leaving the terminator itself in place. The text
/// returned has each escaped form folded to one `terminator`. Running out
/// of input first is fatal.
pub struct TakeUntil {
    pub terminator: Vec<char>,
    pub escaped_terminator: Vec<char>,
}

pub fn take_until(terminator: &str, escaped_terminator: &str) -> (r: TakeUntil)
    ensures
        r.terminator@ == terminator@,
        r.escaped_terminator@ == escaped_terminator@,
{
    TakeUntil { terminator: chars_of(terminator), escaped_terminator: chars_of(escaped_terminator) }
}

fn append_chars(out: &mut String, cs: &Vec<char>)
    ensures
        final(out)@ == old(out)@ + cs@,
{
    let mut k: usize = 0;
    while k < cs.len()
        invariant
            k <= cs@.len(),
            out@ == old(out)@ + cs@.subrange(0, k as int),
        decreases cs@.len() - k,
    {
        push_char(out, cs[k]);
        assert(cs@.subrange(0, k + 1) =~= cs@.subrange(0, k as int).push(cs@[k as int]));
        k = k + 1;
    }
    assert(cs@.subrange(0, cs@.len() as int) =~= cs@);
}

impl Parser for TakeUntil {
    type Output = String;

    open spec fn outcome(&self, src: Seq<char>, pos: nat) -> Outcome<Seq<char>> {
        match scan(src, pos as int, self.terminator@, self.escaped_terminator@) {
            Some((t, q)) => Outcome::Matched(t, q as nat),
            None => Outcome::Fatal(unterminated_message()),
        }
    }

    fn parse(&self, input: &mut Input) -> (r: ParseResult<String>) {
        let ghost src = old(input).src();
        let ghost term = self.terminator@;
        let ghost esc = self.escaped_terminator@;
        let start = input.position();
        let len = input.len();
        let mut i: usize = start;
        let mut out = String::new();
        while i < len
            invariant
                input.wf(),
                src == old(input).src(),
                term == self.terminator@,
                esc == self.escaped_terminator@,
                input.src() == src,
                input.at() == start,
                start == old(input).at(),
                len == src.len(),
                start <= i <= len,
                scan(src, start as int, term, esc) == prefixed(out@, scan(src, i as int, term, esc)),
            decreases len - i,
        {
            if self.escaped_terminator.len() > 0 && input.occurs_at(i, &self.escaped_terminator) {
                let ghost before = out@;
                append_chars(&mut out, &self.terminator);
                proof {
                    let rest = scan(src, i + esc.len(), term, esc);
                    if let Some((t, q)) = rest {
                        assert(out@ == before + term);
                        assert(before + (term + t) =~= out@ + t);
                    }
                }
                i = i + self.escaped_terminator.len();
            } else if input.occurs_at(i, &self.terminator) {
                assert(scan(src, i as int, term, esc) == Some((Seq::<char>::empty(), i as int)));
                assert(out@ + Seq::<char>::empty() =~= out@);

                input.reset_to(i);
                return Ok(Some(out));
            } else {
                let ghost before = out@;
                push_char(&mut out, input.char_at(i));
                proof {
                    let rest = scan(src, i + 1, term, esc);
                    if let Some((t, q)) = rest {
                        assert(before + (seq![src[i as int]] + t) =~= out@ + t);
                    }
                }
                i = i + 1;
            }
        }
        Err(Error::unterminated_block())
    }
}

} // verus!
