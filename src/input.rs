use vstd::prelude::*;

use crate::error::{unexpected_eof_message, Error};

verus! {

broadcast use vstd::string::group_string_axioms;

/// A half-open range `start..end` of character positions in a source text.
#[derive(Debug, Clone, Copy, PartialEq, Eq, Structural)]
pub struct Span {
    pub start: usize,
    pub end: usize,
}

impl DeepView for Span {
    type V = Span;

    open spec fn deep_view(&self) -> Span {
        *self
    }
}

/// The first position at or after `i` whose character is in `set`, or the
/// length of `src` when there is none.
pub open spec fn run_end(src: Seq<char>, i: int, set: Seq<char>) -> int
    decreases src.len() - i,
{
    if i >= src.len() {
        src.len() as int
    } else if set.contains(src[i]) {
        i
    } else {
        run_end(src, i + 1, set)
    }
}

/// Whether `pat` occurs in `src` starting at position `i`.
pub open spec fn occurs_at(src: Seq<char>, i: int, pat: Seq<char>) -> bool {
    0 <= i && i + pat.len() <= src.len() && src.subrange(i, i + pat.len()) == pat
}

/// The text that a sequence of spans covers, in order.
pub open spec fn spans_text(src: Seq<char>, spans: Seq<Span>) -> Seq<char>
    decreases spans.len(),
{
    if spans.len() == 0 {
        Seq::empty()
    } else {
        spans_text(src, spans.drop_last()) + src.subrange(
            spans.last().start as int,
            spans.last().end as int,
        )
    }
}

pub open spec fn span_in(src: Seq<char>, s: Span) -> bool {
    s.start <= s.end <= src.len()
}

/// The characters of a string slice, in order.
pub fn chars_of(s: &str) -> (r: Vec<char>)
    ensures
        r@ == s@,
{
    let mut out: Vec<char> = Vec::new();
    for c in it: s.chars()
        invariant
            out@ == it.seq().subrange(0, it.index() as int),
    {
        out.push(c);
        assert(it.seq().subrange(0, it.index() + 1) =~= out@);
    }
    assert(out@ =~= s@);
    out
}

/// Relies on `String::push`: the character is appended at the end.
#[verifier::external_body]
pub(crate) fn push_char(s: &mut String, c: char)
    ensures
        final(s)@ == old(s)@.push(c),
{
    s.push(c)
}

/// A read position over a source text. The text never changes; only the
/// position moves, forward by consumption or back by `reset_to`.
pub struct Input {
    text: Vec<char>,
    pos: usize,
}

impl Input {
    /// The source text.
    pub closed spec fn src(&self) -> Seq<char> {
        self.text@
    }

    /// The current read position, counted in characters.
    pub closed spec fn at(&self) -> nat {
        self.pos as nat
    }

    pub open spec fn wf(&self) -> bool {
        self.at() <= self.src().len() <= usize::MAX
    }

    /// The text from the read position to the end.
    pub open spec fn rest(&self) -> Seq<char> {
        self.src().subrange(self.at() as int, self.src().len() as int)
    }

    pub fn new(source: &str) -> (r: Input)
        ensures
            r.wf(),
            r.src() == source@,
            r.at() == 0,
    {
        let text = chars_of(source);
        let n = text.len();
        assert(n == text@.len());
        Input { text, pos: 0 }
    }

    pub fn position(&self) -> (r: usize)
        ensures
            r == self.at(),
    {
        self.pos
    }

    pub fn len(&self) -> (r: usize)
        ensures
            r == self.src().len(),
    {
        self.text.len()
    }

    /// Moves the read position back to one observed earlier.
    pub fn reset_to(&mut self, position: usize)
        requires
            old(self).wf(),
            position <= old(self).src().len(),
        ensures
            final(self).wf(),
            final(self).src() == old(self).src(),
            final(self).at() == position,
    {
        self.pos = position;
    }

    pub fn is_at_end(&self) -> (r: bool)
        requires
            self.wf(),
        ensures
            r == (self.at() == self.src().len()),
    {
        self.pos == self.text.len()
    }

    /// The character at position `i` of the source text.
    pub fn char_at(&self, i: usize) -> (r: char)
        requires
            i < self.src().len(),
        ensures
            r == self.src()[i as int],
    {
        self.text[i]
    }

    /// Whether `pat` occurs in the source text at position `i`.
    pub fn occurs_at(&self, i: usize, pat: &Vec<char>) -> (r: bool)
        ensures
            r == occurs_at(self.src(), i as int, pat@),
    {
        if pat.len() > self.text.len() || i > self.text.len() - pat.len() {
            return false;
        }
        let mut k: usize = 0;
        while k < pat.len()
            invariant
                self.src().len() == self.text.len(),
                i + pat.len() <= self.src().len(),
                k <= pat.len(),
                forall|j: int| 0 <= j < k ==> self.src()[i + j] == pat@[j],
            decreases pat.len() - k,
        {
            if self.text[i + k] != pat[k] {
                assert(self.src().subrange(i as int, i + pat.len())[k as int] != pat@[k as int]);
                return false;
            }
            k = k + 1;
        }
        assert(self.src().subrange(i as int, i + pat.len()) =~= pat@);
        true
    }

    /// Consumes exactly `n` characters.
    pub fn consume_count(&mut self, n: usize) -> (r: Result<Span, Error>)
        requires
            old(self).wf(),
        ensures
            final(self).wf(),
            final(self).src() == old(self).src(),
            old(self).at() + n <= old(self).src().len() ==> r == Ok::<Span, Error>(
                Span { start: old(self).at() as usize, end: (old(self).at() + n) as usize },
            ) && final(self).at() == old(self).at() + n,
            old(self).at() + n > old(self).src().len() ==> r is Err && r->Err_0.message@
                == unexpected_eof_message() && final(self).at() == old(self).at(),
    {
        if n > self.text.len() - self.pos {
            return Err(Error::unexpected_eof());
        }
        let start = self.pos;
        self.pos = self.pos + n;
        Ok(Span { start, end: self.pos })
    }

    /// Consumes the run of characters up to the next one in `charset`, and
    /// gives `None`, consuming nothing, when no such character follows.
    pub fn consume_until_any(&mut self, charset: &str) -> (r: Option<Span>)
        requires
            old(self).wf(),
        ensures
            final(self).wf(),
            final(self).src() == old(self).src(),
            ({
                let e = run_end(old(self).src(), old(self).at() as int, charset@);
                if e < old(self).src().len() {
                    r == Some(Span { start: old(self).at() as usize, end: e as usize })
                        && final(self).at() == e
                } else {
                    r is None && final(self).at() == old(self).at()
                }
            }),
    {
        let set = chars_of(charset);
        let mut i: usize = self.pos;
        while i < self.text.len()
            invariant
                self.text@ == old(self).text@,
                self.pos == old(self).pos,
                self.wf(),
                self.at() <= i <= self.src().len(),
                set@ == charset@,
                run_end(self.src(), self.at() as int, set@) == run_end(self.src(), i as int, set@),
            decreases self.src().len() - i,
        {
            let c = self.text[i];
            let mut k: usize = 0;
            while k < set.len()
                invariant
                    self.text@ == old(self).text@,
                    self.pos == old(self).pos,
                    i < self.src().len(),
                    c == self.src()[i as int],
                    self.at() <= i,
                    self.wf(),
                    set@ == charset@,
                    run_end(self.src(), self.at() as int, set@) == run_end(self.src(), i as int, set@),
                    k <= set@.len(),
                    forall|j: int| 0 <= j < k ==> set@[j] != c,
                decreases set@.len() - k,
            {
                if set[k] == c {
                    assert(set@.contains(c));
                    assert(run_end(self.src(), i as int, set@) == i);
                    let start = self.pos;
                    self.pos = i;
                    return Some(Span { start, end: i });
                }
                k = k + 1;
            }
            assert(!set@.contains(c));
            i = i + 1;
        }
        None
    }

    /// Consumes everything up to the end of the text.
    pub fn consume_all(&mut self) -> (r: Span)
        requires
            old(self).wf(),
        ensures
            final(self).wf(),
            final(self).src() == old(self).src(),
            final(self).at() == old(self).src().len(),
            r == (Span { start: old(self).at() as usize, end: old(self).src().len() as usize }),
    {
        let start = self.pos;
        self.pos = self.text.len();
        Span { start, end: self.pos }
    }

    /// Appends the text of `span` to `out`.
    pub fn append_span(&self, span: Span, out: &mut String)
        requires
            span_in(self.src(), span),
        ensures
            final(out)@ == old(out)@ + self.src().subrange(span.start as int, span.end as int),
    {
        let mut i: usize = span.start;
        while i < span.end
            invariant
                span.start <= i <= span.end <= self.src().len(),
                out@ == old(out)@ + self.src().subrange(span.start as int, i as int),
            decreases span.end - i,
        {
            push_char(out, self.text[i]);
            assert(self.src().subrange(span.start as int, i + 1) =~= self.src().subrange(
                span.start as int,
                i as int,
            ).push(self.src()[i as int]));
            i = i + 1;
        }
    }

    /// Joins the texts of `spans`, in order, into one string.
    pub fn combine(&self, spans: &[Span]) -> (r: String)
        requires
            forall|k: int| 0 <= k < spans@.len() ==> span_in(self.src(), #[trigger] spans@[k]),
        ensures
            r@ == spans_text(self.src(), spans@),
    {
        let mut out = String::new();
        let mut k: usize = 0;
        while k < spans.len()
            invariant
                k <= spans@.len(),
                forall|j: int| 0 <= j < spans@.len() ==> span_in(self.src(), #[trigger] spans@[j]),
                out@ == spans_text(self.src(), spans@.subrange(0, k as int)),
            decreases spans@.len() - k,
        {
            self.append_span(spans[k], &mut out);
            assert(spans@.subrange(0, k + 1).drop_last() =~= spans@.subrange(0, k as int));
            k = k + 1;
        }
        assert(spans@.subrange(0, spans@.len() as int) =~= spans@);
        out
    }
}

} // verus!
