use vstd::prelude::*;

use crate::combinators::{
    literal, prefixed, realizes, scan, space_end, take_until, whitespace, Outcome, ParseResult, Parser,
};
use crate::error::{unexpected_eof_message, unrecognized_message, unterminated_message, Error};
use crate::input::{occurs_at, run_end, spans_text, Input, Span};
use crate::then::{IgnoreThen, ThenIgnore};

verus! {

/// One classified piece of a template.
#[derive(Debug, Clone, PartialEq, Eq)]
pub enum Item {
    /// Text to output as it stands.
    Literal(String),
    /// Code to evaluate and interpolate.
    Expression(String),
    /// Code to run for its effect only.
    PlainStatement(String),
    /// Inclusion of a child template; never produced yet.
    Component(String),
}

/// An item over plain values.
pub enum Segment {
    Literal(Seq<char>),
    Expression(Seq<char>),
    Statement(Seq<char>),
    Component(Seq<char>),
}

impl DeepView for Item {
    type V = Segment;

    open spec fn deep_view(&self) -> Segment {
        match self {
            Item::Literal(t) => Segment::Literal(t@),
            Item::Expression(t) => Segment::Expression(t@),
            Item::PlainStatement(t) => Segment::Statement(t@),
            Item::Component(t) => Segment::Component(t@),
        }
    }
}

/// `{{` stands for `{`, and `<##` for `<#`.
pub open spec fn escape_outcome(src: Seq<char>, pos: nat) -> Outcome<Segment> {
    if occurs_at(src, pos as int, "{{"@) {
        Outcome::Matched(Segment::Literal("{"@), pos + 2)
    } else if occurs_at(src, pos as int, "<##"@) {
        Outcome::Matched(Segment::Literal("<#"@), pos + 3)
    } else {
        Outcome::NoMatch
    }
}

/// `{`, then text up to the first `}` that is not part of `}}`, then that `}`.
pub open spec fn expr_outcome(src: Seq<char>, pos: nat) -> Outcome<Segment> {
    if occurs_at(src, pos as int, "{"@) {
        match scan(src, (pos + 1) as int, "}"@, "}}"@) {
            Some((t, q)) => Outcome::Matched(Segment::Expression(t), (q + 1) as nat),
            None => Outcome::Fatal(unterminated_message()),
        }
    } else {
        Outcome::NoMatch
    }
}

/// `<#`, whitespace, then text up to the first `#>` that is not part of
/// `##>`, then that `#>`.
pub open spec fn statement_outcome(src: Seq<char>, pos: nat) -> Outcome<Segment> {
    if occurs_at(src, pos as int, "<#"@) {
        match scan(src, space_end(src, (pos + 2) as int), "#>"@, "##>"@) {
            Some((t, q)) => Outcome::Matched(Segment::Statement(t), (q + 2) as nat),
            None => Outcome::Fatal(unterminated_message()),
        }
    } else {
        Outcome::NoMatch
    }
}

/// One character, whatever it is, then the run up to the next `<` or `{`.
pub open spec fn literal_outcome(src: Seq<char>, pos: nat) -> Outcome<Segment> {
    if pos >= src.len() {
        Outcome::Fatal(unexpected_eof_message())
    } else {
        let e = run_end(src, (pos + 1) as int, "<{"@);
        Outcome::Matched(Segment::Literal(src.subrange(pos as int, e)), e as nat)
    }
}

/// The first of the recognizers, in priority order, that does not report
/// no match: escape, expression, statement, literal.
pub open spec fn item_outcome(src: Seq<char>, pos: nat) -> Outcome<Segment> {
    if !(escape_outcome(src, pos) is NoMatch) {
        escape_outcome(src, pos)
    } else if !(expr_outcome(src, pos) is NoMatch) {
        expr_outcome(src, pos)
    } else if !(statement_outcome(src, pos) is NoMatch) {
        statement_outcome(src, pos)
    } else {
        literal_outcome(src, pos)
    }
}

/// The segments of `src` from `pos` on, or the message of the fatal error.
pub open spec fn tokenize(src: Seq<char>, pos: nat) -> Result<Seq<Segment>, Seq<char>>
    decreases src.len() - pos,
{
    if pos >= src.len() {
        Ok(Seq::empty())
    } else {
        match item_outcome(src, pos) {
            Outcome::Matched(s, q) => if pos < q <= src.len() {
                match tokenize(src, q) {
                    Ok(rest) => Ok(seq![s] + rest),
                    Err(m) => Err(m),
                }
            } else {
                Err(unrecognized_message())
            },
            Outcome::NoMatch => Err(unrecognized_message()),
            Outcome::Fatal(m) => Err(m),
        }
    }
}

/// A scan that succeeds stops where the terminator occurs.
proof fn lemma_scan_stops_at_terminator(src: Seq<char>, i: int, term: Seq<char>, esc: Seq<char>)
    requires
        scan(src, i, term, esc) is Some,
    ensures
        ({
            let (t, q) = scan(src, i, term, esc)->0;
            i <= q && occurs_at(src, q, term)
        }),
    decreases src.len() - i,
{
    if esc.len() > 0 && occurs_at(src, i, esc) {
        lemma_scan_stops_at_terminator(src, i + esc.len(), term, esc);
    } else if occurs_at(src, i, term) {
    } else {
        lemma_scan_stops_at_terminator(src, i + 1, term, esc);
    }
}

/// A run of whitespace ends inside the text.
proof fn lemma_space_end_bounds(src: Seq<char>, i: int)
    requires
        0 <= i <= src.len(),
    ensures
        i <= space_end(src, i) <= src.len(),
    decreases src.len() - i,
{
    if i < src.len() && crate::combinators::is_space(src[i]) {
        lemma_space_end_bounds(src, i + 1);
    }
}

/// A run up to a character of a set ends inside the text.
proof fn lemma_run_end_bounds(src: Seq<char>, i: int, set: Seq<char>)
    requires
        0 <= i <= src.len(),
    ensures
        i <= run_end(src, i, set) <= src.len(),
    decreases src.len() - i,
{
    if i < src.len() && !set.contains(src[i]) {
        lemma_run_end_bounds(src, i + 1, set);
    }
}

fn parse_escape(input: &mut Input) -> (r: ParseResult<Item>)
    requires
        old(input).wf(),
    ensures
        final(input).wf(),
        final(input).src() == old(input).src(),
        realizes(r, old(input).at(), final(input).at(), escape_outcome(old(input).src(), old(input).at())),
{
    proof {
        reveal_strlit("{{");
        reveal_strlit("<##");
    }
    match literal("{{").parse(input) {
        Ok(Some(_)) => return Ok(Some(Item::Literal("{".to_owned()))),
        Ok(None) => {},
        Err(e) => return Err(e),
    }
    match literal("<##").parse(input) {
        Ok(Some(_)) => Ok(Some(Item::Literal("<#".to_owned()))),
        Ok(None) => Ok(None),
        Err(e) => Err(e),
    }
}

fn parse_expr(input: &mut Input) -> (r: ParseResult<Item>)
    requires
        old(input).wf(),
    ensures
        final(input).wf(),
        final(input).src() == old(input).src(),
        realizes(r, old(input).at(), final(input).at(), expr_outcome(old(input).src(), old(input).at())),
{
    let ghost src = old(input).src();
    let ghost pos = old(input).at();
    let block = ThenIgnore::new(
        IgnoreThen::new(literal("{"), take_until("}", "}}")),
        literal("}"),
    );
    proof {
        reveal_strlit("{");
        reveal_strlit("}");
        if occurs_at(src, pos as int, "{"@) {
            if let Some((t, q)) = scan(src, (pos + 1) as int, "}"@, "}}"@) {
                lemma_scan_stops_at_terminator(src, (pos + 1) as int, "}"@, "}}"@);
            }
        }
    }
    match block.parse(input) {
        Ok(Some(text)) => Ok(Some(Item::Expression(text))),
        Ok(None) => Ok(None),
        Err(e) => Err(e),
    }
}

fn parse_statement(input: &mut Input) -> (r: ParseResult<Item>)
    requires
        old(input).wf(),
    ensures
        final(input).wf(),
        final(input).src() == old(input).src(),
        realizes(r, old(input).at(), final(input).at(), statement_outcome(old(input).src(), old(input).at())),
{
    let ghost src = old(input).src();
    let ghost pos = old(input).at();
    let block = ThenIgnore::new(
        IgnoreThen::new(
            IgnoreThen::new(literal("<#"), whitespace().optional()),
            take_until("#>", "##>"),
        ),
        literal("#>"),
    );
    proof {
        reveal_strlit("<#");
        reveal_strlit("#>");
        if occurs_at(src, pos as int, "<#"@) {
            let w = space_end(src, (pos + 2) as int);
            lemma_space_end_bounds(src, (pos + 2) as int);
            if let Some((t, q)) = scan(src, w, "#>"@, "##>"@) {
                lemma_scan_stops_at_terminator(src, w, "#>"@, "##>"@);
            }
        }
    }
    match block.parse(input) {
        Ok(Some(text)) => Ok(Some(Item::PlainStatement(text))),
        Ok(None) => Ok(None),
        Err(e) => Err(e),
    }
}

/// Child-template inclusion is not supported: never a match.
fn parse_component(input: &mut Input) -> (r: ParseResult<Item>)
    ensures
        r == Ok::<Option<Item>, Error>(None),
        *final(input) == *old(input),
{
    Ok(None)
}

fn parse_literal(input: &mut Input) -> (r: ParseResult<Item>)
    requires
        old(input).wf(),
    ensures
        final(input).wf(),
        final(input).src() == old(input).src(),
        realizes(r, old(input).at(), final(input).at(), literal_outcome(old(input).src(), old(input).at())),
{
    let ghost src = old(input).src();
    let ghost pos = old(input).at();
    let lead = match input.consume_count(1) {
        Ok(span) => span,
        Err(e) => return Err(e),
    };
    proof {
        lemma_run_end_bounds(src, (pos + 1) as int, "<{"@);
    }
    let rest = match input.consume_until_any("<{") {
        Some(span) => span,
        None => input.consume_all(),
    };
    let spans: Vec<Span> = vec![lead, rest];
    assert(spans@ =~= seq![lead, rest]);
    let combined = input.combine(spans.as_slice());
    proof {
        let e = run_end(src, (pos + 1) as int, "<{"@);
        assert(spans@.drop_last() =~= seq![lead]);
        assert(seq![lead].drop_last() =~= Seq::<Span>::empty());
        assert(spans_text(src, Seq::<Span>::empty()) == Seq::<char>::empty());
        assert(spans_text(src, seq![lead]) =~= src.subrange(pos as int, (pos + 1) as int));
        assert(spans_text(src, spans@) == spans_text(src, seq![lead]) + src.subrange((pos + 1) as int, e));
        assert(src.subrange(pos as int, (pos + 1) as int) + src.subrange((pos + 1) as int, e) =~= src.subrange(
            pos as int,
            e,
        ));
    }
    Ok(Some(Item::Literal(combined)))
}

fn parse_item(input: &mut Input) -> (r: ParseResult<Item>)
    requires
        old(input).wf(),
    ensures
        final(input).wf(),
        final(input).src() == old(input).src(),
        realizes(r, old(input).at(), final(input).at(), item_outcome(old(input).src(), old(input).at())),
{
    match parse_escape(input) {
        Ok(None) => {},
        other => return other,
    }
    match parse_expr(input) {
        Ok(None) => {},
        other => return other,
    }
    match parse_statement(input) {
        Ok(None) => {},
        other => return other,
    }
    match parse_component(input) {
        Ok(None) => {},
        other => return other,
    }
    parse_literal(input)
}

/// Every recognized item consumes at least one character and stays inside
/// the text, so each round of the tokenizer moves strictly forward.
pub proof fn lemma_item_progress(src: Seq<char>, pos: nat)
    requires
        pos < src.len(),
    ensures
        item_outcome(src, pos) matches Outcome::Matched(_, q) ==> pos < q <= src.len(),
{
    reveal_strlit("{{");
    reveal_strlit("<##");
    reveal_strlit("{");
    reveal_strlit("}");
    reveal_strlit("<#");
    reveal_strlit("#>");
    if occurs_at(src, pos as int, "{"@) {
        if scan(src, (pos + 1) as int, "}"@, "}}"@) is Some {
            lemma_scan_stops_at_terminator(src, (pos + 1) as int, "}"@, "}}"@);
        }
    }
    if occurs_at(src, pos as int, "<#"@) {
        let w = space_end(src, (pos + 2) as int);
        lemma_space_end_bounds(src, (pos + 2) as int);
        if scan(src, w, "#>"@, "##>"@) is Some {
            lemma_scan_stops_at_terminator(src, w, "#>"@, "##>"@);
        }
    }
    lemma_run_end_bounds(src, (pos + 1) as int, "<{"@);
}

/// The positions where the successive items of a tokenization from `pos`
/// start, followed by the position where the last one ends.
pub open spec fn boundaries(src: Seq<char>, pos: nat) -> Seq<nat>
    decreases src.len() - pos,
{
    if pos >= src.len() {
        seq![pos]
    } else {
        match item_outcome(src, pos) {
            Outcome::Matched(_, q) => if pos < q <= src.len() {
                seq![pos] + boundaries(src, q)
            } else {
                seq![pos]
            },
            _ => seq![pos],
        }
    }
}

/// A successful tokenization covers the whole text: its items come from
/// consecutive, non-empty regions that start at `pos` and end at the end of
/// the text, each region being exactly what the ordered choice of
/// recognizers consumed there and each item what it produced.
pub proof fn lemma_total_coverage(src: Seq<char>, pos: nat)
    requires
        pos <= src.len(),
        tokenize(src, pos) is Ok,
    ensures
        ({
            let segs = tokenize(src, pos)->Ok_0;
            let b = boundaries(src, pos);
            &&& b.len() == segs.len() + 1
            &&& b[0] == pos
            &&& b.last() == src.len()
            &&& forall|k: int|
                0 <= k < segs.len() ==> b[k] < b[k + 1] && #[trigger] item_outcome(src, b[k])
                    == Outcome::Matched(segs[k], b[k + 1])
        }),
    decreases src.len() - pos,
{
    if pos < src.len() {
        lemma_item_progress(src, pos);
        if let Outcome::Matched(seg, q) = item_outcome(src, pos) {
            lemma_total_coverage(src, q);
            let segs = tokenize(src, pos)->Ok_0;
            let rest = tokenize(src, q)->Ok_0;
            let b = boundaries(src, pos);
            let rb = boundaries(src, q);
            assert(segs == seq![seg] + rest);
            assert(b == seq![pos] + rb);
            assert forall|k: int| 0 <= k < segs.len() implies b[k] < b[k + 1] && #[trigger] item_outcome(
                src,
                b[k],
            ) == Outcome::Matched(segs[k], b[k + 1]) by {
                if k > 0 {
                    assert(b[k] == rb[k - 1]);
                    assert(segs[k] == rest[k - 1]);
                    assert(item_outcome(src, rb[k - 1]) == Outcome::Matched(rest[k - 1], rb[k]));
                }
            }
        }
    }
}

/// A run that meets no character of `set` goes to the end of the text.
proof fn lemma_run_to_end(src: Seq<char>, i: int, set: Seq<char>)
    requires
        0 <= i <= src.len(),
        forall|j: int| i <= j < src.len() ==> !set.contains(#[trigger] src[j]),
    ensures
        run_end(src, i, set) == src.len(),
    decreases src.len() - i,
{
    if i < src.len() {
        lemma_run_to_end(src, i + 1, set);
    }
}

/// Text with no `{` and no `<` is a single literal item that reproduces it
/// exactly.
pub proof fn lemma_plain_text(src: Seq<char>)
    requires
        src.len() > 0,
        forall|i: int| 0 <= i < src.len() ==> #[trigger] src[i] != '{' && src[i] != '<',
    ensures
        tokenize(src, 0) == Ok::<Seq<Segment>, Seq<char>>(seq![Segment::Literal(src)]),
{
    reveal_strlit("{{");
    reveal_strlit("<##");
    reveal_strlit("{");
    reveal_strlit("<#");
    reveal_strlit("<{");
    assert(src.subrange(0, 1)[0] == src[0]);
    assert forall|j: int| 1 <= j < src.len() implies !"<{"@.contains(#[trigger] src[j]) by {
        if "<{"@.contains(src[j]) {
            let k = choose|k: int| 0 <= k < "<{"@.len() && "<{"@[k] == src[j];
            assert(k == 0 || k == 1);
        }
    }
    lemma_run_to_end(src, 1, "<{"@);
    assert(src.subrange(0, src.len() as int) =~= src);
    assert(tokenize(src, src.len()) == Ok::<Seq<Segment>, Seq<char>>(Seq::empty()));
    assert(seq![Segment::Literal(src)] + Seq::<Segment>::empty() =~= seq![Segment::Literal(src)]);
}

/// Where an escape and a block could both start, the escape wins: `{{` is a
/// literal brace although `{` opens an expression, and `<##` is a literal
/// `<#` although `<#` opens a statement.
pub proof fn lemma_escape_has_priority(src: Seq<char>, pos: nat)
    ensures
        occurs_at(src, pos as int, "{{"@) ==> !(expr_outcome(src, pos) is NoMatch) && item_outcome(
            src,
            pos,
        ) == Outcome::Matched(Segment::Literal("{"@), pos + 2),
        occurs_at(src, pos as int, "<##"@) ==> !(statement_outcome(src, pos) is NoMatch)
            && item_outcome(src, pos) == Outcome::Matched(Segment::Literal("<#"@), pos + 3),
{
    reveal_strlit("{{");
    reveal_strlit("<##");
    reveal_strlit("{");
    reveal_strlit("<#");
    if occurs_at(src, pos as int, "{{"@) {
        assert(src.subrange(pos as int, (pos + 1) as int) =~= "{"@);
    }
    if occurs_at(src, pos as int, "<##"@) {
        assert(src.subrange(pos as int, (pos + 3) as int)[0] == src[pos as int]);
        if occurs_at(src, pos as int, "{{"@) {
            assert(src.subrange(pos as int, (pos + 2) as int)[0] == src[pos as int]);
        }
        assert(src.subrange(pos as int, (pos + 2) as int) =~= "<#"@);
    }
}

/// An escaped terminator does not end a scan: the scan goes on past it, and
/// the text gets one terminator in its place.
pub proof fn lemma_escape_folding(src: Seq<char>, i: int, term: Seq<char>, esc: Seq<char>)
    requires
        esc.len() > 0,
        occurs_at(src, i, esc),
    ensures
        scan(src, i, term, esc) == prefixed(term, scan(src, i + esc.len(), term, esc)),
{
}

/// Puts `prefix` in front of the segments of a tokenization.
pub open spec fn prepended(prefix: Seq<Segment>, r: Result<Seq<Segment>, Seq<char>>) -> Result<
    Seq<Segment>,
    Seq<char>,
> {
    match r {
        Ok(s) => Ok(prefix + s),
        Err(m) => Err(m),
    }
}

/// Tokenizes HTML templates.
pub struct HtmlParser;

impl HtmlParser {
    /// Splits the text from the input's position on into items, or gives
    /// the first fatal error; no partial result is returned.
    pub fn parse(&mut self, input: Input) -> (r: Result<Vec<Item>, Error>)
        requires
            input.wf(),
        ensures
            match tokenize(input.src(), input.at()) {
                Ok(segs) => r is Ok && r->Ok_0.deep_view() == segs,
                Err(m) => r is Err && r->Err_0.message@ == m,
            },
    {
        let ghost src = input.src();
        let ghost start = input.at();
        let mut cursor = input;
        let mut items: Vec<Item> = Vec::new();
        assert(items.deep_view() =~= Seq::<Segment>::empty());
        assert(Seq::<Segment>::empty() + tokenize(src, start)->Ok_0 =~= tokenize(src, start)->Ok_0);
        while !cursor.is_at_end()
            invariant
                cursor.wf(),
                src == input.src(),
                start == input.at(),
                cursor.src() == src,
                tokenize(src, start) == prepended(items.deep_view(), tokenize(src, cursor.at())),
            decreases src.len() - cursor.at(),
        {
            let ghost pos = cursor.at();
            let ghost before = items.deep_view();
            proof {
                lemma_item_progress(src, pos);
            }
            match parse_item(&mut cursor) {
                Ok(Some(item)) => {
                    items.push(item);
                    proof {
                        let q = cursor.at();
                        assert(items.deep_view() =~= before.push(item.deep_view()));
                        if let Ok(rest) = tokenize(src, q) {
                            assert(before + (seq![item.deep_view()] + rest) =~= items.deep_view()
                                + rest);
                        }
                    }
                },
                Ok(None) => return Err(Error::unrecognized_content()),
                Err(e) => return Err(e),
            }
        }
        assert(items.deep_view() + Seq::<Segment>::empty() =~= items.deep_view());
        Ok(items)
    }
}

} // verus!
