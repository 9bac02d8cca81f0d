use stardust::{literal, take_until, whitespace, IgnoreThen, Input, Parser, Span, ThenIgnore, Whitespace};

#[test]
fn literal_match_advances() {
    let mut input = Input::new("<#x");
    assert_eq!(literal("<#").parse(&mut input), Ok(Some(Span { start: 0, end: 2 })));
    assert_eq!(input.position(), 2);
}

#[test]
fn literal_no_match_leaves_position() {
    let mut input = Input::new("abc");
    input.reset_to(1);
    assert_eq!(literal("c").parse(&mut input), Ok(None));
    assert_eq!(input.position(), 1);
}

#[test]
fn take_until_folds_escape() {
    let mut input = Input::new("a}}b}c");
    let r = take_until("}", "}}").parse(&mut input);
    assert_eq!(r, Ok(Some("a}b".to_string())));
    assert_eq!(input.position(), 4);
}

#[test]
fn take_until_without_terminator_is_fatal() {
    let mut input = Input::new("a}}b");
    let r = take_until("}", "}}").parse(&mut input);
    assert_eq!(r.unwrap_err().message, "Unterminated block");
}

#[test]
fn whitespace_takes_longest_run() {
    let mut input = Input::new(" \t\n x");
    assert_eq!(whitespace().parse(&mut input), Ok(Some(Span { start: 0, end: 4 })));
    assert_eq!(input.position(), 4);
}

#[test]
fn whitespace_may_be_empty() {
    let mut input = Input::new("x");
    assert_eq!(whitespace().parse(&mut input), Ok(Some(Span { start: 0, end: 0 })));
}

#[test]
fn whitespace_at_least_one_reports_no_match() {
    let mut input = Input::new("x");
    let p = Whitespace { at_least_one: true };
    assert_eq!(p.parse(&mut input), Ok(None));
    assert_eq!(input.position(), 0);
}

#[test]
fn optional_turns_no_match_into_none() {
    let mut input = Input::new("x");
    let p = Whitespace { at_least_one: true }.optional();
    assert_eq!(p.parse(&mut input), Ok(Some(None)));
    assert_eq!(input.position(), 0);
}

#[test]
fn ignore_then_keeps_second() {
    let mut input = Input::new("{ab}");
    let p = ThenIgnore::new(IgnoreThen::new(literal("{"), take_until("}", "}}")), literal("}"));
    assert_eq!(p.parse(&mut input), Ok(Some("ab".to_string())));
    assert_eq!(input.position(), 4);
}

#[test]
fn ignore_then_resets_on_no_match() {
    let mut input = Input::new("{ab");
    let p = IgnoreThen::new(literal("{"), literal("x"));
    assert_eq!(p.parse(&mut input), Ok(None));
    assert_eq!(input.position(), 0);
}

#[test]
fn consume_count_past_end_is_fatal() {
    let mut input = Input::new("ab");
    assert_eq!(input.consume_count(3).unwrap_err().message, "Unexpected end of input");
    assert_eq!(input.consume_count(2), Ok(Span { start: 0, end: 2 }));
}

#[test]
fn consume_until_any_stops_before_delimiter() {
    let mut input = Input::new("ab{c");
    assert_eq!(input.consume_until_any("<{"), Some(Span { start: 0, end: 2 }));
    assert_eq!(input.position(), 2);
    input.reset_to(3);
    assert_eq!(input.consume_until_any("<{"), None);
    assert_eq!(input.position(), 3);
    assert_eq!(input.consume_all(), Span { start: 3, end: 4 });
}

#[test]
fn combine_joins_spans() {
    let input = Input::new("hello world");
    let s = input.combine(&[Span { start: 0, end: 2 }, Span { start: 6, end: 8 }]);
    assert_eq!(s, "hewo");
}

#[test]
fn error_new_keeps_message() {
    assert_eq!(stardust::Error::new("boom").message, "boom");
}

#[test]
fn error_shows_its_message() {
    assert_eq!(stardust::Error::new("boom").to_string(), "boom");
}
