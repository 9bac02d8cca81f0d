use stardust::{HtmlParser, Input, Item};

fn lit(s: &str) -> Item {
    Item::Literal(s.to_string())
}

fn expr(s: &str) -> Item {
    Item::Expression(s.to_string())
}

#[test]
fn top_level_escapes() {
    let mut parser = HtmlParser;

    let input = Input::new("{{<##");
    let result = parser.parse(input);

    assert!(result.is_ok(), "Error in result: {:?}", result.clone().unwrap_err());
    assert_eq!(result.unwrap(), vec![lit("{"), lit("<#")]);
}

#[test]
fn literal_plain() {
    let mut parser = HtmlParser;

    let input = Input::new("Hello, World!");
    let result = parser.parse(input);

    assert!(result.is_ok(), "Error in result: {:?}", result.clone().unwrap_err());
    assert_eq!(result.unwrap(), vec![lit("Hello, World!")]);
}

#[test]
fn expression() {
    let mut parser = HtmlParser;

    let input = Input::new("{self.name.to_ascii_uppercase()}");
    let result = parser.parse(input);

    assert!(result.is_ok(), "Error in result: {:?}", result.clone().unwrap_err());
    assert_eq!(result.unwrap(), vec![expr("self.name.to_ascii_uppercase()")]);
}

#[test]
fn literal_with_expression() {
    let mut parser = HtmlParser;

    let input = Input::new("<div>{self.name.to_ascii_uppercase()}</div>");
    let result = parser.parse(input);

    assert!(result.is_ok(), "Error in result: {:?}", result.clone().unwrap_err());
    assert_eq!(
        result.unwrap(),
        vec![
            lit("<div>"),
            expr("self.name.to_ascii_uppercase()"),
            lit("</div>")
        ]
    );
}

#[test]
fn expression_then_literal() {
    let mut parser = HtmlParser;

    let input = Input::new("{self.name} is here");
    let result = parser.parse(input);

    assert!(result.is_ok(), "Error in result: {:?}", result.clone().unwrap_err());
    assert_eq!(result.unwrap(), vec![expr("self.name"), lit(" is here")]);
}

#[test]
fn plain_statement() {
    let mut parser = HtmlParser;

    let input = Input::new("<# println!(\"Hello, {}\", self.name) #>");
    let result = parser.parse(input);

    assert!(result.is_ok(), "Error in result: {:?}", result.clone().unwrap_err());
    assert_eq!(
        result.unwrap(),
        vec![Item::PlainStatement(
            "println!(\"Hello, {}\", self.name) ".to_string()
        )]
    );
}

fn tokenize(s: &str) -> Result<Vec<Item>, stardust::Error> {
    HtmlParser.parse(Input::new(s))
}

#[test]
fn short_expression() {
    assert_eq!(tokenize("{x.y()}"), Ok(vec![expr("x.y()")]));
}

#[test]
fn literal_around_expression() {
    assert_eq!(
        tokenize("<div>{x}</div>"),
        Ok(vec![lit("<div>"), expr("x"), lit("</div>")])
    );
}

#[test]
fn statement_keeps_inner_whitespace() {
    assert_eq!(
        tokenize("<# stmt() #>"),
        Ok(vec![Item::PlainStatement("stmt() ".to_string())])
    );
}

#[test]
fn unterminated_statement_is_fatal() {
    let r = tokenize("<# unterminated");
    assert_eq!(r.unwrap_err().message, "Unterminated block");
}

#[test]
fn unterminated_expression_is_fatal() {
    let r = tokenize("ok {x");
    assert_eq!(r.unwrap_err().message, "Unterminated block");
}

#[test]
fn empty_source_gives_no_items() {
    assert_eq!(tokenize(""), Ok(vec![]));
}

#[test]
fn escape_wins_over_expression() {
    assert_eq!(tokenize("{{x}"), Ok(vec![lit("{"), lit("x}")]));
}

#[test]
fn escape_wins_over_statement() {
    assert_eq!(tokenize("<##x"), Ok(vec![lit("<#"), lit("x")]));
}

#[test]
fn doubled_closer_stays_in_expression() {
    assert_eq!(tokenize("{a}}b}c"), Ok(vec![expr("a}b"), lit("c")]));
}

#[test]
fn doubled_statement_closer_stays_in_statement() {
    assert_eq!(
        tokenize("<#a##>b#>"),
        Ok(vec![Item::PlainStatement("a#>b".to_string())])
    );
}

#[test]
fn lone_angle_bracket_is_literal() {
    assert_eq!(tokenize("a<b"), Ok(vec![lit("a"), lit("<b")]));
}

#[test]
fn non_ascii_text_is_kept() {
    assert_eq!(tokenize("héllo {ü} ✓"), Ok(vec![lit("héllo "), expr("ü"), lit(" ✓")]));
}

#[test]
fn tokenizing_from_a_later_position() {
    let mut input = Input::new("abc{x}");
    input.reset_to(3);
    assert_eq!(HtmlParser.parse(input), Ok(vec![expr("x")]));
}
