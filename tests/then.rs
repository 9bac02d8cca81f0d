use stardust::{just, literal, Input, Parser, Then};

#[test]
fn then() {
    let first = just(10);
    let second = just(20);

    let combined = Then::new(first, second);

    let result = combined.parse(&mut Input::new(""));

    assert_eq!(Ok(Some((10, 20))), result);
}

#[test]
fn then_resets_when_second_does_not_match() {
    let combined = Then::new(literal("ab"), literal("x"));
    let mut input = Input::new("abc");
    let result = combined.parse(&mut input);
    assert_eq!(result, Ok(None));
    assert_eq!(input.position(), 0);
}
