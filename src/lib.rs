//! A template tokenizer built on a small backtracking parser-combinator
//! runtime: literal text is split from `{ expression }` and `<# statement #>`
//! blocks, with doubled markers standing for literal occurrences.
pub mod combinators;
pub mod error;
pub mod html;
pub mod input;
pub mod then;

pub use combinators::{
    just, literal, take_until, whitespace, Just, Literal, Optional, Outcome, ParseResult, Parser,
    TakeUntil, Whitespace,
};
pub use error::Error;
pub use html::{HtmlParser, Item, Segment};
pub use input::{Input, Span};
pub use then::{IgnoreThen, Then, ThenIgnore};
