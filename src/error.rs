use vstd::prelude::*;

verus! {

/// A fatal parse error: the template cannot be tokenized.
#[derive(Debug, Clone, PartialEq, Eq)]
pub struct Error {
    pub message: String,
}

impl Error {
    pub fn new(message: &str) -> (r: Error)
        ensures
            r.message@ == message@,
    {
        Error { message: message.to_owned() }
    }

    /// The message, as the error is shown to a user.
    pub fn to_string(&self) -> (r: String)
        ensures
            r@ == self.message@,
    {
        self.message.clone()
    }

    /// An expression or statement block whose closing marker never comes.
    pub fn unterminated_block() -> (r: Error)
        ensures
            r.message@ == unterminated_message(),
    {
        Error::new("Unterminated block")
    }

    /// The input ended where more text was required.
    pub fn unexpected_eof() -> (r: Error)
        ensures
            r.message@ == unexpected_eof_message(),
    {
        Error::new("Unexpected end of input")
    }

    /// The tokenizer found nothing it could recognize.
    pub fn unrecognized_content() -> (r: Error)
        ensures
            r.message@ == unrecognized_message(),
    {
        Error::new("Unrecognized content")
    }
}

pub open spec fn unterminated_message() -> Seq<char> {
    "Unterminated block"@
}

pub open spec fn unexpected_eof_message() -> Seq<char> {
    "Unexpected end of input"@
}

pub open spec fn unrecognized_message() -> Seq<char> {
    "Unrecognized content"@
}

} // verus!
