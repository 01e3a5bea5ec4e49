use vstd::prelude::*;
use vstd::string::StringExecFns;

verus! {

/// Error returned when parsing a GraphQL string value fails.
#[derive(Clone, Debug, PartialEq)]
pub enum GraphQLStringParsingError {
    /// An invalid escape sequence was encountered (e.g. `\q`).
    InvalidEscapeSequence(String),
    /// The string was not properly terminated.
    UnterminatedString,
    /// An invalid Unicode escape sequence was encountered.
    InvalidUnicodeEscape(String),
}

/// Error produced when a literal value cannot be interpreted.
#[derive(Clone, Debug, PartialEq)]
pub enum ValueParsingError {
    /// An integer literal is not a 32-bit signed integer; holds its text.
    Int(String),
    /// A float literal is not a finite number; holds its text.
    Float(String),
    /// A string literal could not be processed.
    String(GraphQLStringParsingError),
}

/// The description of a string parsing error.
pub open spec fn string_error_text(e: GraphQLStringParsingError) -> Seq<char> {
    match e {
        GraphQLStringParsingError::InvalidEscapeSequence(s) => "Invalid escape sequence: `"@ + s@ + "`"@,
        GraphQLStringParsingError::UnterminatedString => "Unterminated string: missing closing quote"@,
        GraphQLStringParsingError::InvalidUnicodeEscape(s) => "Invalid unicode escape: `"@ + s@ + "`"@,
    }
}

impl GraphQLStringParsingError {
    /// The description of the error.
    pub fn display_text(&self) -> (r: String)
        ensures
            r@ == string_error_text(*self),
    {
        match self {
            GraphQLStringParsingError::InvalidEscapeSequence(s) => {
                let mut out = "Invalid escape sequence: `".to_owned();
                out.append(s.as_str());
                out.append("`");
                out
            },
            GraphQLStringParsingError::UnterminatedString => "Unterminated string: missing closing quote".to_owned(),
            GraphQLStringParsingError::InvalidUnicodeEscape(s) => {
                let mut out = "Invalid unicode escape: `".to_owned();
                out.append(s.as_str());
                out.append("`");
                out
            },
        }
    }
}

} // verus!
