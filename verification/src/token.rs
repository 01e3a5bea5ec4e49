use crate::graphql_error_note::GraphQLErrorNotes;
use crate::graphql_source_span::GraphQLSourceSpan;
use vstd::prelude::*;

verus! {

/// The kind of a lexical token of GraphQL source text.
#[derive(Clone, Debug, PartialEq)]
pub enum GraphQLTokenKind {
    /// `&`
    Ampersand,
    /// `@`
    At,
    /// `!`
    Bang,
    /// `:`
    Colon,
    /// `}`
    CurlyBraceClose,
    /// `{`
    CurlyBraceOpen,
    /// `$`
    Dollar,
    /// `...`
    Ellipsis,
    /// `=`
    Equals,
    /// `)`
    ParenClose,
    /// `(`
    ParenOpen,
    /// `|`
    Pipe,
    /// `]`
    SquareBracketClose,
    /// `[`
    SquareBracketOpen,
    /// A name (identifier), including keywords other than `true`, `false`
    /// and `null`.
    Name(String),
    /// An integer literal, as written.
    IntValue(String),
    /// A float literal, as written.
    FloatValue(String),
    /// A string literal: its processed value and whether it was a block
    /// string.
    StringValue { value: String, is_block: bool },
    /// `true`
    True,
    /// `false`
    False,
    /// `null`
    Null,
    /// End of input.
    Eof,
    /// A lexical error, with a message and notes.
    Error { message: String, notes: GraphQLErrorNotes },
}

/// Source text between tokens that carries no meaning for the grammar
/// but is kept for tools that reproduce the source: a comment or a comma.
#[derive(Clone, Debug, PartialEq)]
pub enum GraphQLTriviaToken {
    /// A `#` comment; `value` is its text after the `#`, up to the end of
    /// the line.
    Comment { value: String, span: GraphQLSourceSpan },
    /// A `,`.
    Comma { span: GraphQLSourceSpan },
}

/// A lexical token with its source span and the trivia that came before
/// it (after the previous token).
#[derive(Clone, Debug, PartialEq)]
pub struct GraphQLToken {
    /// What the token is.
    pub kind: GraphQLTokenKind,
    /// The comments and commas between the previous token and this one,
    /// in source order.
    pub preceding_trivia: Vec<GraphQLTriviaToken>,
    /// Where the token is.
    pub span: GraphQLSourceSpan,
}

} // verus!
