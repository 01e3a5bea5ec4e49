use crate::definition_kind::DefinitionKind;
use crate::definition_kind::DocumentKind;
use crate::graphql_string_parsing_error::ValueParsingError;
use crate::reserved_name_context::ReservedNameContext;
use vstd::prelude::*;
use vstd::string::StringExecFns;

verus! {

/// Categorizes parse errors for programmatic handling.
#[derive(Debug, Clone, PartialEq)]
pub enum GraphQLParseErrorKind {
    /// Expected specific token(s) but found something else.
    UnexpectedToken {
        /// What tokens were expected.
        expected: Vec<String>,
        /// Description of what was found.
        found: String,
    },
    /// Unexpected end of input while parsing.
    UnexpectedEof {
        /// What was expected when EOF was encountered.
        expected: Vec<String>,
    },
    /// Lexer error encountered during parsing.
    LexerError,
    /// A delimiter was opened but never closed.
    UnclosedDelimiter {
        /// The unclosed delimiter (e.g. `"{"`).
        delimiter: String,
    },
    /// A closing delimiter does not match the most recently opened one.
    MismatchedDelimiter {
        /// The expected closing delimiter.
        expected: String,
        /// The closing delimiter found.
        found: String,
    },
    /// Invalid literal value.
    InvalidValue(ValueParsingError),
    /// Reserved name used in a context where it is not allowed.
    ReservedName {
        /// The reserved name that was used.
        name: String,
        /// The context where this name is not allowed.
        context: ReservedNameContext,
    },
    /// Definition kind not allowed in the document being parsed.
    WrongDocumentKind {
        /// What kind of definition was found.
        found: DefinitionKind,
        /// What kind of document is being parsed.
        document_kind: DocumentKind,
    },
    /// Empty construct that requires content (e.g. `{ }`).
    InvalidEmptyConstruct {
        /// What construct is empty.
        construct: String,
    },
    /// A construct that a target AST cannot represent.
    UnsupportedFeature {
        /// The feature that cannot be represented.
        feature: String,
    },
    /// Invalid syntax that does not fit other categories.
    InvalidSyntax,
}

/// The short description of an error kind.
pub open spec fn kind_text(k: GraphQLParseErrorKind) -> Seq<char> {
    match k {
        GraphQLParseErrorKind::UnexpectedToken { found, .. } => "unexpected token: `"@ + found@ + "`"@,
        GraphQLParseErrorKind::UnexpectedEof { .. } => "unexpected end of input"@,
        GraphQLParseErrorKind::LexerError => "lexer error"@,
        GraphQLParseErrorKind::UnclosedDelimiter { delimiter } => "unclosed delimiter: `"@ + delimiter@
            + "`"@,
        GraphQLParseErrorKind::MismatchedDelimiter { .. } => "mismatched delimiter"@,
        GraphQLParseErrorKind::InvalidValue(_) => "invalid value"@,
        GraphQLParseErrorKind::ReservedName { name, .. } => "reserved name: `"@ + name@ + "`"@,
        GraphQLParseErrorKind::WrongDocumentKind { .. } => "wrong document kind"@,
        GraphQLParseErrorKind::InvalidEmptyConstruct { construct } => "invalid empty construct: `"@
            + construct@ + "`"@,
        GraphQLParseErrorKind::UnsupportedFeature { feature } => "unsupported feature: `"@ + feature@
            + "`"@,
        GraphQLParseErrorKind::InvalidSyntax => "invalid syntax"@,
    }
}

/// `pre`, then `mid`, then a closing backtick.
fn quoted(pre: &str, mid: &str) -> (r: String)
    ensures
        r@ == pre@ + mid@ + "`"@,
{
    let mut out = pre.to_owned();
    out.append(mid);
    out.append("`");
    out
}

impl GraphQLParseErrorKind {
    /// A short description of the error kind; the full message is on the
    /// error itself.
    pub fn display_text(&self) -> (r: String)
        ensures
            r@ == kind_text(*self),
    {
        match self {
            GraphQLParseErrorKind::UnexpectedToken { found, .. } => quoted("unexpected token: `", found.as_str()),
            GraphQLParseErrorKind::UnexpectedEof { .. } => "unexpected end of input".to_owned(),
            GraphQLParseErrorKind::LexerError => "lexer error".to_owned(),
            GraphQLParseErrorKind::UnclosedDelimiter { delimiter } => quoted(
                "unclosed delimiter: `",
                delimiter.as_str(),
            ),
            GraphQLParseErrorKind::MismatchedDelimiter { .. } => "mismatched delimiter".to_owned(),
            GraphQLParseErrorKind::InvalidValue(_) => "invalid value".to_owned(),
            GraphQLParseErrorKind::ReservedName { name, .. } => quoted("reserved name: `", name.as_str()),
            GraphQLParseErrorKind::WrongDocumentKind { .. } => "wrong document kind".to_owned(),
            GraphQLParseErrorKind::InvalidEmptyConstruct { construct } => quoted(
                "invalid empty construct: `",
                construct.as_str(),
            ),
            GraphQLParseErrorKind::UnsupportedFeature { feature } => quoted(
                "unsupported feature: `",
                feature.as_str(),
            ),
            GraphQLParseErrorKind::InvalidSyntax => "invalid syntax".to_owned(),
        }
    }
}

} // verus!
