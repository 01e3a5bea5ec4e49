//! A lossless, error-tolerant GraphQL tokenizer and parser, with a
//! compatibility layer for the `graphql_parser` v0.4 AST.

pub mod ast;
mod byte_span;
pub mod compat_graphql_parser_v0_4;
mod definition_kind;
mod graphql_error_note;
mod graphql_error_note_kind;
mod graphql_parse_error;
mod graphql_parse_error_kind;
pub mod graphql_parser;
mod graphql_parser_config;
mod graphql_source_span;
mod graphql_string_parsing_error;
mod graphql_token_stream;
pub mod lexer;
mod parse_result;
mod reserved_name_context;
mod source_map;
mod source_position;
mod source_span;
mod text;
pub mod token;
mod token_queue;

pub use byte_span::ByteSpan;
pub use definition_kind::DefinitionKind;
pub use definition_kind::DocumentKind;
pub use graphql_error_note::GraphQLErrorNote;
pub use graphql_error_note::GraphQLErrorNotes;
pub use graphql_error_note_kind::GraphQLErrorNoteKind;
pub use graphql_parse_error::GraphQLParseError;
pub use graphql_parse_error_kind::GraphQLParseErrorKind;
pub use graphql_parser::GraphQLParser;
pub use graphql_parser_config::GraphQLParserConfig;
pub use graphql_source_span::GraphQLSourceSpan;
pub use graphql_string_parsing_error::GraphQLStringParsingError;
pub use graphql_string_parsing_error::ValueParsingError;
pub use graphql_token_stream::GraphQLTokenStream;
pub use parse_result::ParseResult;
pub use reserved_name_context::ReservedNameContext;
pub use source_map::SourceMap;
pub use source_position::AstPos;
pub use source_position::SourcePosition;
pub use source_position::SourcePositionView;
pub use source_span::SourceSpan;

use crate::graphql_parser::documents::definition_is_const;
use crate::graphql_parser::documents::is_executable_definition;
use crate::graphql_parser::documents::is_type_system_definition;
use crate::graphql_parser::source_map_of;
use crate::graphql_parser::ends_at_eof;
use crate::graphql_parser::documents::document_written;
use crate::lexer::tokens_wf;
use crate::source_map::fits_offsets;
use crate::token::GraphQLToken;
use vstd::prelude::*;
use vstd::string::StringSliceAdditionalSpecFns;

verus! {

/// Parses a schema document from text.
pub fn parse_schema(source: &str) -> (r: ParseResult<'_, ast::Document>)
    requires
        fits_offsets(source.spec_bytes()),
    ensures
        r.wf(),
        forall|i: int|
            0 <= i < r.spec_ast().definitions@.len() ==> is_type_system_definition(
                #[trigger] r.spec_ast().definitions@[i],
            ) && definition_is_const(r.spec_ast().definitions@[i]),
        source_map_of(Some(source), r.spec_source_map()@),
        r.spec_ast().syntax is Some,
        r is Success ==> document_written(r.spec_ast(), source.spec_bytes()),
{
    let p = GraphQLParser::new(source);
    let ghost p0 = p;
    proof {
        lemma_tokens_end_at_eof(source.spec_bytes(), p.rest());
    }
    let r = p.parse_schema_document();
    proof {
        if r is Success {
            assert(tokens_wf(source.spec_bytes(), p0.rest()));
        }
    }
    r
}

/// Parses an executable document (operations and fragments) from text.
pub fn parse_executable(source: &str) -> (r: ParseResult<'_, ast::Document>)
    requires
        fits_offsets(source.spec_bytes()),
    ensures
        r.wf(),
        forall|i: int|
            0 <= i < r.spec_ast().definitions@.len() ==> is_executable_definition(
                #[trigger] r.spec_ast().definitions@[i],
            ) && definition_is_const(r.spec_ast().definitions@[i]),
        source_map_of(Some(source), r.spec_source_map()@),
        r.spec_ast().syntax is Some,
        r is Success ==> document_written(r.spec_ast(), source.spec_bytes()),
{
    let p = GraphQLParser::new(source);
    let ghost p0 = p;
    proof {
        lemma_tokens_end_at_eof(source.spec_bytes(), p.rest());
    }
    let r = p.parse_executable_document();
    proof {
        if r is Success {
            assert(tokens_wf(source.spec_bytes(), p0.rest()));
        }
    }
    r
}

/// Parses a mixed document (type-system and executable definitions) from
/// text.
pub fn parse(source: &str) -> (r: ParseResult<'_, ast::Document>)
    requires
        fits_offsets(source.spec_bytes()),
    ensures
        r.wf(),
        forall|i: int|
            0 <= i < r.spec_ast().definitions@.len() ==> definition_is_const(
                #[trigger] r.spec_ast().definitions@[i],
            ),
        source_map_of(Some(source), r.spec_source_map()@),
        r.spec_ast().syntax is Some,
        r is Success ==> document_written(r.spec_ast(), source.spec_bytes()),
{
    let p = GraphQLParser::new(source);
    let ghost p0 = p;
    proof {
        lemma_tokens_end_at_eof(source.spec_bytes(), p.rest());
    }
    let r = p.parse_mixed_document();
    proof {
        if r is Success {
            assert(tokens_wf(source.spec_bytes(), p0.rest()));
        }
    }
    r
}

/// Well-formed tokens end at their only `Eof` token.
proof fn lemma_tokens_end_at_eof(bytes: Seq<u8>, ts: Seq<GraphQLToken>)
    requires
        tokens_wf(bytes, ts),
    ensures
        ends_at_eof(ts),
{
}

} // verus!
