//! Recursive-descent parser for GraphQL documents, with error recovery.
//!
//! Each grammar rule has a `parse_*` method returning `Result<node, ()>`:
//! `Err(())` means that an error was recorded and the caller should
//! recover. This lets one pass collect several errors.
//!
//! Every parse method only moves forward through the tokens, never drops
//! a recorded error, and records at least one error whenever it fails.

pub(crate) mod directive_defs;
pub mod documents;
mod extensions;
mod operations;
mod selections;
mod type_system;
mod types;
mod values;

use crate::ast;
use crate::graphql_parse_error::GraphQLParseError;
use crate::graphql_parse_error_kind::GraphQLParseErrorKind;
use crate::graphql_parser_config::GraphQLParserConfig;
use crate::graphql_source_span::GraphQLSourceSpan;
use crate::token_queue::TokenQueue;
use crate::lexer::tokenize;
use crate::lexer::tokens_wf;
use crate::parse_result::ParseResult;
use crate::source_map::fits_offsets;
use crate::source_map::SourceMap;
use crate::source_map::SourceMapMode;
use crate::source_map::SourceMapView;
use crate::source_position::SourcePosition;
use crate::text::str_eq;
use crate::token::GraphQLToken;
use crate::token::GraphQLTokenKind;
use crate::token::GraphQLTriviaToken;
use vstd::prelude::*;
use vstd::string::StringExecFns;
use vstd::string::StringSliceAdditionalSpecFns;

verus! {

/// The deepest nesting of values, selection sets and type annotations that
/// the parser accepts.
pub const MAX_RECURSION_DEPTH: usize = 32;

/// The construct in which a delimiter was opened, for error messages.
#[derive(Clone, Copy, Debug)]
pub(crate) enum DelimiterContext {
    SchemaDefinition,
    ObjectTypeDefinition,
    InterfaceDefinition,
    EnumDefinition,
    InputObjectDefinition,
    SelectionSet,
    FieldArguments,
    DirectiveArguments,
    VariableDefinitions,
    ListType,
    ListValue,
    ObjectValue,
    ArgumentDefinitions,
}

/// The human-readable description of the construct `c`.
pub(crate) open spec fn delimiter_context_text(c: DelimiterContext) -> Seq<char> {
    match c {
        DelimiterContext::SchemaDefinition => "schema definition"@,
        DelimiterContext::ObjectTypeDefinition => "object type definition"@,
        DelimiterContext::InterfaceDefinition => "interface definition"@,
        DelimiterContext::EnumDefinition => "enum definition"@,
        DelimiterContext::InputObjectDefinition => "input object definition"@,
        DelimiterContext::SelectionSet => "selection set"@,
        DelimiterContext::FieldArguments => "field arguments"@,
        DelimiterContext::DirectiveArguments => "directive arguments"@,
        DelimiterContext::VariableDefinitions => "variable definitions"@,
        DelimiterContext::ListType => "list type annotation"@,
        DelimiterContext::ListValue => "list value"@,
        DelimiterContext::ObjectValue => "object value"@,
        DelimiterContext::ArgumentDefinitions => "argument definitions"@,
    }
}

impl DelimiterContext {
    /// A human-readable description of the construct.
    pub(crate) fn description(&self) -> (r: &'static str)
        ensures
            r@ == delimiter_context_text(*self),
    {
        match self {
            DelimiterContext::SchemaDefinition => "schema definition",
            DelimiterContext::ObjectTypeDefinition => "object type definition",
            DelimiterContext::InterfaceDefinition => "interface definition",
            DelimiterContext::EnumDefinition => "enum definition",
            DelimiterContext::InputObjectDefinition => "input object definition",
            DelimiterContext::SelectionSet => "selection set",
            DelimiterContext::FieldArguments => "field arguments",
            DelimiterContext::DirectiveArguments => "directive arguments",
            DelimiterContext::VariableDefinitions => "variable definitions",
            DelimiterContext::ListType => "list type annotation",
            DelimiterContext::ListValue => "list value",
            DelimiterContext::ObjectValue => "object value",
            DelimiterContext::ArgumentDefinitions => "argument definitions",
        }
    }
}

/// An open delimiter, remembered for error messages.
pub(crate) struct OpenDelimiter {
    pub(crate) span: GraphQLSourceSpan,
    pub(crate) context: DelimiterContext,
}

/// Where a value is parsed, which decides whether variables are allowed.
#[derive(Clone, Copy, Debug)]
pub(crate) enum ConstContext {
    /// Variables are allowed (arguments in operations).
    AllowVariables,
    /// The default value of a variable definition.
    VariableDefaultValue,
    /// A directive argument in a constant context.
    DirectiveArgument,
    /// The default value of an input field or argument definition.
    InputDefaultValue,
}

/// The human-readable description of the constant context `c`.
pub(crate) open spec fn const_context_text(c: ConstContext) -> Seq<char> {
    match c {
        ConstContext::AllowVariables => "values"@,
        ConstContext::VariableDefaultValue => "variable default values"@,
        ConstContext::DirectiveArgument => "directive arguments"@,
        ConstContext::InputDefaultValue => "input field default values"@,
    }
}

impl ConstContext {
    /// A human-readable description of a constant context.
    pub(crate) fn description(&self) -> (r: &'static str)
        ensures
            r@ == const_context_text(*self),
    {
        match self {
            ConstContext::AllowVariables => "values",
            ConstContext::VariableDefaultValue => "variable default values",
            ConstContext::DirectiveArgument => "directive arguments",
            ConstContext::InputDefaultValue => "input field default values",
        }
    }
}

/// A recursive-descent parser over the tokens of one GraphQL document.
pub struct GraphQLParser<'src> {
    /// The source text, when the parser was made from text.
    pub(crate) source: Option<&'src str>,
    /// Parser configuration.
    pub(crate) config: GraphQLParserConfig,
    /// The tokens with lookahead.
    pub(crate) token_stream: TokenQueue,
    /// The tokens the parser started with.
    pub(crate) all_tokens: Ghost<Seq<GraphQLToken>>,
    /// Errors recorded so far.
    pub(crate) errors: Vec<GraphQLParseError>,
    /// Delimiters opened and not yet closed.
    pub(crate) delimiter_stack: Vec<OpenDelimiter>,
    /// Current nesting depth of values, selection sets and type annotations.
    pub(crate) recursion_depth: usize,
    /// End of the most recently consumed token.
    pub(crate) last_end_position: Option<SourcePosition>,
}

/// Whether a token of kind `actual` is of the same kind as `expected`,
/// ignoring payloads.
pub open spec fn kinds_match(actual: GraphQLTokenKind, expected: GraphQLTokenKind) -> bool {
    match actual {
        GraphQLTokenKind::Name(_) => expected is Name,
        GraphQLTokenKind::IntValue(_) => expected is IntValue,
        GraphQLTokenKind::FloatValue(_) => expected is FloatValue,
        GraphQLTokenKind::StringValue { .. } => expected is StringValue,
        GraphQLTokenKind::Error { .. } => expected is Error,
        _ => actual == expected,
    }
}

/// Whether `t` is a name token, including `true`, `false` and `null`.
pub open spec fn is_name_token(t: GraphQLToken) -> bool {
    t.kind is Name || t.kind is True || t.kind is False || t.kind is Null
}

/// The text of a name token.
pub open spec fn name_text(k: GraphQLTokenKind) -> Seq<char> {
    match k {
        GraphQLTokenKind::Name(s) => s@,
        GraphQLTokenKind::True => "true"@,
        GraphQLTokenKind::False => "false"@,
        GraphQLTokenKind::Null => "null"@,
        _ => Seq::empty(),
    }
}

/// Whether `t` is the keyword `kw` (a name token, never `true`, `false` or
/// `null`).
pub open spec fn is_keyword(t: GraphQLToken, kw: Seq<char>) -> bool {
    t.kind matches GraphQLTokenKind::Name(n) && n@ == kw
}

/// The display text of a token kind in error messages.
pub open spec fn kind_display(k: GraphQLTokenKind) -> Seq<char> {
    match k {
        GraphQLTokenKind::Ampersand => "&"@,
        GraphQLTokenKind::At => "@"@,
        GraphQLTokenKind::Bang => "!"@,
        GraphQLTokenKind::Colon => ":"@,
        GraphQLTokenKind::CurlyBraceClose => "}"@,
        GraphQLTokenKind::CurlyBraceOpen => "{"@,
        GraphQLTokenKind::Dollar => "$"@,
        GraphQLTokenKind::Ellipsis => "..."@,
        GraphQLTokenKind::Equals => "="@,
        GraphQLTokenKind::ParenClose => ")"@,
        GraphQLTokenKind::ParenOpen => "("@,
        GraphQLTokenKind::Pipe => "|"@,
        GraphQLTokenKind::SquareBracketClose => "]"@,
        GraphQLTokenKind::SquareBracketOpen => "["@,
        GraphQLTokenKind::Name(s) => s@,
        GraphQLTokenKind::IntValue(s) => s@,
        GraphQLTokenKind::FloatValue(s) => s@,
        GraphQLTokenKind::StringValue { .. } => "string"@,
        GraphQLTokenKind::True => "true"@,
        GraphQLTokenKind::False => "false"@,
        GraphQLTokenKind::Null => "null"@,
        GraphQLTokenKind::Eof => "end of input"@,
        GraphQLTokenKind::Error { message, .. } => "tokenization error: "@ + message@,
    }
}

/// `b` is a state that `a` can step to: the same tokens, at least as far
/// along, with the same source, configuration and depth, and with every
/// error of `a` kept; an `Eof` token is consumed only along with a new
/// error.
pub open spec fn advanced<'src>(a: GraphQLParser<'src>, b: GraphQLParser<'src>) -> bool {
    &&& b.inv()
    &&& b.all() == a.all()
    &&& a.pos() <= b.pos()
    &&& forall|k: int|
        a.pos() <= k < b.pos() && (#[trigger] a.all()[k]).kind is Eof ==> a.spec_errors().len() < b.spec_errors().len()
    &&& b.spec_source() == a.spec_source()
    &&& b.spec_config() == a.spec_config()
    &&& b.depth() == a.depth()
    &&& a.spec_errors().len() <= b.spec_errors().len()
    &&& forall|i: int| 0 <= i < a.spec_errors().len() ==> b.spec_errors()[i] == a.spec_errors()[i]
}

/// The tokens consumed on the way from `a` to `b`.
pub open spec fn consumed<'src>(a: GraphQLParser<'src>, b: GraphQLParser<'src>) -> Seq<GraphQLToken> {
    a.rest().subrange(0, b.pos() - a.pos())
}

/// `m` is the source map of a document parsed from `source`: over the
/// text when there is one, otherwise an empty pre-computed map.
pub open spec fn source_map_of(source: Option<&str>, m: SourceMapView) -> bool {
    &&& m.file_path is None
    &&& match source {
        Some(s) => m.mode matches SourceMapMode::Text { bytes, .. } && bytes == s.spec_bytes(),
        None => m.mode == (SourceMapMode::Precomputed { entries: Seq::empty() }),
    }
}

/// A failing parse step records at least one error; a successful one
/// consumes at least one token.
pub open spec fn progressed<'src, T>(a: GraphQLParser<'src>, b: GraphQLParser<'src>, r: Result<T, ()>) -> bool {
    &&& r is Err ==> b.spec_errors().len() > a.spec_errors().len()
    &&& r is Ok ==> b.pos() > a.pos()
}

/// The span from `start` to `end` (or an empty span at `start`).
pub open spec fn spanned(start: SourcePosition, end: Option<SourcePosition>) -> GraphQLSourceSpan {
    GraphQLSourceSpan {
        start_inclusive: start,
        end_exclusive: match end {
            Some(e) => e,
            None => start,
        },
        file_path: None,
    }
}

/// `p` is the start of the document: line, columns and byte offset zero.
pub open spec fn is_origin(p: SourcePosition) -> bool {
    &&& p@.line == 0
    &&& p@.col_utf8 == 0
    &&& p@.col_utf16 == Some(0nat)
    &&& p@.byte_offset == 0
}

/// `n` is the name that the name token `t` denotes.
pub open spec fn name_of(n: ast::Name, t: GraphQLToken) -> bool {
    n.value@ == name_text(t.kind) && n.span == t.span
}

impl<'src> GraphQLParser<'src> {
    /// The unconsumed tokens.
    pub closed spec fn rest(&self) -> Seq<GraphQLToken> {
        self.token_stream@
    }

    /// All the tokens the parser started with.
    pub closed spec fn all(&self) -> Seq<GraphQLToken> {
        self.all_tokens@
    }

    /// The number of consumed tokens.
    pub open spec fn pos(&self) -> int {
        self.all().len() - self.rest().len()
    }

    /// The current nesting depth.
    pub closed spec fn depth(&self) -> nat {
        self.recursion_depth as nat
    }

    /// The end of the last consumed token, if any.
    pub closed spec fn last_end(&self) -> Option<SourcePosition> {
        self.last_end_position
    }

    /// The delimiters opened and not yet closed, innermost last.
    pub(crate) open spec fn delimiters(&self) -> Seq<OpenDelimiter> {
        self.delimiter_stack@
    }

    /// The errors recorded so far.
    pub closed spec fn spec_errors(&self) -> Seq<GraphQLParseError> {
        self.errors@
    }

    /// The parser's configuration.
    pub closed spec fn spec_config(&self) -> GraphQLParserConfig {
        self.config
    }

    /// The source text, if the parser was made from text.
    pub closed spec fn spec_source(&self) -> Option<&'src str> {
        self.source
    }

    /// The next token, if any.
    pub open spec fn next(&self) -> Option<GraphQLToken> {
        if self.rest().len() > 0 {
            Some(self.rest()[0])
        } else {
            None
        }
    }

    /// Whether the next token is `Eof` or the tokens are exhausted.
    pub open spec fn at_end(&self) -> bool {
        self.rest().len() == 0 || self.rest()[0].kind is Eof
    }

    /// The unconsumed tokens follow the consumed ones, the depth is within
    /// bounds, and the last end position is the end of the last consumed
    /// token.
    pub closed spec fn inv(&self) -> bool {
        &&& self.rest().len() <= self.all().len()
        &&& self.rest() == self.all().subrange(self.pos(), self.all().len() as int)
        &&& self.recursion_depth <= MAX_RECURSION_DEPTH
        &&& (self.source matches Some(src) ==> fits_offsets(src.spec_bytes()))
        &&& self.pos() == 0 ==> self.last_end_position is None
        &&& self.pos() > 0 ==> self.last_end_position == Some(
            self.all()[self.pos() - 1].span.end_exclusive,
        )
    }

    /// What the invariant gives outside this module: the depth is within
    /// bounds and the unconsumed tokens of a later state are a suffix of
    /// those of an earlier one.
    pub proof fn lemma_advanced(a: GraphQLParser<'src>, b: GraphQLParser<'src>)
        requires
            a.inv(),
            advanced(a, b),
        ensures
            a.depth() <= MAX_RECURSION_DEPTH,
            b.depth() <= MAX_RECURSION_DEPTH,
            0 <= a.pos() <= b.pos() <= a.all().len(),
            b.rest() == a.rest().subrange(b.pos() - a.pos(), a.rest().len() as int),
    {
        assert(b.rest() =~= a.rest().subrange(b.pos() - a.pos(), a.rest().len() as int));
    }

    /// A state that stopped at the end without a new error, reached from a
    /// state whose unconsumed tokens end at their only `Eof`, stands at that
    /// `Eof`.
    pub proof fn lemma_stopped_at_eof(a: GraphQLParser<'src>, b: GraphQLParser<'src>)
        requires
            a.inv(),
            advanced(a, b),
            b.at_end(),
            b.spec_errors().len() == a.spec_errors().len(),
            ends_at_eof(a.rest()),
        ensures
            b.rest().len() > 0,
            b.rest()[0] == a.rest().last(),
    {
        let n = a.all().len();
        assert(a.all()[n - 1] == a.rest().last());
        if b.pos() == n {
            assert(a.all()[n - 1].kind is Eof);
            assert(false);
        }
        assert(b.rest()[0] == a.all()[b.pos()]);
        assert(a.all()[b.pos()] == a.rest()[b.pos() - a.pos()]);
        if b.pos() < n - 1 {
            assert(!(a.rest()[b.pos() - a.pos()].kind is Eof));
        }
    }

    /// The tokens consumed from `a` to `b` split at an intermediate state.
    pub proof fn lemma_consumed(a: GraphQLParser<'src>, b: GraphQLParser<'src>, c: GraphQLParser<'src>)
        requires
            a.inv(),
            advanced(a, b),
            advanced(b, c),
        ensures
            consumed(a, c).len() == c.pos() - a.pos(),
            consumed(a, c).subrange(0, b.pos() - a.pos()) == consumed(a, b),
            consumed(a, c).subrange(b.pos() - a.pos(), c.pos() - a.pos()) == consumed(b, c),
            advanced(a, c),
    {
        assert(consumed(a, c).subrange(0, b.pos() - a.pos()) =~= consumed(a, b));
        assert(consumed(a, c).subrange(b.pos() - a.pos(), c.pos() - a.pos()) =~= consumed(b, c));
    }

    /// After consuming tokens, the last end is the end of the last one
    /// consumed.
    pub proof fn lemma_last_end(a: GraphQLParser<'src>, b: GraphQLParser<'src>)
        requires
            a.inv(),
            advanced(a, b),
            b.pos() > a.pos(),
        ensures
            b.last_end() == Some(consumed(a, b).last().span.end_exclusive),
    {
        assert(consumed(a, b).last() == a.rest()[b.pos() - a.pos() - 1]);
    }

    /// The invariant bounds the depth and the position.
    pub proof fn lemma_inv(&self)
        requires
            self.inv(),
        ensures
            self.depth() <= MAX_RECURSION_DEPTH,
            0 <= self.pos() <= self.all().len(),
    {
    }

    /// Creates a parser over the tokens of `source`, with the default
    /// configuration.
    pub fn new(source: &'src str) -> (p: GraphQLParser<'src>)
        requires
            fits_offsets(source.spec_bytes()),
        ensures
            p.inv(),
            p.pos() == 0,
            p.depth() == 0,
            p.spec_errors().len() == 0,
            tokens_wf(source.spec_bytes(), p.rest()),
            p.spec_source() == Some(source),
            p.spec_config().retain_syntax,
    {
        GraphQLParser::with_config(source, GraphQLParserConfig::default())
    }

    /// Creates a parser over the tokens of `source`, with the given
    /// configuration.
    pub fn with_config(source: &'src str, config: GraphQLParserConfig) -> (p: GraphQLParser<'src>)
        requires
            fits_offsets(source.spec_bytes()),
        ensures
            p.inv(),
            p.pos() == 0,
            p.depth() == 0,
            p.spec_errors().len() == 0,
            tokens_wf(source.spec_bytes(), p.rest()),
            p.spec_source() == Some(source),
            p.spec_config() == config,
    {
        let tokens = tokenize(source);
        let mut p = GraphQLParser::from_token_source_with_config(tokens, config);
        p.source = Some(source);
        p
    }

    /// Creates a parser over the given tokens, with the default
    /// configuration.
    pub fn from_token_source(tokens: Vec<GraphQLToken>) -> (p: GraphQLParser<'src>)
        ensures
            p.inv(),
            p.all() == tokens@,
            p.pos() == 0,
            p.depth() == 0,
            p.spec_errors().len() == 0,
            p.spec_source() is None,
            p.spec_config().retain_syntax,
    {
        GraphQLParser::from_token_source_with_config(tokens, GraphQLParserConfig::default())
    }

    /// Creates a parser over the given tokens, with the given configuration.
    pub fn from_token_source_with_config(tokens: Vec<GraphQLToken>, config: GraphQLParserConfig) -> (p:
        GraphQLParser<'src>)
        ensures
            p.inv(),
            p.all() == tokens@,
            p.pos() == 0,
            p.depth() == 0,
            p.spec_errors().len() == 0,
            p.spec_source() is None,
            p.spec_config() == config,
    {
        let ghost all = tokens@;
        let token_stream = TokenQueue::new(tokens);
        let p = GraphQLParser {
            source: None,
            config,
            token_stream,
            all_tokens: Ghost(all),
            errors: Vec::new(),
            delimiter_stack: Vec::new(),
            recursion_depth: 0,
            last_end_position: None,
        };
        assert(p.rest() =~= p.all().subrange(p.pos(), p.all().len() as int));
        p
    }

    // ── Errors and delimiters ───────────────────────────────────────

    /// Records a parse error.
    pub(crate) fn record_error(&mut self, error: GraphQLParseError)
        requires
            old(self).inv(),
        ensures
            advanced(*old(self), *final(self)),
            final(self).pos() == old(self).pos(),
            final(self).spec_errors() == old(self).spec_errors().push(error),
    {
        self.errors.push(error);
    }

    /// Remembers an open delimiter.
    pub(crate) fn push_delimiter(&mut self, span: GraphQLSourceSpan, context: DelimiterContext)
        requires
            old(self).inv(),
        ensures
            advanced(*old(self), *final(self)),
            final(self).pos() == old(self).pos(),
            final(self).spec_errors() == old(self).spec_errors(),
            final(self).delimiters() == old(self).delimiters().push(OpenDelimiter { span, context }),
    {
        self.delimiter_stack.push(OpenDelimiter { span, context });
    }

    /// Forgets the most recently opened delimiter and returns it.
    pub(crate) fn pop_delimiter(&mut self) -> (r: Option<OpenDelimiter>)
        requires
            old(self).inv(),
        ensures
            advanced(*old(self), *final(self)),
            final(self).pos() == old(self).pos(),
            final(self).spec_errors() == old(self).spec_errors(),
            old(self).delimiters().len() == 0 ==> r is None && final(self).delimiters() == old(self).delimiters(),
            old(self).delimiters().len() > 0 ==> r == Some(old(self).delimiters().last()) && final(self).delimiters()
                == old(self).delimiters().drop_last(),
    {
        self.delimiter_stack.pop()
    }

    // ── Tokens ──────────────────────────────────────────────────────

    /// The next token, if any.
    pub(crate) fn peek(&self) -> (r: Option<&GraphQLToken>)
        ensures
            self.rest().len() == 0 ==> r is None,
            self.rest().len() > 0 ==> r == Some(&self.rest()[0]),
    {
        self.token_stream.peek()
    }

    /// The token after the next one, if any.
    pub(crate) fn peek_second(&self) -> (r: Option<&GraphQLToken>)
        ensures
            self.rest().len() <= 1 ==> r is None,
            self.rest().len() > 1 ==> r == Some(&self.rest()[1]),
    {
        self.token_stream.peek_nth(1)
    }

    /// Whether the tokens are exhausted or the next one is `Eof`.
    pub(crate) fn is_at_end(&self) -> (r: bool)
        ensures
            r == self.at_end(),
    {
        self.token_stream.is_at_end()
    }

    /// Consumes the next token, whatever it is, and remembers where it
    /// ends.
    fn consume_any_token(&mut self) -> (r: Option<GraphQLToken>)
        requires
            old(self).inv(),
        ensures
            final(self).inv(),
            final(self).all() == old(self).all(),
            final(self).spec_source() == old(self).spec_source(),
            final(self).spec_config() == old(self).spec_config(),
            final(self).depth() == old(self).depth(),
            final(self).spec_errors() == old(self).spec_errors(),
            old(self).rest().len() == 0 ==> r is None && final(self).pos() == old(self).pos(),
            old(self).rest().len() > 0 ==> r == Some(old(self).rest()[0]) && final(self).pos()
                == old(self).pos() + 1,
    {
        let r = self.token_stream.consume();
        match &r {
            Some(t) => {
                self.last_end_position = Some(t.span.end_exclusive);
            },
            None => {},
        }
        proof {
            if old(self).rest().len() > 0 {
                assert(self.rest() =~= self.all().subrange(self.pos(), self.all().len() as int));
                assert(self.all()[self.pos() - 1] == old(self).rest()[0]);
            }
        }
        r
    }

    /// Consumes the next token, which is not `Eof`, and remembers where it
    /// ends.
    pub(crate) fn consume_token(&mut self) -> (r: GraphQLToken)
        requires
            old(self).inv(),
            !old(self).at_end(),
        ensures
            advanced(*old(self), *final(self)),
            final(self).spec_errors() == old(self).spec_errors(),
            r == old(self).rest()[0],
            final(self).pos() == old(self).pos() + 1,
    {
        let r = self.consume_any_token();
        proof {
            assert(old(self).all()[old(self).pos()] == old(self).rest()[0]);
        }
        r.unwrap()
    }

    /// Whether the next token is of the same kind as `kind`.
    pub(crate) fn peek_is(&self, kind: &GraphQLTokenKind) -> (r: bool)
        ensures
            r == (self.rest().len() > 0 && kinds_match(self.rest()[0].kind, *kind)),
    {
        match self.peek() {
            Some(t) => GraphQLParser::token_kinds_match(&t.kind, kind),
            None => false,
        }
    }

    /// Whether the next token is the keyword `keyword`.
    pub(crate) fn peek_is_keyword(&self, keyword: &str) -> (r: bool)
        ensures
            r == (self.rest().len() > 0 && is_keyword(self.rest()[0], keyword@)),
    {
        match self.peek() {
            Some(t) => match &t.kind {
                GraphQLTokenKind::Name(n) => str_eq(n.as_str(), keyword),
                _ => false,
            },
            None => false,
        }
    }

    /// Whether the next token is a name (including `true`, `false`, `null`).
    pub(crate) fn peek_is_name(&self) -> (r: bool)
        ensures
            r == (self.rest().len() > 0 && is_name_token(self.rest()[0])),
    {
        match self.peek() {
            Some(t) => match &t.kind {
                GraphQLTokenKind::Name(_) | GraphQLTokenKind::True | GraphQLTokenKind::False
                | GraphQLTokenKind::Null => true,
                _ => false,
            },
            None => false,
        }
    }

    /// Whether token kinds are the same, ignoring payloads.
    pub(crate) fn token_kinds_match(actual: &GraphQLTokenKind, expected: &GraphQLTokenKind) -> (r:
        bool)
        ensures
            r == kinds_match(*actual, *expected),
    {
        match actual {
            GraphQLTokenKind::Name(_) => matches!(expected, GraphQLTokenKind::Name(_)),
            GraphQLTokenKind::IntValue(_) => matches!(expected, GraphQLTokenKind::IntValue(_)),
            GraphQLTokenKind::FloatValue(_) => matches!(expected, GraphQLTokenKind::FloatValue(_)),
            GraphQLTokenKind::StringValue { .. } => matches!(expected, GraphQLTokenKind::StringValue { .. }),
            GraphQLTokenKind::Error { .. } => matches!(expected, GraphQLTokenKind::Error { .. }),
            GraphQLTokenKind::Ampersand => matches!(expected, GraphQLTokenKind::Ampersand),
            GraphQLTokenKind::At => matches!(expected, GraphQLTokenKind::At),
            GraphQLTokenKind::Bang => matches!(expected, GraphQLTokenKind::Bang),
            GraphQLTokenKind::Colon => matches!(expected, GraphQLTokenKind::Colon),
            GraphQLTokenKind::CurlyBraceClose => matches!(expected, GraphQLTokenKind::CurlyBraceClose),
            GraphQLTokenKind::CurlyBraceOpen => matches!(expected, GraphQLTokenKind::CurlyBraceOpen),
            GraphQLTokenKind::Dollar => matches!(expected, GraphQLTokenKind::Dollar),
            GraphQLTokenKind::Ellipsis => matches!(expected, GraphQLTokenKind::Ellipsis),
            GraphQLTokenKind::Equals => matches!(expected, GraphQLTokenKind::Equals),
            GraphQLTokenKind::ParenClose => matches!(expected, GraphQLTokenKind::ParenClose),
            GraphQLTokenKind::ParenOpen => matches!(expected, GraphQLTokenKind::ParenOpen),
            GraphQLTokenKind::Pipe => matches!(expected, GraphQLTokenKind::Pipe),
            GraphQLTokenKind::SquareBracketClose => matches!(expected, GraphQLTokenKind::SquareBracketClose),
            GraphQLTokenKind::SquareBracketOpen => matches!(expected, GraphQLTokenKind::SquareBracketOpen),
            GraphQLTokenKind::True => matches!(expected, GraphQLTokenKind::True),
            GraphQLTokenKind::False => matches!(expected, GraphQLTokenKind::False),
            GraphQLTokenKind::Null => matches!(expected, GraphQLTokenKind::Null),
            GraphQLTokenKind::Eof => matches!(expected, GraphQLTokenKind::Eof),
        }
    }

    /// Consumes the next token, which must exist.
    pub(crate) fn take_token(&mut self) -> (t: GraphQLToken)
        requires
            old(self).inv(),
            !old(self).at_end(),
        ensures
            advanced(*old(self), *final(self)),
            final(self).spec_errors() == old(self).spec_errors(),
            t == old(self).rest()[0],
            final(self).pos() == old(self).pos() + 1,
    {
        self.consume_token()
    }

    /// Whether syntax structs are populated.
    pub(crate) fn retain_syntax(&self) -> (r: bool)
        ensures
            r == self.spec_config().retain_syntax,
    {
        self.config.retain_syntax
    }

    /// The display text of a token kind in error messages.
    pub(crate) fn token_kind_display(kind: &GraphQLTokenKind) -> (r: String)
        ensures
            r@ == kind_display(*kind),
    {
        match kind {
            GraphQLTokenKind::Ampersand => "&".to_owned(),
            GraphQLTokenKind::At => "@".to_owned(),
            GraphQLTokenKind::Bang => "!".to_owned(),
            GraphQLTokenKind::Colon => ":".to_owned(),
            GraphQLTokenKind::CurlyBraceClose => "}".to_owned(),
            GraphQLTokenKind::CurlyBraceOpen => "{".to_owned(),
            GraphQLTokenKind::Dollar => "$".to_owned(),
            GraphQLTokenKind::Ellipsis => "...".to_owned(),
            GraphQLTokenKind::Equals => "=".to_owned(),
            GraphQLTokenKind::ParenClose => ")".to_owned(),
            GraphQLTokenKind::ParenOpen => "(".to_owned(),
            GraphQLTokenKind::Pipe => "|".to_owned(),
            GraphQLTokenKind::SquareBracketClose => "]".to_owned(),
            GraphQLTokenKind::SquareBracketOpen => "[".to_owned(),
            GraphQLTokenKind::Name(s) => s.clone(),
            GraphQLTokenKind::IntValue(s) => s.clone(),
            GraphQLTokenKind::FloatValue(s) => s.clone(),
            GraphQLTokenKind::StringValue { .. } => "string".to_owned(),
            GraphQLTokenKind::True => "true".to_owned(),
            GraphQLTokenKind::False => "false".to_owned(),
            GraphQLTokenKind::Null => "null".to_owned(),
            GraphQLTokenKind::Eof => "end of input".to_owned(),
            GraphQLTokenKind::Error { message, .. } => {
                let mut out = "tokenization error: ".to_owned();
                out.append(message.as_str());
                out
            },
        }
    }

    /// A zero-width span at the end of the last consumed token, or at the
    /// start of the document when nothing was consumed.
    pub(crate) fn eof_span(&self) -> (r: GraphQLSourceSpan)
        ensures
            r.file_path is None,
            r.start_inclusive == r.end_exclusive,
            self.last_end() is Some ==> r.start_inclusive == self.last_end()->0,
            self.last_end() is None ==> is_origin(r.start_inclusive),
    {
        match self.last_end_position {
            Some(p) => GraphQLSourceSpan::new(p, p),
            None => {
                let zero = SourcePosition::new(0, 0, Some(0), 0);
                GraphQLSourceSpan::new(zero, zero)
            },
        }
    }

    /// The span from `start` to the end of the last consumed token.
    pub(crate) fn span_from(&self, start: SourcePosition) -> (r: GraphQLSourceSpan)
        ensures
            r == spanned(start, self.last_end()),
    {
        match self.last_end_position {
            Some(e) => GraphQLSourceSpan::new(start, e),
            None => GraphQLSourceSpan::new(start, start),
        }
    }

    /// The span of the next token, or the end-of-input span.
    pub(crate) fn next_span(&self) -> (r: GraphQLSourceSpan)
        ensures
            self.rest().len() > 0 ==> r.start_inclusive == self.rest()[0].span.start_inclusive
                && r.end_exclusive == self.rest()[0].span.end_exclusive,
    {
        match self.peek() {
            Some(t) => t.span.duplicate(),
            None => self.eof_span(),
        }
    }

    /// The display text of the next token, or "end of input".
    pub(crate) fn next_display(&self) -> (r: String)
        ensures
            self.rest().len() > 0 ==> r@ == kind_display(self.rest()[0].kind),
    {
        match self.peek() {
            Some(t) => GraphQLParser::token_kind_display(&t.kind),
            None => "end of input".to_owned(),
        }
    }

    /// Records that `what` was expected where the next token (or the end of
    /// input) was found, without consuming anything.
    /// Records that the next token, or the end of input when none is left,
    /// is not what `what` describes; the error is `UnexpectedToken` either
    /// way.
    pub(crate) fn record_unexpected_token(&mut self, what: &str, expected: Vec<String>)
        requires
            old(self).inv(),
        ensures
            advanced(*old(self), *final(self)),
            final(self).pos() == old(self).pos(),
            final(self).spec_errors().len() == old(self).spec_errors().len() + 1,
            final(self).spec_errors().last().spec_kind() matches GraphQLParseErrorKind::UnexpectedToken {
                expected: e,
                found: f,
            } && e == expected && f@ == (if old(self).rest().len() > 0 {
                kind_display(old(self).rest()[0].kind)
            } else {
                "end of input"@
            }),
    {
        proof {
            reveal_strlit("end of input");
        }
        let found = if self.rest_len() > 0 {
            self.next_display()
        } else {
            "end of input".to_owned()
        };
        let span = if self.rest_len() > 0 {
            self.next_span()
        } else {
            self.eof_span()
        };
        let mut message = "expected ".to_owned();
        message.append(what);
        message.append(", found `");
        message.append(found.as_str());
        message.append("`");
        self.record_error(
            GraphQLParseError::new(
                message,
                GraphQLParseErrorKind::UnexpectedToken { expected, found },
                span.to_source_span(),
            ),
        );
    }

    pub(crate) fn record_unexpected(&mut self, what: &str, expected: Vec<String>)
        requires
            old(self).inv(),
        ensures
            advanced(*old(self), *final(self)),
            final(self).pos() == old(self).pos(),
            final(self).spec_errors().len() == old(self).spec_errors().len() + 1,
            old(self).rest().len() > 0 ==> (final(self).spec_errors().last().spec_kind() matches
                GraphQLParseErrorKind::UnexpectedToken { expected: e, found: f } && e == expected && f@
                == kind_display(old(self).rest()[0].kind)),
            old(self).rest().len() == 0 ==> final(self).spec_errors().last().spec_kind() == (
            GraphQLParseErrorKind::UnexpectedEof { expected }),
    {
        let mut message = "expected ".to_owned();
        message.append(what);
        if self.rest_len() > 0 {
            let found = self.next_display();
            message.append(", found `");
            message.append(found.as_str());
            message.append("`");
            let span = self.next_span();
            self.record_error(
                GraphQLParseError::new(
                    message,
                    GraphQLParseErrorKind::UnexpectedToken { expected, found },
                    span.to_source_span(),
                ),
            );
        } else {
            let span = self.eof_span();
            self.record_error(
                GraphQLParseError::new(
                    message,
                    GraphQLParseErrorKind::UnexpectedEof { expected },
                    span.to_source_span(),
                ),
            );
        }
    }

    /// The number of unconsumed tokens.
    pub(crate) fn rest_len(&self) -> (r: usize)
        ensures
            r == self.rest().len(),
    {
        self.token_stream.len()
    }

    /// Consumes the next token if it is of the same kind as
    /// `expected_kind`; otherwise records an error and consumes nothing.
    pub(crate) fn expect(&mut self, expected_kind: &GraphQLTokenKind) -> (r: Result<GraphQLToken, ()>)
        requires
            old(self).inv(),
            !(*expected_kind is Eof),
        ensures
            advanced(*old(self), *final(self)),
            progressed(*old(self), *final(self), r),
            r is Ok <==> old(self).rest().len() > 0 && kinds_match(old(self).rest()[0].kind, *expected_kind),
            r is Ok ==> r->Ok_0 == old(self).rest()[0] && final(self).pos() == old(self).pos() + 1
                && final(self).spec_errors() == old(self).spec_errors(),
            r is Err ==> final(self).pos() == old(self).pos() && final(self).spec_errors().len()
                == old(self).spec_errors().len() + 1,
    {
        if self.peek_is(expected_kind) {
            Ok(self.take_token())
        } else {
            let shown = GraphQLParser::token_kind_display(expected_kind);
            let mut what = "`".to_owned();
            what.append(shown.as_str());
            what.append("`");
            self.record_unexpected(what.as_str(), vec![shown]);
            Err(())
        }
    }

    /// Consumes the next token if it is the keyword `keyword`; otherwise
    /// records an error and consumes nothing. `true`, `false` and `null`
    /// are never keywords.
    pub(crate) fn expect_keyword(&mut self, keyword: &str) -> (r: Result<GraphQLToken, ()>)
        requires
            old(self).inv(),
        ensures
            advanced(*old(self), *final(self)),
            progressed(*old(self), *final(self), r),
            r is Ok <==> old(self).rest().len() > 0 && is_keyword(old(self).rest()[0], keyword@),
            r is Ok ==> r->Ok_0 == old(self).rest()[0] && final(self).pos() == old(self).pos() + 1
                && final(self).spec_errors() == old(self).spec_errors(),
            r is Err ==> final(self).pos() == old(self).pos() && final(self).spec_errors().len()
                == old(self).spec_errors().len() + 1,
    {
        if self.peek_is_keyword(keyword) {
            Ok(self.take_token())
        } else {
            let mut what = "`".to_owned();
            what.append(keyword);
            what.append("`");
            self.record_unexpected(what.as_str(), vec![keyword.to_owned()]);
            Err(())
        }
    }

    /// Consumes the next token as a name (including `true`, `false` and
    /// `null`); otherwise records an error and consumes nothing.
    pub(crate) fn expect_ast_name(&mut self) -> (r: Result<ast::Name, ()>)
        requires
            old(self).inv(),
        ensures
            advanced(*old(self), *final(self)),
            progressed(*old(self), *final(self), r),
            r is Ok <==> old(self).rest().len() > 0 && is_name_token(old(self).rest()[0]),
            r is Ok ==> name_of(r->Ok_0, old(self).rest()[0]) && final(self).pos() == old(self).pos()
                + 1 && final(self).spec_errors() == old(self).spec_errors(),
            r is Err ==> final(self).pos() == old(self).pos() && final(self).spec_errors().len()
                == old(self).spec_errors().len() + 1,
    {
        if self.peek_is_name() {
            let t = self.take_token();
            let value = match t.kind {
                GraphQLTokenKind::Name(s) => s,
                GraphQLTokenKind::True => "true".to_owned(),
                GraphQLTokenKind::False => "false".to_owned(),
                _ => "null".to_owned(),
            };
            Ok(ast::Name { value, span: t.span })
        } else {
            self.record_unexpected("name", vec!["name".to_owned()]);
            Err(())
        }
    }

    /// Consumes the next token, a lexer error, and records it as a parse
    /// error.
    pub(crate) fn lexer_error(&mut self)
        requires
            old(self).inv(),
            old(self).rest().len() > 0,
            old(self).rest()[0].kind is Error,
        ensures
            advanced(*old(self), *final(self)),
            final(self).pos() == old(self).pos() + 1,
            final(self).spec_errors().len() == old(self).spec_errors().len() + 1,
            final(self).spec_errors().last().spec_kind() == GraphQLParseErrorKind::LexerError,
    {
        let t = self.take_token();
        match t.kind {
            GraphQLTokenKind::Error { message, notes } => {
                let span = t.span.to_source_span();
                self.record_error(GraphQLParseError::from_lexer_error(message, notes, span));
            },
            _ => {},
        }
    }

    /// Enters one more level of nesting. Past the maximum depth, records an
    /// error, consumes the next token and fails.
    pub(crate) fn enter_recursion(&mut self) -> (r: Result<(), ()>)
        requires
            old(self).inv(),
        ensures
            final(self).inv(),
            final(self).all() == old(self).all(),
            final(self).spec_source() == old(self).spec_source(),
            final(self).spec_config() == old(self).spec_config(),
            r is Ok <==> old(self).depth() < MAX_RECURSION_DEPTH,
            r is Ok ==> final(self).depth() == old(self).depth() + 1 && final(self).pos() == old(self).pos() && final(self).spec_errors() == old(self).spec_errors(),
            r is Err ==> final(self).depth() == old(self).depth() && advanced(*old(self), *final(self))
                && final(self).spec_errors().len() == old(self).spec_errors().len() + 1 && (old(self).rest().len() > 0 ==> final(self).pos() == old(self).pos() + 1),
    {
        if self.recursion_depth < MAX_RECURSION_DEPTH {
            self.recursion_depth = self.recursion_depth + 1;
            Ok(())
        } else {
            let span = self.next_span();
            self.consume_any_token();
            self.record_error(
                GraphQLParseError::new(
                    "maximum nesting depth exceeded".to_owned(),
                    GraphQLParseErrorKind::InvalidSyntax,
                    span.to_source_span(),
                ),
            );
            Err(())
        }
    }

    /// Leaves one level of nesting.
    pub(crate) fn exit_recursion(&mut self)
        requires
            old(self).inv(),
            old(self).depth() > 0,
        ensures
            final(self).inv(),
            final(self).depth() == old(self).depth() - 1,
            final(self).all() == old(self).all(),
            final(self).pos() == old(self).pos(),
            final(self).spec_source() == old(self).spec_source(),
            final(self).spec_config() == old(self).spec_config(),
            final(self).spec_errors() == old(self).spec_errors(),
    {
        self.recursion_depth = self.recursion_depth - 1;
    }

    /// Records that the innermost open delimiter `delimiter` is never
    /// closed, with a note pointing at where it was opened.
    pub(crate) fn record_unclosed(&mut self, delimiter: &str, name_context: bool)
        requires
            old(self).inv(),
        ensures
            advanced(*old(self), *final(self)),
            final(self).pos() == old(self).pos(),
            final(self).spec_errors().len() == old(self).spec_errors().len() + 1,
            final(self).spec_errors().last().spec_kind() matches GraphQLParseErrorKind::UnclosedDelimiter {
                delimiter: d,
            } && d@ == delimiter@,
    {
        let span = self.eof_span();
        let open = self.pop_delimiter();
        let mut message = "unclosed `".to_owned();
        message.append(delimiter);
        message.append("`");
        let mut error = GraphQLParseError::new(
            message,
            GraphQLParseErrorKind::UnclosedDelimiter { delimiter: delimiter.to_owned() },
            span.to_source_span(),
        );
        match open {
            Some(d) => {
                let mut note = "opening `".to_owned();
                note.append(delimiter);
                if name_context {
                    note.append("` in ");
                    note.append(d.context.description());
                    note.append(" here");
                } else {
                    note.append("` here");
                }
                error.add_note_with_span(note, d.span.to_source_span());
            },
            None => {},
        }
        self.record_error(error);
    }

    /// Forgets all open delimiters.
    pub(crate) fn clear_delimiters(&mut self)
        requires
            old(self).inv(),
        ensures
            advanced(*old(self), *final(self)),
            final(self).pos() == old(self).pos(),
            final(self).spec_errors() == old(self).spec_errors(),
            final(self).delimiters().len() == 0,
    {
        self.delimiter_stack.clear();
    }

    /// The source map of the document: over the source text when there is
    /// one, otherwise an empty pre-computed map.
    fn source_map(&self) -> (r: SourceMap<'src>)
        requires
            self.inv(),
        ensures
            r.wf(),
            source_map_of(self.spec_source(), r@),
    {
        match self.source {
            Some(s) => SourceMap::new_with_source(s, None),
            None => SourceMap::new_precomputed(None),
        }
    }

    /// Packages the parsed definitions and the recorded errors: a success
    /// when no error was recorded. The document's span runs from the start
    /// of the text to the end of the last consumed token. When syntax is
    /// retained, the trivia of the next token (the `Eof` token, once the
    /// definitions are parsed) is kept as the document's trailing trivia.
    pub(crate) fn finish(self, definitions: Vec<ast::Definition>) -> (r: ParseResult<'src, ast::Document>)
        requires
            self.inv(),
        ensures
            r.wf(),
            r.spec_ast().definitions == definitions,
            r.spec_ast().span == spanned(r.spec_ast().span.start_inclusive, self.last_end()),
            is_origin(r.spec_ast().span.start_inclusive),
            r.spec_errors() == self.spec_errors(),
            r is Success <==> self.spec_errors().len() == 0,
            source_map_of(self.spec_source(), r.spec_source_map()@),
            r.spec_ast().syntax is Some <==> self.spec_config().retain_syntax,
            r.spec_ast().syntax matches Some(sx) ==> sx.trailing_trivia@ == next_trivia(self.rest()),
    {
        let start = SourcePosition::new(0, 0, Some(0), 0);
        let span = self.span_from(start);
        let source_map = self.source_map();
        let retain = self.config.retain_syntax;
        let mut token_stream = self.token_stream;
        let syntax = if retain {
            let trailing_trivia = match token_stream.consume() {
                Some(t) => t.preceding_trivia,
                None => Vec::new(),
            };
            Some(Box::new(ast::DocumentSyntax { trailing_trivia }))
        } else {
            None
        };
        let document = ast::Document { definitions, span, syntax };
        if self.errors.len() == 0 {
            ParseResult::new_ok(document, source_map)
        } else {
            ParseResult::new_recovered(document, self.errors, source_map)
        }
    }
}

/// The trivia before the next of the tokens `ts`, if there is one.
pub open spec fn next_trivia(ts: Seq<GraphQLToken>) -> Seq<GraphQLTriviaToken> {
    if ts.len() > 0 {
        ts[0].preceding_trivia@
    } else {
        Seq::empty()
    }
}

/// The tokens end with an `Eof` token, and no other token is `Eof`.
pub open spec fn ends_at_eof(ts: Seq<GraphQLToken>) -> bool {
    &&& ts.len() > 0
    &&& ts.last().kind is Eof
    &&& forall|i: int| 0 <= i < ts.len() - 1 ==> !(#[trigger] ts[i].kind is Eof)
}

} // verus!
