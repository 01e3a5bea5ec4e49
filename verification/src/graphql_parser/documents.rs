//! Parsing of whole documents: definition dispatch per document kind and
//! recovery to the next definition.

use crate::ast;
use crate::definition_kind::DefinitionKind;
use crate::definition_kind::DocumentKind;
use crate::graphql_parse_error::GraphQLParseError;
use crate::graphql_parse_error_kind::GraphQLParseErrorKind;
use crate::graphql_parser::advanced;
use crate::lexer::tokens_wf;
use crate::graphql_parser::consumed;
use crate::graphql_parser::values::scalar_value;
use crate::graphql_parser::operations::operation_written;
use crate::graphql_parser::operations::fragment_written;
use crate::graphql_parser::type_system::desc_written;
use crate::graphql_parser::type_system::type_def_written;
use crate::graphql_parser::type_system::schema_def_written;
use crate::graphql_parser::type_system::type_def_description;
use crate::graphql_parser::directive_defs::directive_def_written;
use crate::graphql_parser::extensions::extension_written;
use crate::graphql_parser::ends_at_eof;
use crate::graphql_parser::extensions::type_ext_is_const;
use crate::graphql_parser::is_keyword;
use crate::graphql_parser::is_name_token;
use crate::graphql_parser::is_origin;
use crate::graphql_parser::operations::operation_keyword_kind;
use crate::graphql_parser::operations::variable_definition_is_const;
use crate::graphql_parser::progressed;
use crate::graphql_parser::source_map_of;
use crate::graphql_parser::spanned;
use crate::graphql_parser::type_system::input_value_defs_are_const;
use crate::graphql_parser::type_system::type_def_is_const;
use crate::graphql_parser::types::directives_are_const;
use crate::graphql_parser::GraphQLParser;
use crate::parse_result::ParseResult;
use crate::text::str_eq;
use crate::token::GraphQLToken;
use crate::token::GraphQLTokenKind;
use vstd::prelude::*;

verus! {

/// Whether `d` is a type-system definition or extension.
pub open spec fn is_type_system_definition(d: ast::Definition) -> bool {
    ||| d is DirectiveDefinition
    ||| d is SchemaDefinition
    ||| d is SchemaExtension
    ||| d is TypeDefinition
    ||| d is TypeExtension
}

/// Whether `d` is an executable definition (an operation or a fragment).
pub open spec fn is_executable_definition(d: ast::Definition) -> bool {
    d is OperationDefinition || d is FragmentDefinition
}

/// Whether the places of `d` that the grammar makes constant (directive
/// arguments and default values of type-system definitions, and default
/// values and directives of variable definitions) hold no variable.
pub open spec fn definition_is_const(d: ast::Definition) -> bool {
    match d {
        ast::Definition::DirectiveDefinition(x) => input_value_defs_are_const(x.arguments@),
        ast::Definition::SchemaDefinition(x) => directives_are_const(x.directives@),
        ast::Definition::SchemaExtension(x) => directives_are_const(x.directives@),
        ast::Definition::TypeDefinition(x) => type_def_is_const(x),
        ast::Definition::TypeExtension(x) => type_ext_is_const(x),
        ast::Definition::OperationDefinition(x) => forall|i: int|
            0 <= i < x.variable_definitions@.len() ==> variable_definition_is_const(
                #[trigger] x.variable_definitions@[i],
            ),
        ast::Definition::FragmentDefinition(_) => true,
    }
}

/// Whether `t` is a keyword that starts a type-system definition.
pub open spec fn is_type_system_keyword(t: GraphQLToken) -> bool {
    ||| is_keyword(t, "type"@)
    ||| is_keyword(t, "interface"@)
    ||| is_keyword(t, "union"@)
    ||| is_keyword(t, "enum"@)
    ||| is_keyword(t, "scalar"@)
    ||| is_keyword(t, "input"@)
    ||| is_keyword(t, "directive"@)
    ||| is_keyword(t, "schema"@)
    ||| is_keyword(t, "extend"@)
}

/// Whether `t` is a keyword that starts a type definition or an extension
/// of one (`schema` included after `extend`).
pub open spec fn is_extendable_keyword(t: GraphQLToken) -> bool {
    ||| is_keyword(t, "type"@)
    ||| is_keyword(t, "interface"@)
    ||| is_keyword(t, "union"@)
    ||| is_keyword(t, "enum"@)
    ||| is_keyword(t, "scalar"@)
    ||| is_keyword(t, "input"@)
    ||| is_keyword(t, "schema"@)
}

/// Whether the keyword `kw`, followed by `next`, starts a definition: a
/// type keyword before a name, `directive` before `@`, `schema` before `{`
/// or `@`, `extend` before a type keyword or `schema`, an operation keyword
/// before a name, `{`, `(`, `@` or the end, `fragment` before a name other
/// than `on`.
pub open spec fn looks_like_definition(kw: Seq<char>, next: Option<GraphQLToken>) -> bool {
    if kw == "type"@ || kw == "interface"@ || kw == "union"@ || kw == "enum"@ || kw == "scalar"@ || kw
        == "input"@ {
        next matches Some(t) && is_name_token(t)
    } else if kw == "directive"@ {
        next matches Some(t) && t.kind is At
    } else if kw == "schema"@ {
        next matches Some(t) && (t.kind is CurlyBraceOpen || t.kind is At)
    } else if kw == "extend"@ {
        next matches Some(t) && is_extendable_keyword(t)
    } else if kw == "query"@ || kw == "mutation"@ || kw == "subscription"@ {
        next is None || (next matches Some(t) && (is_name_token(t) || t.kind is CurlyBraceOpen
            || t.kind is ParenOpen || t.kind is At))
    } else if kw == "fragment"@ {
        next matches Some(t) && ((t.kind matches GraphQLTokenKind::Name(n) && n@ != "on"@) || t.kind is True
            || t.kind is False || t.kind is Null)
    } else {
        false
    }
}

/// The definition `d` is of the kind that its leading token `t` (after
/// any description) introduces.
pub open spec fn fits_leading_token(t: GraphQLToken, d: ast::Definition) -> bool {
    &&& is_keyword(t, "schema"@) ==> d is SchemaDefinition
    &&& is_keyword(t, "scalar"@) ==> (d matches ast::Definition::TypeDefinition(x) && x is Scalar)
    &&& is_keyword(t, "type"@) ==> (d matches ast::Definition::TypeDefinition(x) && x is Object)
    &&& is_keyword(t, "interface"@) ==> (d matches ast::Definition::TypeDefinition(x) && x is Interface)
    &&& is_keyword(t, "union"@) ==> (d matches ast::Definition::TypeDefinition(x) && x is Union)
    &&& is_keyword(t, "enum"@) ==> (d matches ast::Definition::TypeDefinition(x) && x is Enum)
    &&& is_keyword(t, "input"@) ==> (d matches ast::Definition::TypeDefinition(x) && x is InputObject)
    &&& is_keyword(t, "directive"@) ==> d is DirectiveDefinition
    &&& is_keyword(t, "extend"@) ==> (d is SchemaExtension || d is TypeExtension)
    &&& (t.kind is CurlyBraceOpen || operation_keyword_kind(t) is Some) ==> d is OperationDefinition
    &&& is_keyword(t, "fragment"@) ==> d is FragmentDefinition
}

/// The first token of `ts` after a leading description, if any.
pub open spec fn after_description(ts: Seq<GraphQLToken>) -> Option<GraphQLToken> {
    if ts.len() > 0 && ts[0].kind is StringValue {
        if ts.len() > 1 {
            Some(ts[1])
        } else {
            None
        }
    } else if ts.len() > 0 {
        Some(ts[0])
    } else {
        None
    }
}

/// The lengths and the first and last letters of the definition keywords,
/// which tell any two of them apart.
proof fn lemma_keyword_texts()
    ensures
        "schema"@.len() == 6 && "schema"@[0] == 's' && "schema"@[5] == 'a',
        "scalar"@.len() == 6 && "scalar"@[0] == 's' && "scalar"@[5] == 'r',
        "type"@.len() == 4 && "type"@[0] == 't' && "type"@[3] == 'e',
        "interface"@.len() == 9 && "interface"@[0] == 'i' && "interface"@[8] == 'e',
        "union"@.len() == 5 && "union"@[0] == 'u' && "union"@[4] == 'n',
        "enum"@.len() == 4 && "enum"@[0] == 'e' && "enum"@[3] == 'm',
        "input"@.len() == 5 && "input"@[0] == 'i' && "input"@[4] == 't',
        "directive"@.len() == 9 && "directive"@[0] == 'd' && "directive"@[8] == 'e',
        "extend"@.len() == 6 && "extend"@[0] == 'e' && "extend"@[5] == 'd',
        "query"@.len() == 5 && "query"@[0] == 'q' && "query"@[4] == 'y',
        "mutation"@.len() == 8 && "mutation"@[0] == 'm' && "mutation"@[7] == 'n',
        "subscription"@.len() == 12 && "subscription"@[0] == 's' && "subscription"@[11] == 'n',
        "fragment"@.len() == 8 && "fragment"@[0] == 'f' && "fragment"@[7] == 't',
        "on"@.len() == 2 && "on"@[0] == 'o' && "on"@[1] == 'n',
{
    reveal_strlit("schema");
    reveal_strlit("scalar");
    reveal_strlit("type");
    reveal_strlit("interface");
    reveal_strlit("union");
    reveal_strlit("enum");
    reveal_strlit("input");
    reveal_strlit("directive");
    reveal_strlit("extend");
    reveal_strlit("query");
    reveal_strlit("mutation");
    reveal_strlit("subscription");
    reveal_strlit("fragment");
    reveal_strlit("on");
}

/// The token after the next one, if any.
pub open spec fn second<'src>(p: GraphQLParser<'src>) -> Option<GraphQLToken> {
    if p.rest().len() > 1 {
        Some(p.rest()[1])
    } else {
        None
    }
}

/// Whether skipping to the next definition stops at the tokens `ts`: the
/// end of input, `{`, a keyword that looks like it starts a definition, or
/// a string before a type-system keyword.
pub open spec fn is_definition_recovery_point(ts: Seq<GraphQLToken>) -> bool {
    ts.len() > 0 && match ts[0].kind {
        GraphQLTokenKind::Eof => true,
        GraphQLTokenKind::CurlyBraceOpen => true,
        GraphQLTokenKind::Name(kw) => looks_like_definition(
            kw@,
            if ts.len() > 1 {
                Some(ts[1])
            } else {
                None
            },
        ),
        GraphQLTokenKind::StringValue { .. } => ts.len() > 1 && is_type_system_keyword(ts[1]),
        _ => false,
    }
}

/// The description of a definition (none for kinds without one).
pub open spec fn definition_description(d: ast::Definition) -> Option<ast::StringValue> {
    match d {
        ast::Definition::TypeDefinition(t) => type_def_description(t),
        ast::Definition::DirectiveDefinition(x) => x.description,
        ast::Definition::SchemaDefinition(x) => x.description,
        _ => None,
    }
}

/// The definition `d`, apart from its description, is written with exactly
/// the tokens `ts`.
pub open spec fn body_written(d: ast::Definition, ts: Seq<GraphQLToken>, retain: bool) -> bool {
    match d {
        ast::Definition::TypeDefinition(t) => type_def_written(t, ts, retain),
        ast::Definition::DirectiveDefinition(x) => directive_def_written(x, ts, retain),
        ast::Definition::SchemaDefinition(x) => schema_def_written(x, ts, retain),
        ast::Definition::OperationDefinition(x) => operation_written(x, ts, retain),
        ast::Definition::FragmentDefinition(x) => fragment_written(x, ts, retain),
        _ => extension_written(d, ts, retain),
    }
}

/// Whether a string before a definition of this kind is read and dropped
/// rather than kept as its description.
pub open spec fn drops_description(d: ast::Definition) -> bool {
    d is OperationDefinition || d is FragmentDefinition || d is SchemaExtension || d is TypeExtension
}

/// The definition `d` is written with exactly the tokens `ts`: its
/// description, if it has one, then its body; a string before an
/// operation, a fragment or an extension is dropped.
pub open spec fn definition_written(d: ast::Definition, ts: Seq<GraphQLToken>, retain: bool) -> bool {
    match definition_description(d) {
        Some(sv) => ts.len() > 0 && desc_written(Some(sv), ts[0], retain) && body_written(
            d,
            ts.subrange(1, ts.len() as int),
            retain,
        ),
        None => body_written(d, ts, retain) || (drops_description(d) && ts.len() > 0 && ts[0].kind is StringValue
            && body_written(d, ts.subrange(1, ts.len() as int), retain)),
    }
}

/// The definitions `ds` are written with exactly the tokens `ts`, one after
/// the other.
pub open spec fn definitions_written(ds: Seq<ast::Definition>, ts: Seq<GraphQLToken>, retain: bool) -> bool
    decreases ds.len(),
{
    if ds.len() == 0 {
        ts.len() == 0
    } else {
        exists|k: int|
            #![trigger ts.subrange(0, k)]
            0 <= k <= ts.len() && definitions_written(ds.drop_last(), ts.subrange(0, k), retain) && definition_written(
                ds.last(),
                ts.subrange(k, ts.len() as int),
                retain,
            )
    }
}

/// The document `doc` is written with exactly the tokens of the source
/// `bytes`: some well-formed tokens of it hold, before their final `Eof`,
/// the tokens of its definitions one after the other, and the trivia before
/// that `Eof` is the document's trailing trivia.
pub open spec fn document_written(doc: ast::Document, bytes: Seq<u8>) -> bool {
    exists|ts: Seq<GraphQLToken>|
        #[trigger] tokens_wf(bytes, ts) && definitions_written(doc.definitions@, ts.drop_last(), true) && (
        doc.syntax matches Some(sx) ==> sx.trailing_trivia@ == ts.last().preceding_trivia@)
}

/// One more definition parsed after those from `base` extends the written
/// definitions.
#[verifier::spinoff_prover]
proof fn lemma_definitions_step<'src>(
    ds0: Seq<ast::Definition>,
    d: ast::Definition,
    base: GraphQLParser<'src>,
    before: GraphQLParser<'src>,
    after: GraphQLParser<'src>,
)
    requires
        base.inv(),
        advanced(base, before),
        advanced(before, after),
        definitions_written(ds0, consumed(base, before), base.spec_config().retain_syntax),
        definition_written(d, consumed(before, after), base.spec_config().retain_syntax),
    ensures
        definitions_written(ds0.push(d), consumed(base, after), base.spec_config().retain_syntax),
{
    GraphQLParser::lemma_consumed(base, before, after);
    let ts = consumed(base, after);
    let k = before.pos() - base.pos();
    assert(ds0.push(d).drop_last() =~= ds0);
    assert(ts.subrange(0, k) == consumed(base, before));
    assert(ts.subrange(k, ts.len() as int) == consumed(before, after));
}

/// A definition parsed after an optional description is written with the
/// tokens from the description on.
#[verifier::spinoff_prover]
proof fn lemma_item_written<'src>(
    d: ast::Definition,
    desc: Option<ast::StringValue>,
    s0: GraphQLParser<'src>,
    s1: GraphQLParser<'src>,
    s2: GraphQLParser<'src>,
)
    requires
        s0.inv(),
        advanced(s0, s1),
        advanced(s1, s2),
        desc is Some <==> s1.pos() == s0.pos() + 1,
        desc is None ==> s1.pos() == s0.pos(),
        desc matches Some(sv) ==> s0.rest().len() > 0 && s0.rest()[0].kind is StringValue && scalar_value(
            s0.rest()[0],
            s0.spec_config().retain_syntax,
        ) == Some(ast::Value::String(sv)),
        drops_description(d) || definition_description(d) == desc,
        body_written(d, consumed(s1, s2), s0.spec_config().retain_syntax),
    ensures
        definition_written(d, consumed(s0, s2), s0.spec_config().retain_syntax),
{
    GraphQLParser::lemma_consumed(s0, s1, s2);
    let ts = consumed(s0, s2);
    if desc is Some {
        assert(ts[0] == s0.rest()[0]);
        assert(ts.subrange(1, ts.len() as int) == consumed(s1, s2));
    } else {
        assert(ts == consumed(s1, s2)) by {
            assert(ts =~= consumed(s1, s2));
        }
    }
}

impl<'src> GraphQLParser<'src> {
    /// Whether the token after the next one is a type-system keyword.
    fn second_is_type_system_keyword(&self) -> (r: bool)
        ensures
            r == (self.rest().len() > 1 && is_type_system_keyword(self.rest()[1])),
    {
        match self.peek_second() {
            Some(t) => match &t.kind {
                GraphQLTokenKind::Name(n) => {
                    let n = n.as_str();
                    str_eq(n, "type") || str_eq(n, "interface") || str_eq(n, "union") || str_eq(n, "enum")
                        || str_eq(n, "scalar") || str_eq(n, "input") || str_eq(n, "directive") || str_eq(
                        n,
                        "schema",
                    ) || str_eq(n, "extend")
                },
                _ => false,
            },
            None => false,
        }
    }

    /// Whether the keyword `keyword`, the next token, starts a definition,
    /// judged by the token after it.
    fn looks_like_definition_start(&self, keyword: &str) -> (r: bool)
        ensures
            r == looks_like_definition(keyword@, second(*self)),
    {
        let next = self.peek_second();
        if str_eq(keyword, "type") || str_eq(keyword, "interface") || str_eq(keyword, "union") || str_eq(
            keyword,
            "enum",
        ) || str_eq(keyword, "scalar") || str_eq(keyword, "input") {
            match next {
                Some(t) => match &t.kind {
                    GraphQLTokenKind::Name(_) | GraphQLTokenKind::True | GraphQLTokenKind::False
                    | GraphQLTokenKind::Null => true,
                    _ => false,
                },
                None => false,
            }
        } else if str_eq(keyword, "directive") {
            match next {
                Some(t) => match &t.kind {
                    GraphQLTokenKind::At => true,
                    _ => false,
                },
                None => false,
            }
        } else if str_eq(keyword, "schema") {
            match next {
                Some(t) => match &t.kind {
                    GraphQLTokenKind::CurlyBraceOpen | GraphQLTokenKind::At => true,
                    _ => false,
                },
                None => false,
            }
        } else if str_eq(keyword, "extend") {
            match next {
                Some(t) => match &t.kind {
                    GraphQLTokenKind::Name(n) => {
                        let n = n.as_str();
                        str_eq(n, "type") || str_eq(n, "interface") || str_eq(n, "union") || str_eq(
                            n,
                            "enum",
                        ) || str_eq(n, "scalar") || str_eq(n, "input") || str_eq(n, "schema")
                    },
                    _ => false,
                },
                None => false,
            }
        } else if str_eq(keyword, "query") || str_eq(keyword, "mutation") || str_eq(
            keyword,
            "subscription",
        ) {
            match next {
                Some(t) => match &t.kind {
                    GraphQLTokenKind::Name(_) | GraphQLTokenKind::True | GraphQLTokenKind::False
                    | GraphQLTokenKind::Null | GraphQLTokenKind::CurlyBraceOpen
                    | GraphQLTokenKind::ParenOpen | GraphQLTokenKind::At => true,
                    _ => false,
                },
                None => true,
            }
        } else if str_eq(keyword, "fragment") {
            match next {
                Some(t) => match &t.kind {
                    GraphQLTokenKind::Name(n) => !str_eq(n.as_str(), "on"),
                    GraphQLTokenKind::True | GraphQLTokenKind::False | GraphQLTokenKind::Null => true,
                    _ => false,
                },
                None => false,
            }
        } else {
            false
        }
    }

    /// Skips tokens up to the start of a definition: the end of input, `{`,
    /// a keyword that looks like it starts a definition, or a description
    /// before a type-system keyword. Forgets all open delimiters.
    pub(crate) fn recover_to_next_definition(&mut self)
        requires
            old(self).inv(),
        ensures
            advanced(*old(self), *final(self)),
            final(self).spec_errors() == old(self).spec_errors(),
            final(self).rest().len() == 0 || is_definition_recovery_point(final(self).rest()),
            forall|k: int|
                0 <= k < final(self).pos() - old(self).pos() ==> !is_definition_recovery_point(
                    #[trigger] old(self).rest().subrange(k, old(self).rest().len() as int),
                ),
            final(self).delimiters().len() == 0,
    {
        proof {
            old(self).lemma_inv();
        }
        loop
            invariant
                advanced(*old(self), *self),
                old(self).inv(),
                self.spec_errors() == old(self).spec_errors(),
                forall|k: int|
                    0 <= k < self.pos() - old(self).pos() ==> !is_definition_recovery_point(
                        #[trigger] old(self).rest().subrange(k, old(self).rest().len() as int),
                    ),
            ensures
                self.rest().len() == 0 || is_definition_recovery_point(self.rest()),
            decreases self.rest().len(),
        {
            if self.rest_len() == 0 {
                break;
            }
            let stop = match &self.peek().unwrap().kind {
                GraphQLTokenKind::Eof | GraphQLTokenKind::CurlyBraceOpen => true,
                GraphQLTokenKind::Name(kw) => self.looks_like_definition_start(kw.as_str()),
                GraphQLTokenKind::StringValue { .. } => self.second_is_type_system_keyword(),
                _ => false,
            };
            proof {
                assert(stop == is_definition_recovery_point(self.rest()));
            }
            if stop {
                break;
            }
            let ghost before = *self;
            self.consume_token();
            proof {
                GraphQLParser::lemma_advanced(*old(self), before);
                let j = before.pos() - old(self).pos();
                assert(old(self).rest().subrange(j, old(self).rest().len() as int) =~= before.rest());
                assert forall|k: int|
                    0 <= k < self.pos() - old(self).pos() implies !is_definition_recovery_point(
                    #[trigger] old(self).rest().subrange(k, old(self).rest().len() as int),
                ) by {
                    if k == j {
                        assert(old(self).rest().subrange(k, old(self).rest().len() as int) == before.rest());
                    }
                }
            }
        }
        self.clear_delimiters();
    }

    /// Records that a definition of kind `found` is not allowed in a
    /// document of kind `document_kind`, then consumes the next token.
    fn wrong_document_kind(&mut self, what: &str, found: DefinitionKind, document_kind: DocumentKind)
        requires
            old(self).inv(),
            old(self).rest().len() > 0,
        ensures
            advanced(*old(self), *final(self)),
            final(self).pos() == old(self).pos() + 1,
            final(self).spec_errors().len() == old(self).spec_errors().len() + 1,
            final(self).spec_errors().last().spec_kind() == (GraphQLParseErrorKind::WrongDocumentKind {
                found,
                document_kind,
            }),
    {
        let span = self.next_span();
        let mut message = what.to_owned();
        message.append(" not allowed in ");
        match document_kind {
            DocumentKind::Schema => message.append("schema document"),
            DocumentKind::Executable => message.append("executable document"),
            DocumentKind::Mixed => message.append("mixed document"),
        }
        self.record_error(
            GraphQLParseError::new(
                message,
                GraphQLParseErrorKind::WrongDocumentKind { found, document_kind },
                span.to_source_span(),
            ),
        );
        self.consume_any_token();
    }

    /// Records that `what` was expected where the next token was found,
    /// then consumes that token.
    fn unexpected_definition(&mut self, what: &str, expected: Vec<String>)
        requires
            old(self).inv(),
            old(self).rest().len() > 0,
        ensures
            advanced(*old(self), *final(self)),
            final(self).pos() == old(self).pos() + 1,
            final(self).spec_errors().len() == old(self).spec_errors().len() + 1,
            final(self).spec_errors().last().spec_kind() is UnexpectedToken,
    {
        self.record_unexpected(what, expected);
        self.consume_any_token();
    }

    /// Parses one definition of a schema document; executable definitions
    /// are reported as not allowed.
    #[verifier::spinoff_prover]
    #[verifier::rlimit(100)]
    fn parse_schema_definition_item(&mut self) -> (r: Result<ast::Definition, ()>)
        requires
            old(self).inv(),
            !old(self).at_end(),
        ensures
            advanced(*old(self), *final(self)),
            progressed(*old(self), *final(self), r),
            final(self).pos() > old(self).pos(),
            r is Ok ==> is_type_system_definition(r->Ok_0) && definition_is_const(r->Ok_0),
            r is Ok ==> (after_description(old(self).rest()) matches Some(t) && fits_leading_token(t, r->Ok_0)),
            old(self).rest()[0].kind is Error ==> r is Err && final(self).spec_errors().last().spec_kind()
                is LexerError,
            is_keyword(old(self).rest()[0], "fragment"@) ==> r is Err && final(self).spec_errors().last().spec_kind()
                == (GraphQLParseErrorKind::WrongDocumentKind {
                found: DefinitionKind::Fragment,
                document_kind: DocumentKind::Schema,
            }),
            old(self).rest()[0].kind is CurlyBraceOpen || operation_keyword_kind(old(self).rest()[0]) is Some
                ==> r is Err && final(self).spec_errors().last().spec_kind() == (
            GraphQLParseErrorKind::WrongDocumentKind {
                found: DefinitionKind::Operation,
                document_kind: DocumentKind::Schema,
            }),
            r is Ok && final(self).spec_errors().len() == old(self).spec_errors().len() ==> definition_written(
                r->Ok_0,
                consumed(*old(self), *final(self)),
                old(self).spec_config().retain_syntax,
            ),
    {
        proof {
            lemma_keyword_texts();
        }
        if self.peek_is(&GraphQLTokenKind::Error { message: String::new(), notes: Vec::new() }) {
            self.lexer_error();
            return Err(());
        }
        let ghost s0 = *self;
        let description = self.parse_ast_description();
        let ghost desc = description;
        let ghost s1 = *self;
        proof {
            GraphQLParser::lemma_advanced(s0, s1);
        }
        let r = {
            if self.peek_is_keyword("schema") {
                match self.parse_schema_definition(description) {
                    Ok(d) => Ok(ast::Definition::SchemaDefinition(d)),
                    Err(()) => Err(()),
                }
            } else if self.peek_is_keyword("scalar") {
                match self.parse_scalar_type_definition(description) {
                    Ok(d) => Ok(ast::Definition::TypeDefinition(d)),
                    Err(()) => Err(()),
                }
            } else if self.peek_is_keyword("type") {
                match self.parse_object_type_definition(description) {
                    Ok(d) => Ok(ast::Definition::TypeDefinition(d)),
                    Err(()) => Err(()),
                }
            } else if self.peek_is_keyword("interface") {
                match self.parse_interface_type_definition(description) {
                    Ok(d) => Ok(ast::Definition::TypeDefinition(d)),
                    Err(()) => Err(()),
                }
            } else if self.peek_is_keyword("union") {
                match self.parse_union_type_definition(description) {
                    Ok(d) => Ok(ast::Definition::TypeDefinition(d)),
                    Err(()) => Err(()),
                }
            } else if self.peek_is_keyword("enum") {
                match self.parse_enum_type_definition(description) {
                    Ok(d) => Ok(ast::Definition::TypeDefinition(d)),
                    Err(()) => Err(()),
                }
            } else if self.peek_is_keyword("input") {
                match self.parse_input_object_type_definition(description) {
                    Ok(d) => Ok(ast::Definition::TypeDefinition(d)),
                    Err(()) => Err(()),
                }
            } else if self.peek_is_keyword("directive") {
                match self.parse_directive_definition(description) {
                    Ok(d) => Ok(ast::Definition::DirectiveDefinition(d)),
                    Err(()) => Err(()),
                }
            } else if self.peek_is_keyword("extend") {
                self.parse_type_extension()
            } else if self.rest_len() == 0 {
                self.record_unexpected("schema definition", GraphQLParser::schema_definition_keywords());
                Err(())
            } else if self.peek_is_keyword("fragment") {
                self.wrong_document_kind("fragment definition", DefinitionKind::Fragment, DocumentKind::Schema);
                Err(())
            } else if self.peek_is_keyword("query") || self.peek_is_keyword("mutation") || self.peek_is_keyword(
                "subscription",
            ) || self.peek_is(&GraphQLTokenKind::CurlyBraceOpen) {
                self.wrong_document_kind("operation definition", DefinitionKind::Operation, DocumentKind::Schema);
                Err(())
            } else {
                self.unexpected_definition("schema definition", GraphQLParser::schema_definition_keywords());
                Err(())
            }
        };
        proof {
            if r is Ok && self.spec_errors().len() == s0.spec_errors().len() {
                let d = r->Ok_0;
                lemma_item_written(d, desc, s0, s1, *self);
            }
        }
        r
    }

    /// The keywords that can start a schema definition, for error reports.
    fn schema_definition_keywords() -> (r: Vec<String>)
        ensures
            r@.len() == 9,
    {
        vec![
            "type".to_owned(),
            "interface".to_owned(),
            "union".to_owned(),
            "enum".to_owned(),
            "scalar".to_owned(),
            "input".to_owned(),
            "directive".to_owned(),
            "schema".to_owned(),
            "extend".to_owned(),
        ]
    }

    /// Parses one definition of an executable document; type-system
    /// definitions are reported as not allowed.
    #[verifier::spinoff_prover]
    fn parse_executable_definition_item(&mut self) -> (r: Result<ast::Definition, ()>)
        requires
            old(self).inv(),
            !old(self).at_end(),
        ensures
            advanced(*old(self), *final(self)),
            progressed(*old(self), *final(self), r),
            final(self).pos() > old(self).pos(),
            r is Ok ==> is_executable_definition(r->Ok_0) && definition_is_const(r->Ok_0),
            r is Ok ==> fits_leading_token(old(self).rest()[0], r->Ok_0),
            old(self).rest()[0].kind is Error ==> r is Err && final(self).spec_errors().last().spec_kind()
                is LexerError,
            is_keyword(old(self).rest()[0], "directive"@) ==> r is Err && final(self).spec_errors().last().spec_kind()
                == (GraphQLParseErrorKind::WrongDocumentKind {
                found: DefinitionKind::DirectiveDefinition,
                document_kind: DocumentKind::Executable,
            }),
            is_keyword(old(self).rest()[0], "schema"@) || is_keyword(old(self).rest()[0], "extend"@) ==> r is Err
                && final(self).spec_errors().last().spec_kind() == (GraphQLParseErrorKind::WrongDocumentKind {
                found: DefinitionKind::Schema,
                document_kind: DocumentKind::Executable,
            }),
            is_type_system_keyword(old(self).rest()[0]) && !is_keyword(old(self).rest()[0], "directive"@)
                && !is_keyword(old(self).rest()[0], "schema"@) && !is_keyword(old(self).rest()[0], "extend"@)
                ==> r is Err && final(self).spec_errors().last().spec_kind() == (
            GraphQLParseErrorKind::WrongDocumentKind {
                found: DefinitionKind::TypeDefinition,
                document_kind: DocumentKind::Executable,
            }),
            old(self).rest()[0].kind is StringValue && old(self).rest().len() > 1 && is_type_system_keyword(
                old(self).rest()[1],
            ) ==> r is Err && final(self).spec_errors().last().spec_kind() == (
            GraphQLParseErrorKind::WrongDocumentKind {
                found: DefinitionKind::TypeDefinition,
                document_kind: DocumentKind::Executable,
            }),
            r is Ok && final(self).spec_errors().len() == old(self).spec_errors().len() ==> definition_written(
                r->Ok_0,
                consumed(*old(self), *final(self)),
                old(self).spec_config().retain_syntax,
            ),
    {
        proof {
            lemma_keyword_texts();
        }
        if self.peek_is(&GraphQLTokenKind::Error { message: String::new(), notes: Vec::new() }) {
            self.lexer_error();
            return Err(());
        }
        let ghost s0 = *self;
        let r = {
            if self.peek_is_keyword("query") || self.peek_is_keyword("mutation") || self.peek_is_keyword(
                "subscription",
            ) || self.peek_is(&GraphQLTokenKind::CurlyBraceOpen) {
                match self.parse_operation_definition() {
                    Ok(d) => Ok(ast::Definition::OperationDefinition(d)),
                    Err(()) => Err(()),
                }
            } else if self.peek_is_keyword("fragment") {
                match self.parse_fragment_definition() {
                    Ok(d) => Ok(ast::Definition::FragmentDefinition(d)),
                    Err(()) => Err(()),
                }
            } else if self.peek_is_keyword("directive") {
                self.wrong_document_kind(
                    "directive definition",
                    DefinitionKind::DirectiveDefinition,
                    DocumentKind::Executable,
                );
                Err(())
            } else if self.peek_is_keyword("schema") || self.peek_is_keyword("extend") {
                self.wrong_document_kind("schema definition", DefinitionKind::Schema, DocumentKind::Executable);
                Err(())
            } else if self.peek_is_keyword("type") || self.peek_is_keyword("interface") || self.peek_is_keyword(
                "union",
            ) || self.peek_is_keyword("enum") || self.peek_is_keyword("scalar") || self.peek_is_keyword(
                "input",
            ) {
                self.wrong_document_kind(
                    "type definition",
                    DefinitionKind::TypeDefinition,
                    DocumentKind::Executable,
                );
                Err(())
            } else if self.peek_is(&GraphQLTokenKind::StringValue { value: String::new(), is_block: false })
                && self.second_is_type_system_keyword() {
                self.wrong_document_kind(
                    "type definition",
                    DefinitionKind::TypeDefinition,
                    DocumentKind::Executable,
                );
                Err(())
            } else {
                self.unexpected_definition(
                    "operation or fragment definition",
                    vec![
                        "query".to_owned(),
                        "mutation".to_owned(),
                        "subscription".to_owned(),
                        "fragment".to_owned(),
                        "{".to_owned(),
                    ],
                );
                Err(())
            }
        };
        proof {
            if r is Ok && self.spec_errors().len() == s0.spec_errors().len() {
                let d = r->Ok_0;
                lemma_item_written(d, None, s0, s0, *self);
            }
        }
        r
    }

    /// Parses one definition of a mixed document.
    #[verifier::spinoff_prover]
    #[verifier::rlimit(60)]
    fn parse_mixed_definition_item(&mut self) -> (r: Result<ast::Definition, ()>)
        requires
            old(self).inv(),
            !old(self).at_end(),
        ensures
            advanced(*old(self), *final(self)),
            progressed(*old(self), *final(self), r),
            final(self).pos() > old(self).pos(),
            r is Ok ==> definition_is_const(r->Ok_0),
            r is Ok ==> (after_description(old(self).rest()) matches Some(t) && fits_leading_token(t, r->Ok_0)),
            old(self).rest()[0].kind is Error ==> r is Err && final(self).spec_errors().last().spec_kind()
                is LexerError,
            r is Ok && final(self).spec_errors().len() == old(self).spec_errors().len() ==> definition_written(
                r->Ok_0,
                consumed(*old(self), *final(self)),
                old(self).spec_config().retain_syntax,
            ),
    {
        proof {
            lemma_keyword_texts();
        }
        if self.peek_is(&GraphQLTokenKind::Error { message: String::new(), notes: Vec::new() }) {
            self.lexer_error();
            return Err(());
        }
        let ghost s0 = *self;
        let description = self.parse_ast_description();
        let ghost desc = description;
        let ghost s1 = *self;
        proof {
            GraphQLParser::lemma_advanced(s0, s1);
        }
        let r = {
            if self.peek_is_keyword("schema") {
                match self.parse_schema_definition(description) {
                    Ok(d) => Ok(ast::Definition::SchemaDefinition(d)),
                    Err(()) => Err(()),
                }
            } else if self.peek_is_keyword("scalar") {
                match self.parse_scalar_type_definition(description) {
                    Ok(d) => Ok(ast::Definition::TypeDefinition(d)),
                    Err(()) => Err(()),
                }
            } else if self.peek_is_keyword("type") {
                match self.parse_object_type_definition(description) {
                    Ok(d) => Ok(ast::Definition::TypeDefinition(d)),
                    Err(()) => Err(()),
                }
            } else if self.peek_is_keyword("interface") {
                match self.parse_interface_type_definition(description) {
                    Ok(d) => Ok(ast::Definition::TypeDefinition(d)),
                    Err(()) => Err(()),
                }
            } else if self.peek_is_keyword("union") {
                match self.parse_union_type_definition(description) {
                    Ok(d) => Ok(ast::Definition::TypeDefinition(d)),
                    Err(()) => Err(()),
                }
            } else if self.peek_is_keyword("enum") {
                match self.parse_enum_type_definition(description) {
                    Ok(d) => Ok(ast::Definition::TypeDefinition(d)),
                    Err(()) => Err(()),
                }
            } else if self.peek_is_keyword("input") {
                match self.parse_input_object_type_definition(description) {
                    Ok(d) => Ok(ast::Definition::TypeDefinition(d)),
                    Err(()) => Err(()),
                }
            } else if self.peek_is_keyword("directive") {
                match self.parse_directive_definition(description) {
                    Ok(d) => Ok(ast::Definition::DirectiveDefinition(d)),
                    Err(()) => Err(()),
                }
            } else if self.peek_is_keyword("extend") {
                self.parse_type_extension()
            } else if self.peek_is_keyword("query") || self.peek_is_keyword("mutation") || self.peek_is_keyword(
                "subscription",
            ) || self.peek_is(&GraphQLTokenKind::CurlyBraceOpen) {
                match self.parse_operation_definition() {
                    Ok(d) => Ok(ast::Definition::OperationDefinition(d)),
                    Err(()) => Err(()),
                }
            } else if self.peek_is_keyword("fragment") {
                match self.parse_fragment_definition() {
                    Ok(d) => Ok(ast::Definition::FragmentDefinition(d)),
                    Err(()) => Err(()),
                }
            } else if self.rest_len() == 0 {
                self.record_unexpected(
                    "definition",
                    vec!["type".to_owned(), "query".to_owned(), "fragment".to_owned()],
                );
                Err(())
            } else {
                self.unexpected_definition(
                    "definition",
                    vec!["type".to_owned(), "query".to_owned(), "fragment".to_owned()],
                );
                Err(())
            }
        };
        proof {
            if r is Ok && self.spec_errors().len() == s0.spec_errors().len() {
                let d = r->Ok_0;
                lemma_item_written(d, desc, s0, s1, *self);
            }
        }
        r
    }

    /// Parses a schema document: type-system definitions and extensions.
    /// Executable definitions are reported, and parsing resumes at the next
    /// definition after any error.
    pub fn parse_schema_document(self) -> (r: ParseResult<'src, ast::Document>)
        requires
            self.inv(),
            self.depth() == 0,
        ensures
            r.wf(),
            forall|i: int|
                0 <= i < self.spec_errors().len() ==> r.spec_errors()[i] == self.spec_errors()[i],
            self.spec_errors().len() <= r.spec_errors().len(),
            forall|i: int|
                0 <= i < r.spec_ast().definitions@.len() ==> is_type_system_definition(
                    #[trigger] r.spec_ast().definitions@[i],
                ) && definition_is_const(r.spec_ast().definitions@[i]),
            source_map_of(self.spec_source(), r.spec_source_map()@),
            is_origin(r.spec_ast().span.start_inclusive),
            r.spec_ast().syntax is Some <==> self.spec_config().retain_syntax,
            r.spec_errors().len() == self.spec_errors().len() && ends_at_eof(self.rest()) ==> (r.spec_ast().syntax matches Some(sx)
                ==> sx.trailing_trivia@ == self.rest().last().preceding_trivia@),
            r.spec_errors().len() == self.spec_errors().len() && ends_at_eof(self.rest()) ==> definitions_written(
                r.spec_ast().definitions@,
                self.rest().drop_last(),
                self.spec_config().retain_syntax,
            ),
    {
        let ghost s = self;
        let mut p = self;
        let mut definitions: Vec<ast::Definition> = Vec::new();
        proof {
            assert(consumed(s, p) =~= Seq::<GraphQLToken>::empty());
        }
        while !p.is_at_end()
            invariant
                advanced(s, p),
                p.depth() == 0,
                forall|i: int|
                    0 <= i < definitions@.len() ==> is_type_system_definition(#[trigger] definitions@[i])
                        && definition_is_const(definitions@[i]),
                s.inv(),
                p.spec_errors().len() == s.spec_errors().len() ==> definitions_written(
                    definitions@,
                    consumed(s, p),
                    s.spec_config().retain_syntax,
                ),
            decreases p.rest().len(),
        {
            let ghost before = p;
            let ghost ds0 = definitions@;
            match p.parse_schema_definition_item() {
                Ok(d) => {
                    definitions.push(d);
                    proof {
                        if p.spec_errors().len() == s.spec_errors().len() {
                            lemma_definitions_step(ds0, d, s, before, p);
                            assert(definitions@ == ds0.push(d));
                        }
                    }
                },
                Err(()) => {
                    p.recover_to_next_definition();
                },
            }
        }
        proof {
            if p.spec_errors().len() == s.spec_errors().len() && ends_at_eof(s.rest()) {
                GraphQLParser::lemma_stopped_at_eof(s, p);
                GraphQLParser::lemma_advanced(s, p);
                assert(consumed(s, p) =~= s.rest().drop_last());
            }
        }
        p.finish(definitions)
    }

    /// Parses an executable document: operations and fragments. Type-system
    /// definitions are reported, and parsing resumes at the next definition
    /// after any error.
    pub fn parse_executable_document(self) -> (r: ParseResult<'src, ast::Document>)
        requires
            self.inv(),
            self.depth() == 0,
        ensures
            r.wf(),
            forall|i: int|
                0 <= i < self.spec_errors().len() ==> r.spec_errors()[i] == self.spec_errors()[i],
            self.spec_errors().len() <= r.spec_errors().len(),
            forall|i: int|
                0 <= i < r.spec_ast().definitions@.len() ==> is_executable_definition(
                    #[trigger] r.spec_ast().definitions@[i],
                ) && definition_is_const(r.spec_ast().definitions@[i]),
            source_map_of(self.spec_source(), r.spec_source_map()@),
            is_origin(r.spec_ast().span.start_inclusive),
            r.spec_ast().syntax is Some <==> self.spec_config().retain_syntax,
            r.spec_errors().len() == self.spec_errors().len() && ends_at_eof(self.rest()) ==> (r.spec_ast().syntax matches Some(sx)
                ==> sx.trailing_trivia@ == self.rest().last().preceding_trivia@),
            r.spec_errors().len() == self.spec_errors().len() && ends_at_eof(self.rest()) ==> definitions_written(
                r.spec_ast().definitions@,
                self.rest().drop_last(),
                self.spec_config().retain_syntax,
            ),
    {
        let ghost s = self;
        let mut p = self;
        let mut definitions: Vec<ast::Definition> = Vec::new();
        proof {
            assert(consumed(s, p) =~= Seq::<GraphQLToken>::empty());
        }
        while !p.is_at_end()
            invariant
                advanced(s, p),
                p.depth() == 0,
                forall|i: int|
                    0 <= i < definitions@.len() ==> is_executable_definition(#[trigger] definitions@[i])
                        && definition_is_const(definitions@[i]),
                s.inv(),
                p.spec_errors().len() == s.spec_errors().len() ==> definitions_written(
                    definitions@,
                    consumed(s, p),
                    s.spec_config().retain_syntax,
                ),
            decreases p.rest().len(),
        {
            let ghost before = p;
            let ghost ds0 = definitions@;
            match p.parse_executable_definition_item() {
                Ok(d) => {
                    definitions.push(d);
                    proof {
                        if p.spec_errors().len() == s.spec_errors().len() {
                            lemma_definitions_step(ds0, d, s, before, p);
                            assert(definitions@ == ds0.push(d));
                        }
                    }
                },
                Err(()) => {
                    p.recover_to_next_definition();
                },
            }
        }
        proof {
            if p.spec_errors().len() == s.spec_errors().len() && ends_at_eof(s.rest()) {
                GraphQLParser::lemma_stopped_at_eof(s, p);
                GraphQLParser::lemma_advanced(s, p);
                assert(consumed(s, p) =~= s.rest().drop_last());
            }
        }
        p.finish(definitions)
    }

    /// Parses a mixed document: any definitions. Parsing resumes at the next
    /// definition after any error.
    pub fn parse_mixed_document(self) -> (r: ParseResult<'src, ast::Document>)
        requires
            self.inv(),
            self.depth() == 0,
        ensures
            r.wf(),
            forall|i: int|
                0 <= i < self.spec_errors().len() ==> r.spec_errors()[i] == self.spec_errors()[i],
            self.spec_errors().len() <= r.spec_errors().len(),
            forall|i: int|
                0 <= i < r.spec_ast().definitions@.len() ==> definition_is_const(
                    #[trigger] r.spec_ast().definitions@[i],
                ),
            source_map_of(self.spec_source(), r.spec_source_map()@),
            is_origin(r.spec_ast().span.start_inclusive),
            r.spec_ast().syntax is Some <==> self.spec_config().retain_syntax,
            r.spec_errors().len() == self.spec_errors().len() && ends_at_eof(self.rest()) ==> (r.spec_ast().syntax matches Some(sx)
                ==> sx.trailing_trivia@ == self.rest().last().preceding_trivia@),
            r.spec_errors().len() == self.spec_errors().len() && ends_at_eof(self.rest()) ==> definitions_written(
                r.spec_ast().definitions@,
                self.rest().drop_last(),
                self.spec_config().retain_syntax,
            ),
    {
        let ghost s = self;
        let mut p = self;
        let mut definitions: Vec<ast::Definition> = Vec::new();
        proof {
            assert(consumed(s, p) =~= Seq::<GraphQLToken>::empty());
        }
        while !p.is_at_end()
            invariant
                advanced(s, p),
                p.depth() == 0,
                forall|i: int| 0 <= i < definitions@.len() ==> definition_is_const(#[trigger] definitions@[i]),
                s.inv(),
                p.spec_errors().len() == s.spec_errors().len() ==> definitions_written(
                    definitions@,
                    consumed(s, p),
                    s.spec_config().retain_syntax,
                ),
            decreases p.rest().len(),
        {
            let ghost before = p;
            let ghost ds0 = definitions@;
            match p.parse_mixed_definition_item() {
                Ok(d) => {
                    definitions.push(d);
                    proof {
                        if p.spec_errors().len() == s.spec_errors().len() {
                            lemma_definitions_step(ds0, d, s, before, p);
                            assert(definitions@ == ds0.push(d));
                        }
                    }
                },
                Err(()) => {
                    p.recover_to_next_definition();
                },
            }
        }
        proof {
            if p.spec_errors().len() == s.spec_errors().len() && ends_at_eof(s.rest()) {
                GraphQLParser::lemma_stopped_at_eof(s, p);
                GraphQLParser::lemma_advanced(s, p);
                assert(consumed(s, p) =~= s.rest().drop_last());
            }
        }
        p.finish(definitions)
    }
}

} // verus!
