//! Parsing of executable definitions: operations, variable definitions and
//! fragments.

use crate::ast;
use crate::graphql_parse_error::GraphQLParseError;
use crate::graphql_parse_error_kind::GraphQLParseErrorKind;
use crate::graphql_parser::advanced;
use crate::graphql_parser::is_keyword;
use crate::graphql_parser::kind_display;
use crate::graphql_parser::name_of;
use crate::graphql_parser::progressed;
use crate::graphql_parser::types::directives_are_const;
use crate::graphql_parser::types::directives_len;
use crate::graphql_parser::types::directives_written;
use crate::graphql_parser::types::type_len;
use crate::graphql_parser::types::type_written;
use crate::graphql_parser::types::lemma_directives_written_len;
use crate::graphql_parser::values::value_len;
use crate::graphql_parser::values::value_written;
use crate::graphql_parser::values::tokens_span;
use crate::graphql_parser::selections::selection_set_written;
use crate::graphql_parser::is_name_token;
use crate::graphql_parser::consumed;
use crate::graphql_parser::spanned;
use crate::graphql_parser::values::value_is_const;
use crate::graphql_parser::ConstContext;
use crate::graphql_parser::DelimiterContext;
use crate::graphql_parser::GraphQLParser;
use crate::reserved_name_context::ReservedNameContext;
use crate::text::str_eq;
use crate::token::GraphQLToken;
use crate::token::GraphQLTokenKind;
use vstd::prelude::*;

verus! {

/// The operation kind that the keyword token `t` introduces, if any.
pub open spec fn operation_keyword_kind(t: GraphQLToken) -> Option<ast::OperationKind> {
    if is_keyword(t, "query"@) {
        Some(ast::OperationKind::Query)
    } else if is_keyword(t, "mutation"@) {
        Some(ast::OperationKind::Mutation)
    } else if is_keyword(t, "subscription"@) {
        Some(ast::OperationKind::Subscription)
    } else {
        None
    }
}

/// `e` lists the three operation keywords, in the order an error gives them.
pub open spec fn lists_operation_keywords(e: Seq<String>) -> bool {
    &&& e.len() == 3
    &&& e[0]@ == "query"@
    &&& e[1]@ == "mutation"@
    &&& e[2]@ == "subscription"@
}

/// Whether the variable definition `v` holds only constant values.
pub open spec fn variable_definition_is_const(v: ast::VariableDefinition) -> bool {
    &&& match v.default_value {
        Some(d) => value_is_const(d),
        None => true,
    }
    &&& directives_are_const(v.directives@)
}

/// The number of tokens a variable definition is written with.
pub open spec fn var_def_len(v: ast::VariableDefinition) -> nat {
    3 + type_len(v.var_type) + match v.default_value {
        Some(d) => 1 + value_len(d),
        None => 0,
    } + directives_len(v.directives@)
}

/// The variable definition `v` is written with exactly the tokens `ts`:
/// `$`, its name, `:`, its type, an optional `=` and default value, and its
/// directives.
#[verifier::opaque]
pub open spec fn var_def_written(v: ast::VariableDefinition, ts: Seq<GraphQLToken>, retain: bool) -> bool {
    let t: int = 3 + type_len(v.var_type) as int;
    let e: int = t + match v.default_value {
        Some(d) => 1 + value_len(d) as int,
        None => 0int,
    };
    &&& ts.len() == var_def_len(v)
    &&& ts[0].kind is Dollar
    &&& is_name_token(ts[1])
    &&& name_of(v.variable, ts[1])
    &&& ts[2].kind is Colon
    &&& type_written(v.var_type, ts.subrange(3, t), retain)
    &&& (v.default_value matches Some(d) ==> ts[t].kind is Equals && value_written(d, ts.subrange(t + 1, e), retain))
    &&& directives_written(v.directives@, ts.subrange(e, ts.len() as int), retain)
    &&& v.description is None
    &&& v.span == tokens_span(ts[0], ts.last())
    &&& v.syntax == (if retain {
        Some(
            ast::VariableDefinitionSyntax {
                colon: ts[2],
                dollar: ts[0],
                equals: if v.default_value is Some {
                    Some(ts[t])
                } else {
                    None
                },
            },
        )
    } else {
        None
    })
}

/// The number of tokens the variable definitions `vs` are written with,
/// one after the other.
pub open spec fn var_defs_len(vs: Seq<ast::VariableDefinition>) -> nat
    decreases vs.len(),
{
    if vs.len() == 0 {
        0
    } else {
        var_defs_len(vs.drop_last()) + var_def_len(vs.last())
    }
}

/// The variable definitions `vs` are written with exactly the tokens `ts`,
/// one after the other.
pub open spec fn var_defs_written(vs: Seq<ast::VariableDefinition>, ts: Seq<GraphQLToken>, retain: bool) -> bool
    decreases vs.len(),
{
    if vs.len() == 0 {
        ts.len() == 0
    } else {
        let k = ts.len() - var_def_len(vs.last());
        &&& 0 <= k
        &&& var_defs_written(vs.drop_last(), ts.subrange(0, k), retain)
        &&& var_def_written(vs.last(), ts.subrange(k, ts.len() as int), retain)
    }
}

/// The number of tokens a list of variable definitions is written with
/// (none when there are none).
pub open spec fn var_def_list_len(vs: Seq<ast::VariableDefinition>) -> nat {
    if vs.len() == 0 {
        0
    } else {
        2 + var_defs_len(vs)
    }
}

/// The variable definitions `vs` are written with exactly the tokens `ts`:
/// nothing when there are none, else `(`, the definitions and `)`.
pub open spec fn var_def_list_written(vs: Seq<ast::VariableDefinition>, ts: Seq<GraphQLToken>, retain: bool) -> bool {
    if vs.len() == 0 {
        ts.len() == 0
    } else {
        &&& ts.len() >= 2
        &&& ts[0].kind is ParenOpen
        &&& ts.last().kind is ParenClose
        &&& var_defs_written(vs, ts.subrange(1, ts.len() - 1), retain)
    }
}

/// The operation `op` is written with exactly the tokens `ts`: a bare
/// selection set (a query), or an operation keyword, an optional name,
/// variable definitions, directives and a selection set.
#[verifier::opaque]
pub open spec fn operation_written(op: ast::OperationDefinition, ts: Seq<GraphQLToken>, retain: bool) -> bool {
    &&& op.description is None
    &&& ts.len() > 0
    &&& op.shorthand == (ts[0].kind is CurlyBraceOpen)
    &&& if ts[0].kind is CurlyBraceOpen {
        &&& op.operation_kind == ast::OperationKind::Query
        &&& op.name is None
        &&& op.variable_definitions@.len() == 0
        &&& op.directives@.len() == 0
        &&& selection_set_written(op.selection_set, ts, retain)
        &&& op.span == op.selection_set.span
    } else {
        let n: int = if op.name is Some {
            2
        } else {
            1
        };
        let v = n + var_def_list_len(op.variable_definitions@);
        let d = v + directives_len(op.directives@);
        &&& operation_keyword_kind(ts[0]) == Some(op.operation_kind)
        &&& (op.name matches Some(nm) ==> is_name_token(ts[1]) && name_of(nm, ts[1]))
        &&& var_def_list_written(op.variable_definitions@, ts.subrange(n, v), retain)
        &&& directives_written(op.directives@, ts.subrange(v, d), retain)
        &&& d <= ts.len()
        &&& selection_set_written(op.selection_set, ts.subrange(d, ts.len() as int), retain)
        &&& op.span == tokens_span(ts[0], ts.last())
    }
}

/// The fragment definition `f` is written with exactly the tokens `ts`:
/// `fragment`, its name, `on` and a type name, directives and a selection
/// set.
#[verifier::opaque]
pub open spec fn fragment_written(f: ast::FragmentDefinition, ts: Seq<GraphQLToken>, retain: bool) -> bool {
    let d: int = 4 + directives_len(f.directives@) as int;
    &&& f.description is None
    &&& d <= ts.len()
    &&& is_keyword(ts[0], "fragment"@)
    &&& is_name_token(ts[1])
    &&& name_of(f.name, ts[1])
    &&& is_keyword(ts[2], "on"@)
    &&& is_name_token(ts[3])
    &&& name_of(f.type_condition.named_type, ts[3])
    &&& f.type_condition.span == tokens_span(ts[2], ts[3])
    &&& directives_written(f.directives@, ts.subrange(4, d), retain)
    &&& selection_set_written(f.selection_set, ts.subrange(d, ts.len() as int), retain)
    &&& f.span == tokens_span(ts[0], ts.last())
}

/// Assembles what parsing a variable definition established, piece by
/// piece.
#[verifier::spinoff_prover]
#[verifier::rlimit(100)]
proof fn lemma_var_def_written<'src>(
    v: ast::VariableDefinition,
    s0: GraphQLParser<'src>,
    s1: GraphQLParser<'src>,
    s2: GraphQLParser<'src>,
    s3: GraphQLParser<'src>,
    s4: GraphQLParser<'src>,
    s5: GraphQLParser<'src>,
    s6: GraphQLParser<'src>,
    s7: GraphQLParser<'src>,
)
    requires
        s0.inv(),
        advanced(s0, s1),
        advanced(s1, s2),
        advanced(s2, s3),
        advanced(s3, s4),
        advanced(s4, s5),
        advanced(s5, s6),
        advanced(s6, s7),
        s0.rest().len() > 0,
        s0.rest()[0].kind is Dollar,
        s1.pos() == s0.pos() + 1,
        s1.rest().len() > 0,
        is_name_token(s1.rest()[0]),
        name_of(v.variable, s1.rest()[0]),
        s2.pos() == s1.pos() + 1,
        s2.rest().len() > 0,
        s2.rest()[0].kind is Colon,
        s3.pos() == s2.pos() + 1,
        s4.pos() == s3.pos() + type_len(v.var_type),
        type_written(v.var_type, s3.rest().subrange(0, type_len(v.var_type) as int), s0.spec_config().retain_syntax),
        v.default_value matches Some(d) ==> s4.rest().len() > 0 && s4.rest()[0].kind is Equals && s5.pos() == s4.pos()
            + 1 && value_written(d, consumed(s5, s6), s0.spec_config().retain_syntax),
        v.default_value is None ==> s6.pos() == s4.pos() && s5.pos() == s4.pos(),
        directives_written(v.directives@, consumed(s6, s7), s0.spec_config().retain_syntax),
        v.description is None,
        v.span == spanned(s0.rest()[0].span.start_inclusive, s7.last_end()),
        v.syntax == (if s0.spec_config().retain_syntax {
            Some(
                ast::VariableDefinitionSyntax {
                    colon: s2.rest()[0],
                    dollar: s0.rest()[0],
                    equals: if v.default_value is Some {
                        Some(s4.rest()[0])
                    } else {
                        None
                    },
                },
            )
        } else {
            None
        }),
    ensures
        var_def_written(v, consumed(s0, s7), s0.spec_config().retain_syntax),
{
    let retain = s0.spec_config().retain_syntax;
    GraphQLParser::lemma_consumed(s0, s1, s2);
    GraphQLParser::lemma_consumed(s0, s2, s3);
    GraphQLParser::lemma_consumed(s0, s3, s4);
    GraphQLParser::lemma_consumed(s0, s4, s5);
    GraphQLParser::lemma_consumed(s0, s5, s6);
    GraphQLParser::lemma_consumed(s0, s6, s7);
    GraphQLParser::lemma_last_end(s0, s7);
    lemma_directives_written_len(v.directives@, consumed(s6, s7), retain);
    let ts = consumed(s0, s7);
    let t: int = 3 + type_len(v.var_type) as int;
    assert(ts[0] == s0.rest()[0]);
    assert(ts[1] == consumed(s0, s2)[1]);
    assert(ts[2] == consumed(s0, s3)[2]);
    assert(ts.subrange(3, t) == s3.rest().subrange(0, type_len(v.var_type) as int)) by {
        assert(ts.subrange(3, t) =~= consumed(s0, s4).subrange(3, t));
    }
    if v.default_value is Some {
        assert(ts[t] == consumed(s0, s5)[t]);
        assert(ts.subrange(t + 1, s6.pos() - s0.pos()) == consumed(s5, s6)) by {
            assert(ts.subrange(t + 1, s6.pos() - s0.pos()) =~= consumed(s0, s6).subrange(t + 1, s6.pos() - s0.pos()));
        }
    }
    lemma_var_def_from_pieces(v, ts, retain, s6.pos() - s0.pos());
}

/// A variable definition whose pieces are written with consecutive parts
/// of `ts` is written with `ts`.
#[verifier::spinoff_prover]
proof fn lemma_var_def_from_pieces(v: ast::VariableDefinition, ts: Seq<GraphQLToken>, retain: bool, e: int)
    requires
        e == 3 + type_len(v.var_type) + match v.default_value {
            Some(d) => 1 + value_len(d),
            None => 0,
        },
        ts.len() == e + directives_len(v.directives@),
        ts[0].kind is Dollar,
        is_name_token(ts[1]),
        name_of(v.variable, ts[1]),
        ts[2].kind is Colon,
        type_written(v.var_type, ts.subrange(3, 3 + type_len(v.var_type) as int), retain),
        v.default_value matches Some(d) ==> ts[3 + type_len(v.var_type) as int].kind is Equals && value_written(
            d,
            ts.subrange(4 + type_len(v.var_type) as int, e),
            retain,
        ),
        directives_written(v.directives@, ts.subrange(e, ts.len() as int), retain),
        v.description is None,
        v.span == tokens_span(ts[0], ts.last()),
        v.syntax == (if retain {
            Some(
                ast::VariableDefinitionSyntax {
                    colon: ts[2],
                    dollar: ts[0],
                    equals: if v.default_value is Some {
                        Some(ts[3 + type_len(v.var_type) as int])
                    } else {
                        None
                    },
                },
            )
        } else {
            None
        }),
    ensures
        var_def_written(v, ts, retain),
{
    reveal(var_def_written);
}

/// A variable definition written with some tokens takes as many tokens
/// as its length.
proof fn lemma_var_def_written_len(v: ast::VariableDefinition, ts: Seq<GraphQLToken>, retain: bool)
    requires
        var_def_written(v, ts, retain),
    ensures
        ts.len() == var_def_len(v),
{
    reveal(var_def_written);
}

/// Variable definitions written with some tokens take as many tokens as
/// their length.
proof fn lemma_var_defs_written_len(vs: Seq<ast::VariableDefinition>, ts: Seq<GraphQLToken>, retain: bool)
    requires
        var_defs_written(vs, ts, retain),
    ensures
        ts.len() == var_defs_len(vs),
    decreases vs.len(),
{
    if vs.len() > 0 {
        let k = ts.len() - var_def_len(vs.last());
        lemma_var_defs_written_len(vs.drop_last(), ts.subrange(0, k), retain);
    }
}

/// A shorthand query is written with the tokens of its selection set.
proof fn lemma_shorthand_written<'src>(op: ast::OperationDefinition, s0: GraphQLParser<'src>, s1: GraphQLParser<'src>)
    requires
        s0.inv(),
        advanced(s0, s1),
        s0.rest().len() > 0,
        s0.rest()[0].kind is CurlyBraceOpen,
        op.description is None,
        op.operation_kind == ast::OperationKind::Query,
        op.shorthand,
        op.name is None,
        op.variable_definitions@.len() == 0,
        op.directives@.len() == 0,
        selection_set_written(op.selection_set, consumed(s0, s1), s0.spec_config().retain_syntax),
        op.span == op.selection_set.span,
    ensures
        operation_written(op, consumed(s0, s1), s0.spec_config().retain_syntax),
{
    reveal(operation_written);
    assert(consumed(s0, s1)[0] == s0.rest()[0]);
}

/// Assembles what parsing an operation with a keyword established, piece
/// by piece.
#[verifier::spinoff_prover]
#[verifier::rlimit(100)]
proof fn lemma_operation_written<'src>(
    op: ast::OperationDefinition,
    s0: GraphQLParser<'src>,
    s1: GraphQLParser<'src>,
    s2: GraphQLParser<'src>,
    s3: GraphQLParser<'src>,
    s4: GraphQLParser<'src>,
    s5: GraphQLParser<'src>,
)
    requires
        s0.inv(),
        advanced(s0, s1),
        advanced(s1, s2),
        advanced(s2, s3),
        advanced(s3, s4),
        advanced(s4, s5),
        s0.rest().len() > 0,
        !(s0.rest()[0].kind is CurlyBraceOpen),
        !op.shorthand,
        operation_keyword_kind(s0.rest()[0]) == Some(op.operation_kind),
        s1.pos() == s0.pos() + 1,
        op.name matches Some(nm) ==> s2.pos() == s1.pos() + 1 && s1.rest().len() > 0 && is_name_token(s1.rest()[0])
            && name_of(nm, s1.rest()[0]),
        op.name is None ==> s2.pos() == s1.pos(),
        op.variable_definitions@.len() == 0 ==> s3.pos() == s2.pos(),
        op.variable_definitions@.len() > 0 ==> var_def_list_written(
            op.variable_definitions@,
            consumed(s2, s3),
            s0.spec_config().retain_syntax,
        ),
        directives_written(op.directives@, consumed(s3, s4), s0.spec_config().retain_syntax),
        selection_set_written(op.selection_set, consumed(s4, s5), s0.spec_config().retain_syntax),
        s5.pos() > s4.pos(),
        op.description is None,
        op.span == spanned(s0.rest()[0].span.start_inclusive, s5.last_end()),
    ensures
        operation_written(op, consumed(s0, s5), s0.spec_config().retain_syntax),
{
    let retain = s0.spec_config().retain_syntax;
    GraphQLParser::lemma_consumed(s0, s1, s2);
    GraphQLParser::lemma_consumed(s0, s2, s3);
    GraphQLParser::lemma_consumed(s0, s3, s4);
    GraphQLParser::lemma_consumed(s0, s4, s5);
    GraphQLParser::lemma_last_end(s0, s5);
    let ts = consumed(s0, s5);
    assert(ts[0] == s0.rest()[0]);
    if op.name is Some {
        assert(ts[1] == consumed(s0, s2)[1]);
    }
    if op.variable_definitions@.len() > 0 {
        let c = consumed(s2, s3);
        lemma_var_defs_written_len(op.variable_definitions@, c.subrange(1, c.len() - 1), retain);
    }
    lemma_directives_written_len(op.directives@, consumed(s3, s4), retain);
    let n = s2.pos() - s0.pos();
    let v = s3.pos() - s0.pos();
    let d = s4.pos() - s0.pos();
    assert(ts.subrange(n, v) == consumed(s2, s3)) by {
        assert(ts.subrange(n, v) =~= consumed(s0, s3).subrange(n, v));
    }
    assert(ts.subrange(v, d) == consumed(s3, s4)) by {
        assert(ts.subrange(v, d) =~= consumed(s0, s4).subrange(v, d));
    }
    assert(ts.subrange(d, ts.len() as int) == consumed(s4, s5));
    assert(operation_written(op, ts, retain)) by {
        reveal(operation_written);
    }
}

/// Assembles what parsing a fragment definition established, piece by
/// piece.
#[verifier::spinoff_prover]
#[verifier::rlimit(100)]
proof fn lemma_fragment_def_written<'src>(
    f: ast::FragmentDefinition,
    s0: GraphQLParser<'src>,
    s2: GraphQLParser<'src>,
    s3: GraphQLParser<'src>,
    s4: GraphQLParser<'src>,
    s5: GraphQLParser<'src>,
)
    requires
        s0.inv(),
        advanced(s0, s2),
        advanced(s2, s3),
        advanced(s3, s4),
        advanced(s4, s5),
        s0.rest().len() > 1,
        is_keyword(s0.rest()[0], "fragment"@),
        name_of(f.name, s0.rest()[1]),
        is_name_token(s0.rest()[1]),
        s2.pos() == s0.pos() + 2,
        s3.pos() == s2.pos() + 2,
        s2.rest().len() > 1,
        is_keyword(s2.rest()[0], "on"@),
        is_name_token(s2.rest()[1]),
        name_of(f.type_condition.named_type, s2.rest()[1]),
        f.type_condition.span == tokens_span(s2.rest()[0], s2.rest()[1]),
        directives_written(f.directives@, consumed(s3, s4), s0.spec_config().retain_syntax),
        selection_set_written(f.selection_set, consumed(s4, s5), s0.spec_config().retain_syntax),
        s5.pos() > s4.pos(),
        f.description is None,
        f.span == spanned(s0.rest()[0].span.start_inclusive, s5.last_end()),
    ensures
        fragment_written(f, consumed(s0, s5), s0.spec_config().retain_syntax),
{
    reveal(fragment_written);
    let retain = s0.spec_config().retain_syntax;
    GraphQLParser::lemma_consumed(s0, s2, s3);
    GraphQLParser::lemma_consumed(s0, s3, s4);
    GraphQLParser::lemma_consumed(s0, s4, s5);
    GraphQLParser::lemma_last_end(s0, s5);
    lemma_directives_written_len(f.directives@, consumed(s3, s4), retain);
    let ts = consumed(s0, s5);
    assert(ts[0] == s0.rest()[0]);
    assert(ts[1] == s0.rest()[1]);
    assert(ts[2] == consumed(s0, s3)[2]);
    assert(ts[3] == consumed(s0, s3)[3]);
    let d = s4.pos() - s0.pos();
    assert(ts.subrange(4, d) == consumed(s3, s4)) by {
        assert(ts.subrange(4, d) =~= consumed(s0, s4).subrange(4, d));
    }
}

/// One more variable definition parsed after the `(` at `base` extends
/// the written definitions.
#[verifier::spinoff_prover]
proof fn lemma_var_defs_step<'src>(
    ds0: Seq<ast::VariableDefinition>,
    d: ast::VariableDefinition,
    base: GraphQLParser<'src>,
    before: GraphQLParser<'src>,
    after: GraphQLParser<'src>,
)
    requires
        base.inv(),
        advanced(base, before),
        advanced(before, after),
        before.pos() >= base.pos() + 1,
        var_defs_written(ds0, base.rest().subrange(1, before.pos() - base.pos()), base.spec_config().retain_syntax),
        var_def_written(d, consumed(before, after), base.spec_config().retain_syntax),
    ensures
        var_defs_written(ds0.push(d), base.rest().subrange(1, after.pos() - base.pos()), base.spec_config().retain_syntax),
{
    GraphQLParser::lemma_advanced(base, before);
    GraphQLParser::lemma_advanced(base, after);
    let ts = base.rest().subrange(1, after.pos() - base.pos());
    let k = before.pos() - base.pos() - 1;
    let vs = ds0.push(d);
    lemma_var_def_written_len(d, consumed(before, after), base.spec_config().retain_syntax);
    assert(vs.drop_last() =~= ds0);
    assert(ts.subrange(0, k) =~= base.rest().subrange(1, before.pos() - base.pos()));
    assert(ts.subrange(k, ts.len() as int) =~= consumed(before, after));
}

impl<'src> GraphQLParser<'src> {
    /// Parses an operation: a shorthand selection set, or a `query`,
    /// `mutation` or `subscription` keyword followed by an optional name,
    /// variable definitions, directives and a selection set.
    #[verifier::spinoff_prover]
    pub(crate) fn parse_operation_definition(&mut self) -> (r: Result<ast::OperationDefinition, ()>)
        requires
            old(self).inv(),
        ensures
            old(self).rest().len() > 0 && (old(self).rest()[0].kind is CurlyBraceOpen || operation_keyword_kind(old(self).rest()[0]) is Some) ==> final(self).pos() > old(self).pos(),
            advanced(*old(self), *final(self)),
            progressed(*old(self), *final(self), r),
            r is Ok ==> old(self).rest().len() > 0,
            r is Ok && old(self).rest()[0].kind is CurlyBraceOpen ==> r->Ok_0.operation_kind
                == ast::OperationKind::Query && r->Ok_0.name is None && r->Ok_0.variable_definitions@.len()
                == 0 && r->Ok_0.directives@.len() == 0 && r->Ok_0.span == r->Ok_0.selection_set.span,
            r is Ok && !(old(self).rest()[0].kind is CurlyBraceOpen) ==> operation_keyword_kind(
                old(self).rest()[0],
            ) == Some(r->Ok_0.operation_kind) && r->Ok_0.span.start_inclusive == old(self).rest()[0].span.start_inclusive,
            r is Ok ==> r->Ok_0.description is None,
            r is Ok ==> (r->Ok_0.shorthand <==> old(self).rest()[0].kind is CurlyBraceOpen),
            !(old(self).rest().len() > 0 && (old(self).rest()[0].kind is CurlyBraceOpen || operation_keyword_kind(
                old(self).rest()[0],
            ) is Some)) ==> r is Err && final(self).pos() == old(self).pos() && final(self).spec_errors().len()
                == old(self).spec_errors().len() + 1 && (final(self).spec_errors().last().spec_kind() matches
                GraphQLParseErrorKind::UnexpectedToken { expected: e, found: f } && lists_operation_keywords(e@)
                && f@ == (if old(self).rest().len() > 0 {
                kind_display(old(self).rest()[0].kind)
            } else {
                "end of input"@
            })),
            r is Ok ==> forall|i: int|
                0 <= i < r->Ok_0.variable_definitions@.len() ==> variable_definition_is_const(
                    #[trigger] r->Ok_0.variable_definitions@[i],
                ),
            r is Ok && final(self).spec_errors().len() == old(self).spec_errors().len() ==> operation_written(
                r->Ok_0,
                consumed(*old(self), *final(self)),
                old(self).spec_config().retain_syntax,
            ),
    {
        proof {
            reveal_strlit("query");
            reveal_strlit("mutation");
            reveal_strlit("subscription");
        }
        if self.peek_is(&GraphQLTokenKind::CurlyBraceOpen) {
            let ghost s0 = *self;
            let selection_set = self.parse_selection_set()?;
            let span = selection_set.span.duplicate();
            let op = ast::OperationDefinition {
                description: None,
                directives: Vec::new(),
                name: None,
                operation_kind: ast::OperationKind::Query,
                selection_set,
                shorthand: true,
                span,
                variable_definitions: Vec::new(),
            };
            proof {
                if self.spec_errors().len() == s0.spec_errors().len() {
                    lemma_shorthand_written(op, s0, *self);
                }
            }
            return Ok(op);
        }
        let operation_kind = if self.peek_is_keyword("query") {
            ast::OperationKind::Query
        } else if self.peek_is_keyword("mutation") {
            ast::OperationKind::Mutation
        } else if self.peek_is_keyword("subscription") {
            ast::OperationKind::Subscription
        } else {
            self.record_unexpected_token(
                "operation type (`query`, `mutation`, or `subscription`)",
                vec!["query".to_owned(), "mutation".to_owned(), "subscription".to_owned()],
            );
            return Err(());
        };
        let ghost s0 = *self;
        let keyword = self.take_token();
        let ghost s1 = *self;
        let name = if !self.peek_is(&GraphQLTokenKind::ParenOpen) && !self.peek_is(&GraphQLTokenKind::At)
            && !self.peek_is(&GraphQLTokenKind::CurlyBraceOpen) && self.peek_is_name() {
            Some(self.expect_ast_name()?)
        } else {
            None
        };
        let ghost s2 = *self;
        let variable_definitions = if self.peek_is(&GraphQLTokenKind::ParenOpen) {
            self.parse_variable_definitions()?
        } else {
            Vec::new()
        };
        let ghost s3 = *self;
        let directives = self.parse_directive_annotations()?;
        let ghost s4 = *self;
        let selection_set = self.parse_selection_set()?;
        let span = self.span_from(keyword.span.start_inclusive);
        let op = ast::OperationDefinition {
            description: None,
            directives,
            name,
            operation_kind,
            selection_set,
            shorthand: false,
            span,
            variable_definitions,
        };
        proof {
            if self.spec_errors().len() == s0.spec_errors().len() {
                lemma_operation_written(op, s0, s1, s2, s3, s4, *self);
            }
        }
        Ok(op)
    }

    /// Parses variable definitions `($name: Type = default ...)`; an empty
    /// list is reported but accepted.
    fn parse_variable_definitions(&mut self) -> (r: Result<Vec<ast::VariableDefinition>, ()>)
        requires
            old(self).inv(),
            old(self).rest().len() > 0,
            old(self).rest()[0].kind is ParenOpen,
        ensures
            advanced(*old(self), *final(self)),
            progressed(*old(self), *final(self), r),
            final(self).pos() > old(self).pos(),
            r is Ok ==> forall|i: int|
                0 <= i < r->Ok_0@.len() ==> variable_definition_is_const(#[trigger] r->Ok_0@[i]),
            r is Ok && final(self).spec_errors().len() == old(self).spec_errors().len() ==> r->Ok_0@.len() > 0
                && var_def_list_written(r->Ok_0@, consumed(*old(self), *final(self)), old(self).spec_config().retain_syntax),
    {
        let open = self.take_token();
        self.push_delimiter(open.span.duplicate(), DelimiterContext::VariableDefinitions);
        let mut definitions: Vec<ast::VariableDefinition> = Vec::new();
        proof {
            GraphQLParser::lemma_advanced(*old(self), *self);
            assert(old(self).rest().subrange(1, 1) =~= Seq::<GraphQLToken>::empty());
        }
        if self.peek_is(&GraphQLTokenKind::ParenClose) {
            self.record_error(
                GraphQLParseError::new(
                    "variable definitions cannot be empty; omit the parentheses instead".to_owned(),
                    GraphQLParseErrorKind::InvalidEmptyConstruct {
                        construct: "variable definitions".to_owned(),
                    },
                    open.span.to_source_span(),
                ),
            );
        }
        loop
            invariant
                advanced(*old(self), *self),
                self.pos() > old(self).pos(),
                forall|i: int|
                    0 <= i < definitions@.len() ==> variable_definition_is_const(
                        #[trigger] definitions@[i],
                    ),
                old(self).inv(),
                old(self).rest().len() > 0,
                definitions@.len() == 0 ==> self.pos() == old(self).pos() + 1,
                old(self).rest().len() > 1 && old(self).rest()[1].kind is ParenClose ==> self.spec_errors().len()
                    > old(self).spec_errors().len(),
                self.spec_errors().len() == old(self).spec_errors().len() ==> var_defs_written(
                    definitions@,
                    old(self).rest().subrange(1, self.pos() - old(self).pos()),
                    old(self).spec_config().retain_syntax,
                ),
            ensures
                self.rest().len() > 0 && self.rest()[0].kind is ParenClose,
            decreases self.rest().len(),
        {
            if self.peek_is(&GraphQLTokenKind::ParenClose) {
                break;
            }
            if self.is_at_end() {
                self.record_unclosed("(", true);
                return Err(());
            }
            let ghost before = *self;
            let ghost ds0 = definitions@;
            let d = self.parse_variable_definition()?;
            definitions.push(d);
            proof {
                if self.spec_errors().len() == old(self).spec_errors().len() {
                    lemma_var_defs_step(ds0, d, *old(self), before, *self);
                    assert(definitions@ == ds0.push(d));
                }
            }
        }
        let ghost s_end = *self;
        self.take_token();
        self.pop_delimiter();
        proof {
            GraphQLParser::lemma_advanced(*old(self), s_end);
            GraphQLParser::lemma_advanced(*old(self), *self);
            if self.spec_errors().len() == old(self).spec_errors().len() {
                if definitions@.len() == 0 {
                    assert(s_end.rest()[0] == old(self).rest()[1]);
                }
                let ts = consumed(*old(self), *self);
                assert(ts.subrange(1, ts.len() - 1) =~= old(self).rest().subrange(1, s_end.pos() - old(self).pos()));
            }
        }
        Ok(definitions)
    }

    /// Parses one variable definition `$name: Type = default @directives`.
    fn parse_variable_definition(&mut self) -> (r: Result<ast::VariableDefinition, ()>)
        requires
            old(self).inv(),
        ensures
            advanced(*old(self), *final(self)),
            progressed(*old(self), *final(self), r),
            r is Ok ==> old(self).rest().len() > 1 && old(self).rest()[0].kind is Dollar && name_of(
                r->Ok_0.variable,
                old(self).rest()[1],
            ) && r->Ok_0.span.start_inclusive == old(self).rest()[0].span.start_inclusive,
            r is Ok ==> variable_definition_is_const(r->Ok_0) && r->Ok_0.description is None,
            r is Ok && final(self).spec_errors().len() == old(self).spec_errors().len() ==> var_def_written(
                r->Ok_0,
                consumed(*old(self), *final(self)),
                old(self).spec_config().retain_syntax,
            ),
    {
        let ghost start = *self;
        let dollar = self.expect(&GraphQLTokenKind::Dollar)?;
        let ghost mid = *self;
        proof {
            GraphQLParser::lemma_advanced(start, mid);
        }
        let variable = self.expect_ast_name()?;
        let ghost s2 = *self;
        let colon = self.expect(&GraphQLTokenKind::Colon)?;
        let ghost s3 = *self;
        let var_type = self.parse_type_annotation()?;
        let ghost s4 = *self;
        let ghost mut s5 = *self;
        let (default_value, equals) = if self.peek_is(&GraphQLTokenKind::Equals) {
            let eq = self.take_token();
            proof {
                s5 = *self;
            }
            (Some(self.parse_value(ConstContext::VariableDefaultValue)?), Some(eq))
        } else {
            (None, None)
        };
        let ghost s6 = *self;
        let directives = self.parse_const_directive_annotations()?;
        let span = self.span_from(dollar.span.start_inclusive);
        let syntax = if self.retain_syntax() {
            Some(ast::VariableDefinitionSyntax { colon, dollar, equals })
        } else {
            None
        };
        let v = ast::VariableDefinition {
            default_value,
            description: None,
            directives,
            span,
            syntax,
            var_type,
            variable,
        };
        proof {
            if self.spec_errors().len() == start.spec_errors().len() {
                lemma_var_def_written(v, start, mid, s2, s3, s4, s5, s6, *self);
            }
        }
        Ok(v)
    }

    /// Parses a fragment definition `fragment Name on Type @directives {
    /// selections }`; the name `on` is reported but accepted.
    #[verifier::spinoff_prover]
    pub(crate) fn parse_fragment_definition(&mut self) -> (r: Result<ast::FragmentDefinition, ()>)
        requires
            old(self).inv(),
        ensures
            old(self).rest().len() > 0 && is_keyword(old(self).rest()[0], "fragment"@) ==> final(self).pos() > old(self).pos(),
            advanced(*old(self), *final(self)),
            progressed(*old(self), *final(self), r),
            r is Ok ==> old(self).rest().len() > 1 && is_keyword(old(self).rest()[0], "fragment"@)
                && name_of(r->Ok_0.name, old(self).rest()[1]) && r->Ok_0.span.start_inclusive == old(self).rest()[0].span.start_inclusive && r->Ok_0.description is None,
            r is Ok && final(self).spec_errors().len() == old(self).spec_errors().len() ==> fragment_written(
                r->Ok_0,
                consumed(*old(self), *final(self)),
                old(self).spec_config().retain_syntax,
            ),
    {
        let ghost start = *self;
        let keyword = self.expect_keyword("fragment")?;
        let ghost mid = *self;
        proof {
            GraphQLParser::lemma_advanced(start, mid);
        }
        let name = self.expect_ast_name()?;
        if str_eq(name.value.as_str(), "on") {
            let mut error = GraphQLParseError::new(
                "fragment name cannot be `on`".to_owned(),
                GraphQLParseErrorKind::ReservedName {
                    name: "on".to_owned(),
                    context: ReservedNameContext::FragmentName,
                },
                name.span.to_source_span(),
            );
            error.add_spec(
                "https://spec.graphql.org/October2021/#sec-Fragment-Name-Uniqueness".to_owned(),
            );
            self.record_error(error);
        }
        let ghost s2 = *self;
        let type_condition = self.parse_type_condition()?;
        let ghost s3 = *self;
        let directives = self.parse_directive_annotations()?;
        let ghost s4 = *self;
        let selection_set = self.parse_selection_set()?;
        let span = self.span_from(keyword.span.start_inclusive);
        let f = ast::FragmentDefinition {
            description: None,
            directives,
            name,
            selection_set,
            span,
            type_condition,
        };
        proof {
            if self.spec_errors().len() == start.spec_errors().len() {
                lemma_fragment_def_written(f, start, s2, s3, s4, *self);
            }
        }
        Ok(f)
    }
}

} // verus!
