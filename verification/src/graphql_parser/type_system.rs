//! Parsing of type-system definitions: descriptions, the schema definition,
//! type definitions and their fields, input values and enum values.

use crate::ast;
use crate::graphql_parse_error::GraphQLParseError;
use crate::graphql_parse_error_kind::GraphQLParseErrorKind;
use crate::graphql_parser::advanced;
use crate::graphql_parser::is_keyword;
use crate::graphql_parser::name_of;
use crate::graphql_parser::progressed;
use crate::graphql_parser::types::directives_are_const;
use crate::graphql_parser::types::directives_len;
use crate::graphql_parser::types::directives_written;
use crate::graphql_parser::types::type_len;
use crate::graphql_parser::types::type_written;
use crate::graphql_parser::types::lemma_directives_written_len;
use crate::graphql_parser::values::value_len;
use crate::graphql_parser::values::value_written;
use crate::graphql_parser::values::tokens_span;
use crate::graphql_parser::is_name_token;
use crate::graphql_parser::name_text;
use crate::graphql_parser::consumed;
use crate::graphql_parser::spanned;
use crate::graphql_parser::values::scalar_value;
use crate::graphql_parser::values::value_is_const;
use crate::graphql_parser::ConstContext;
use crate::graphql_parser::DelimiterContext;
use crate::graphql_parser::GraphQLParser;
use crate::graphql_source_span::GraphQLSourceSpan;
use crate::reserved_name_context::ReservedNameContext;
use crate::source_position::SourcePosition;
use crate::text::str_eq;
use crate::token::GraphQLToken;
use crate::token::GraphQLTokenKind;
use vstd::prelude::*;
use vstd::string::StringExecFns;

verus! {

/// Whether the input value definition `d` holds only constant values.
pub open spec fn input_value_def_is_const(d: ast::InputValueDefinition) -> bool {
    &&& match d.default_value {
        Some(v) => value_is_const(v),
        None => true,
    }
    &&& directives_are_const(d.directives@)
}

/// Whether all the input value definitions `ds` hold only constant values.
pub open spec fn input_value_defs_are_const(ds: Seq<ast::InputValueDefinition>) -> bool {
    forall|i: int| 0 <= i < ds.len() ==> input_value_def_is_const(#[trigger] ds[i])
}

/// Whether the field definition `f` holds only constant values.
pub open spec fn field_def_is_const(f: ast::FieldDefinition) -> bool {
    input_value_defs_are_const(f.arguments@) && directives_are_const(f.directives@)
}

/// Whether all the field definitions `fs` hold only constant values.
pub open spec fn field_defs_are_const(fs: Seq<ast::FieldDefinition>) -> bool {
    forall|i: int| 0 <= i < fs.len() ==> field_def_is_const(#[trigger] fs[i])
}

/// Whether all the enum value definitions `vs` hold only constant values.
pub open spec fn enum_value_defs_are_const(vs: Seq<ast::EnumValueDefinition>) -> bool {
    forall|i: int| 0 <= i < vs.len() ==> directives_are_const(#[trigger] vs[i].directives@)
}

/// Whether the type definition `t` holds only constant values.
pub open spec fn type_def_is_const(t: ast::TypeDefinition) -> bool {
    match t {
        ast::TypeDefinition::Enum(e) => directives_are_const(e.directives@) && enum_value_defs_are_const(
            e.values@,
        ),
        ast::TypeDefinition::InputObject(i) => directives_are_const(i.directives@)
            && input_value_defs_are_const(i.fields@),
        ast::TypeDefinition::Interface(i) => directives_are_const(i.directives@) && field_defs_are_const(
            i.fields@,
        ),
        ast::TypeDefinition::Object(o) => directives_are_const(o.directives@) && field_defs_are_const(
            o.fields@,
        ),
        ast::TypeDefinition::Scalar(s) => directives_are_const(s.directives@),
        ast::TypeDefinition::Union(u) => directives_are_const(u.directives@),
    }
}

/// The span of a type definition.
pub open spec fn type_def_span(t: ast::TypeDefinition) -> GraphQLSourceSpan {
    match t {
        ast::TypeDefinition::Enum(x) => x.span,
        ast::TypeDefinition::InputObject(x) => x.span,
        ast::TypeDefinition::Interface(x) => x.span,
        ast::TypeDefinition::Object(x) => x.span,
        ast::TypeDefinition::Scalar(x) => x.span,
        ast::TypeDefinition::Union(x) => x.span,
    }
}

/// The description of a type definition.
pub open spec fn type_def_description(t: ast::TypeDefinition) -> Option<ast::StringValue> {
    match t {
        ast::TypeDefinition::Enum(x) => x.description,
        ast::TypeDefinition::InputObject(x) => x.description,
        ast::TypeDefinition::Interface(x) => x.description,
        ast::TypeDefinition::Object(x) => x.description,
        ast::TypeDefinition::Scalar(x) => x.description,
        ast::TypeDefinition::Union(x) => x.description,
    }
}

/// The name of a type definition.
pub open spec fn type_def_name(t: ast::TypeDefinition) -> ast::Name {
    match t {
        ast::TypeDefinition::Enum(x) => x.name,
        ast::TypeDefinition::InputObject(x) => x.name,
        ast::TypeDefinition::Interface(x) => x.name,
        ast::TypeDefinition::Object(x) => x.name,
        ast::TypeDefinition::Scalar(x) => x.name,
        ast::TypeDefinition::Union(x) => x.name,
    }
}

/// `t` was parsed from the tokens `ts`, which start with its keyword and
/// name, and carries the description parsed before them.
pub open spec fn type_def_parsed(
    t: ast::TypeDefinition,
    ts: Seq<GraphQLToken>,
    description: Option<ast::StringValue>,
) -> bool {
    &&& ts.len() > 1
    &&& name_of(type_def_name(t), ts[1])
    &&& type_def_description(t) == description
    &&& type_def_span(t).start_inclusive == ts[0].span.start_inclusive
    &&& type_def_is_const(t)
}

/// The start of a definition that may be preceded by a description.
pub open spec fn described_start(d: Option<ast::StringValue>, name: ast::Name) -> SourcePosition {
    match d {
        Some(s) => s.span.start_inclusive,
        None => name.span.start_inclusive,
    }
}

/// The number of tokens an optional description is written with.
pub open spec fn desc_len(d: Option<ast::StringValue>) -> nat {
    if d is Some {
        1
    } else {
        0
    }
}

/// A description, if there is one, is the string token `t`.
pub open spec fn desc_written(d: Option<ast::StringValue>, t: GraphQLToken, retain: bool) -> bool {
    d matches Some(sv) ==> scalar_value(t, retain) == Some(ast::Value::String(sv))
}

/// The number of tokens an input value definition is written with.
pub open spec fn input_value_def_len(d: ast::InputValueDefinition) -> nat {
    desc_len(d.description) + 2 + type_len(d.value_type) + match d.default_value {
        Some(v) => 1 + value_len(v),
        None => 0,
    } + directives_len(d.directives@)
}

/// The input value definition `d` is written with exactly the tokens `ts`:
/// an optional description, its name, `:`, its type, an optional `=` and
/// default value, and its directives. Its span covers those tokens.
#[verifier::opaque]
pub open spec fn input_value_def_written(d: ast::InputValueDefinition, ts: Seq<GraphQLToken>, retain: bool) -> bool {
    let n = desc_len(d.description) as int;
    let t: int = n + 2 + type_len(d.value_type) as int;
    let e: int = t + match d.default_value {
        Some(v) => 1 + value_len(v) as int,
        None => 0int,
    };
    &&& ts.len() == input_value_def_len(d)
    &&& desc_written(d.description, ts[0], retain)
    &&& is_name_token(ts[n])
    &&& name_of(d.name, ts[n])
    &&& ts[n + 1].kind is Colon
    &&& type_written(d.value_type, ts.subrange(n + 2, t), retain)
    &&& (d.default_value matches Some(v) ==> ts[t].kind is Equals && value_written(v, ts.subrange(t + 1, e), retain))
    &&& directives_written(d.directives@, ts.subrange(e, ts.len() as int), retain)
    &&& d.span == tokens_span(ts[0], ts.last())
}

/// The number of tokens the input value definitions `ds` are written with.
pub open spec fn input_value_defs_len(ds: Seq<ast::InputValueDefinition>) -> nat
    decreases ds.len(),
{
    if ds.len() == 0 {
        0
    } else {
        input_value_defs_len(ds.drop_last()) + input_value_def_len(ds.last())
    }
}

/// The input value definitions `ds` are written with exactly the tokens
/// `ts`, one after the other.
pub open spec fn input_value_defs_written(ds: Seq<ast::InputValueDefinition>, ts: Seq<GraphQLToken>, retain: bool) -> bool
    decreases ds.len(),
{
    if ds.len() == 0 {
        ts.len() == 0
    } else {
        let k = ts.len() - input_value_def_len(ds.last());
        &&& 0 <= k
        &&& input_value_defs_written(ds.drop_last(), ts.subrange(0, k), retain)
        &&& input_value_def_written(ds.last(), ts.subrange(k, ts.len() as int), retain)
    }
}

/// The items `ds` are written with exactly the tokens `ts` between the
/// delimiters that start and end `ts`.
pub open spec fn delimited(ts: Seq<GraphQLToken>, open: GraphQLTokenKind, close: GraphQLTokenKind) -> bool {
    &&& ts.len() >= 2
    &&& ts[0].kind == open
    &&& ts.last().kind == close
}

/// The input value definitions `ds` are written with exactly the tokens
/// `ts`: `(`, the definitions and `)`.
pub open spec fn arg_defs_written(ds: Seq<ast::InputValueDefinition>, ts: Seq<GraphQLToken>, retain: bool) -> bool {
    &&& ts.len() >= 2
    &&& ts[0].kind is ParenOpen
    &&& ts.last().kind is ParenClose
    &&& input_value_defs_written(ds, ts.subrange(1, ts.len() - 1), retain)
}

/// The field definition `f` is written with exactly the tokens `ts`: an
/// optional description, its name, its parenthesized arguments (which may
/// be left out when there are none), `:`, its type and its directives. Its
/// span covers those tokens.
#[verifier::opaque]
pub open spec fn field_def_written(f: ast::FieldDefinition, ts: Seq<GraphQLToken>, retain: bool) -> bool {
    let n = desc_len(f.description) as int;
    let a: int = ts.len() - 1 - type_len(f.field_type) - directives_len(f.directives@);
    let t: int = a + 1 + type_len(f.field_type) as int;
    &&& n + 1 <= a
    &&& desc_written(f.description, ts[0], retain)
    &&& is_name_token(ts[n])
    &&& name_of(f.name, ts[n])
    &&& (a == n + 1 ==> f.arguments@.len() == 0)
    &&& (a > n + 1 ==> arg_defs_written(f.arguments@, ts.subrange(n + 1, a), retain))
    &&& ts[a].kind is Colon
    &&& type_written(f.field_type, ts.subrange(a + 1, t), retain)
    &&& directives_written(f.directives@, ts.subrange(t, ts.len() as int), retain)
    &&& f.span == tokens_span(ts[0], ts.last())
}

/// The field definitions `fs` are written with exactly the tokens `ts`, one
/// after the other.
pub open spec fn field_defs_written(fs: Seq<ast::FieldDefinition>, ts: Seq<GraphQLToken>, retain: bool) -> bool
    decreases fs.len(),
{
    if fs.len() == 0 {
        ts.len() == 0
    } else {
        exists|k: int|
            #![trigger ts.subrange(0, k)]
            0 <= k <= ts.len() && field_defs_written(fs.drop_last(), ts.subrange(0, k), retain) && field_def_written(
                fs.last(),
                ts.subrange(k, ts.len() as int),
                retain,
            )
    }
}

/// The number of tokens an enum value definition is written with.
pub open spec fn enum_value_def_len(v: ast::EnumValueDefinition) -> nat {
    desc_len(v.description) + 1 + directives_len(v.directives@)
}

/// The enum value definition `v` is written with exactly the tokens `ts`:
/// an optional description, its name and its directives.
#[verifier::opaque]
pub open spec fn enum_value_def_written(v: ast::EnumValueDefinition, ts: Seq<GraphQLToken>, retain: bool) -> bool {
    let n = desc_len(v.description) as int;
    &&& ts.len() == enum_value_def_len(v)
    &&& desc_written(v.description, ts[0], retain)
    &&& is_name_token(ts[n])
    &&& name_of(v.name, ts[n])
    &&& directives_written(v.directives@, ts.subrange(n + 1, ts.len() as int), retain)
    &&& v.span == tokens_span(ts[0], ts.last())
}

/// The number of tokens the enum value definitions `vs` are written with.
pub open spec fn enum_value_defs_len(vs: Seq<ast::EnumValueDefinition>) -> nat
    decreases vs.len(),
{
    if vs.len() == 0 {
        0
    } else {
        enum_value_defs_len(vs.drop_last()) + enum_value_def_len(vs.last())
    }
}

/// The enum value definitions `vs` are written with exactly the tokens
/// `ts`, one after the other.
pub open spec fn enum_value_defs_written(vs: Seq<ast::EnumValueDefinition>, ts: Seq<GraphQLToken>, retain: bool) -> bool
    decreases vs.len(),
{
    if vs.len() == 0 {
        ts.len() == 0
    } else {
        let k = ts.len() - enum_value_def_len(vs.last());
        &&& 0 <= k
        &&& enum_value_defs_written(vs.drop_last(), ts.subrange(0, k), retain)
        &&& enum_value_def_written(vs.last(), ts.subrange(k, ts.len() as int), retain)
    }
}

/// Assembles what parsing an input value definition established, piece
/// by piece.
#[verifier::spinoff_prover]
#[verifier::rlimit(100)]
proof fn lemma_input_value_def_written<'src>(
    d: ast::InputValueDefinition,
    s0: GraphQLParser<'src>,
    s1: GraphQLParser<'src>,
    s2: GraphQLParser<'src>,
    s3: GraphQLParser<'src>,
    s4: GraphQLParser<'src>,
    s5: GraphQLParser<'src>,
    s6: GraphQLParser<'src>,
    s7: GraphQLParser<'src>,
)
    requires
        s0.inv(),
        advanced(s0, s1),
        advanced(s1, s2),
        advanced(s2, s3),
        advanced(s3, s4),
        advanced(s4, s5),
        advanced(s5, s6),
        advanced(s6, s7),
        s1.pos() == s0.pos() + desc_len(d.description),
        d.description is Some ==> scalar_value(s0.rest()[0], s0.spec_config().retain_syntax) == Some(
            ast::Value::String(d.description->0),
        ),
        s2.pos() == s1.pos() + 1,
        s1.rest().len() > 0,
        is_name_token(s1.rest()[0]),
        name_of(d.name, s1.rest()[0]),
        s3.pos() == s2.pos() + 1,
        s2.rest().len() > 0,
        s2.rest()[0].kind is Colon,
        s4.pos() == s3.pos() + type_len(d.value_type),
        type_written(d.value_type, s3.rest().subrange(0, type_len(d.value_type) as int), s0.spec_config().retain_syntax),
        d.default_value matches Some(v) ==> s4.rest().len() > 0 && s4.rest()[0].kind is Equals && s5.pos() == s4.pos()
            + 1 && value_written(v, consumed(s5, s6), s0.spec_config().retain_syntax),
        d.default_value is None ==> s6.pos() == s4.pos() && s5.pos() == s4.pos(),
        directives_written(d.directives@, consumed(s6, s7), s0.spec_config().retain_syntax),
        d.span == spanned(described_start(d.description, d.name), s7.last_end()),
        d.description matches Some(sv) ==> sv.span == s0.rest()[0].span,
    ensures
        input_value_def_written(d, consumed(s0, s7), s0.spec_config().retain_syntax),
{
    let retain = s0.spec_config().retain_syntax;
    GraphQLParser::lemma_consumed(s0, s1, s2);
    GraphQLParser::lemma_consumed(s0, s2, s3);
    GraphQLParser::lemma_consumed(s0, s3, s4);
    GraphQLParser::lemma_consumed(s0, s4, s5);
    GraphQLParser::lemma_consumed(s0, s5, s6);
    GraphQLParser::lemma_consumed(s0, s6, s7);
    GraphQLParser::lemma_last_end(s0, s7);
    lemma_directives_written_len(d.directives@, consumed(s6, s7), retain);
    let ts = consumed(s0, s7);
    let n = desc_len(d.description) as int;
    let t: int = n + 2 + type_len(d.value_type) as int;
    assert(ts[0] == s0.rest()[0]);
    assert(ts[n] == consumed(s0, s2)[n]);
    assert(ts[n + 1] == consumed(s0, s3)[n + 1]);
    assert(ts.subrange(n + 2, t) == s3.rest().subrange(0, type_len(d.value_type) as int)) by {
        assert(ts.subrange(n + 2, t) =~= consumed(s0, s4).subrange(n + 2, t));
    }
    if d.default_value is Some {
        assert(ts[t] == consumed(s0, s5)[t]);
        assert(ts.subrange(t + 1, s6.pos() - s0.pos()) == consumed(s5, s6)) by {
            assert(ts.subrange(t + 1, s6.pos() - s0.pos()) =~= consumed(s0, s6).subrange(t + 1, s6.pos() - s0.pos()));
        }
    }
    assert(ts.subrange(s6.pos() - s0.pos(), ts.len() as int) == consumed(s6, s7));
    if d.description is Some {
        assert(d.span.start_inclusive == ts[0].span.start_inclusive);
    } else {
        assert(d.span.start_inclusive == ts[0].span.start_inclusive);
    }
    lemma_ivd_from_pieces(d, ts, retain, n, t, s6.pos() - s0.pos());
}

/// An input value definition whose pieces are written with consecutive
/// parts of `ts` is written with `ts`.
#[verifier::spinoff_prover]
proof fn lemma_ivd_from_pieces(d: ast::InputValueDefinition, ts: Seq<GraphQLToken>, retain: bool, n: int, t: int, e: int)
    requires
        n == desc_len(d.description) as int,
        t == n + 2 + type_len(d.value_type) as int,
        e == t + match d.default_value {
            Some(v) => 1 + value_len(v) as int,
            None => 0int,
        },
        ts.len() == e + directives_len(d.directives@),
        desc_written(d.description, ts[0], retain),
        is_name_token(ts[n]),
        name_of(d.name, ts[n]),
        ts[n + 1].kind is Colon,
        type_written(d.value_type, ts.subrange(n + 2, t), retain),
        d.default_value matches Some(v) ==> ts[t].kind is Equals && value_written(v, ts.subrange(t + 1, e), retain),
        directives_written(d.directives@, ts.subrange(e, ts.len() as int), retain),
        d.span == tokens_span(ts[0], ts.last()),
    ensures
        input_value_def_written(d, ts, retain),
{
    reveal(input_value_def_written);
}

/// Assembles what parsing an enum value definition established.
#[verifier::spinoff_prover]
#[verifier::rlimit(60)]
proof fn lemma_enum_value_def_written<'src>(
    v: ast::EnumValueDefinition,
    s0: GraphQLParser<'src>,
    s1: GraphQLParser<'src>,
    s2: GraphQLParser<'src>,
    s3: GraphQLParser<'src>,
    s4: GraphQLParser<'src>,
)
    requires
        s0.inv(),
        advanced(s0, s1),
        advanced(s1, s2),
        advanced(s2, s3),
        advanced(s3, s4),
        s1.pos() == s0.pos() + desc_len(v.description),
        v.description is Some ==> scalar_value(s0.rest()[0], s0.spec_config().retain_syntax) == Some(
            ast::Value::String(v.description->0),
        ),
        v.description matches Some(sv) ==> sv.span == s0.rest()[0].span,
        s2.pos() == s1.pos() + 1,
        s1.rest().len() > 0,
        is_name_token(s1.rest()[0]),
        name_of(v.name, s1.rest()[0]),
        s3.pos() == s2.pos(),
        directives_written(v.directives@, consumed(s3, s4), s0.spec_config().retain_syntax),
        v.span == spanned(described_start(v.description, v.name), s4.last_end()),
    ensures
        enum_value_def_written(v, consumed(s0, s4), s0.spec_config().retain_syntax),
{
    reveal(enum_value_def_written);
    let retain = s0.spec_config().retain_syntax;
    GraphQLParser::lemma_consumed(s0, s1, s2);
    GraphQLParser::lemma_consumed(s0, s2, s4);
    GraphQLParser::lemma_last_end(s0, s4);
    lemma_directives_written_len(v.directives@, consumed(s3, s4), retain);
    let ts = consumed(s0, s4);
    let n = desc_len(v.description) as int;
    assert(ts[0] == s0.rest()[0]);
    assert(ts[n] == consumed(s0, s2)[n]);
}

/// Assembles what parsing a field definition established.
#[verifier::spinoff_prover]
#[verifier::rlimit(100)]
proof fn lemma_field_def_written<'src>(
    f: ast::FieldDefinition,
    s0: GraphQLParser<'src>,
    s1: GraphQLParser<'src>,
    s2: GraphQLParser<'src>,
    s3: GraphQLParser<'src>,
    s4: GraphQLParser<'src>,
    s5: GraphQLParser<'src>,
    s6: GraphQLParser<'src>,
)
    requires
        s0.inv(),
        advanced(s0, s1),
        advanced(s1, s2),
        advanced(s2, s3),
        advanced(s3, s4),
        advanced(s4, s5),
        advanced(s5, s6),
        s1.pos() == s0.pos() + desc_len(f.description),
        f.description is Some ==> scalar_value(s0.rest()[0], s0.spec_config().retain_syntax) == Some(
            ast::Value::String(f.description->0),
        ),
        f.description matches Some(sv) ==> sv.span == s0.rest()[0].span,
        s2.pos() == s1.pos() + 1,
        s1.rest().len() > 0,
        is_name_token(s1.rest()[0]),
        name_of(f.name, s1.rest()[0]),
        s3.pos() == s2.pos() ==> f.arguments@.len() == 0,
        s3.pos() > s2.pos() ==> arg_defs_written(f.arguments@, consumed(s2, s3), s0.spec_config().retain_syntax),
        s4.pos() == s3.pos() + 1,
        s3.rest().len() > 0,
        s3.rest()[0].kind is Colon,
        s5.pos() == s4.pos() + type_len(f.field_type),
        type_written(f.field_type, s4.rest().subrange(0, type_len(f.field_type) as int), s0.spec_config().retain_syntax),
        directives_written(f.directives@, consumed(s5, s6), s0.spec_config().retain_syntax),
        f.span == spanned(described_start(f.description, f.name), s6.last_end()),
    ensures
        field_def_written(f, consumed(s0, s6), s0.spec_config().retain_syntax),
{
    let retain = s0.spec_config().retain_syntax;
    GraphQLParser::lemma_consumed(s0, s1, s2);
    GraphQLParser::lemma_consumed(s0, s2, s3);
    GraphQLParser::lemma_consumed(s0, s3, s4);
    GraphQLParser::lemma_consumed(s0, s4, s5);
    GraphQLParser::lemma_consumed(s0, s5, s6);
    GraphQLParser::lemma_last_end(s0, s6);
    lemma_directives_written_len(f.directives@, consumed(s5, s6), retain);
    let ts = consumed(s0, s6);
    let n = desc_len(f.description) as int;
    let a = s3.pos() - s0.pos();
    let t = s5.pos() - s0.pos();
    assert(ts[0] == s0.rest()[0]);
    assert(ts[n] == consumed(s0, s2)[n]);
    assert(ts[a] == consumed(s0, s4)[a]);
    assert(ts.subrange(n + 1, a) == consumed(s2, s3)) by {
        assert(ts.subrange(n + 1, a) =~= consumed(s0, s3).subrange(n + 1, a));
    }
    assert(ts.subrange(a + 1, t) == s4.rest().subrange(0, type_len(f.field_type) as int)) by {
        assert(ts.subrange(a + 1, t) =~= consumed(s0, s5).subrange(a + 1, t));
    }
    assert(ts.subrange(t, ts.len() as int) == consumed(s5, s6));
    assert(f.span.start_inclusive == ts[0].span.start_inclusive);
    lemma_field_def_from_pieces(f, ts, retain, n, a, t);
}

/// A field definition whose pieces are written with consecutive parts of
/// `ts` is written with `ts`.
#[verifier::spinoff_prover]
proof fn lemma_field_def_from_pieces(f: ast::FieldDefinition, ts: Seq<GraphQLToken>, retain: bool, n: int, a: int, t: int)
    requires
        n == desc_len(f.description) as int,
        n + 1 <= a,
        t == a + 1 + type_len(f.field_type) as int,
        ts.len() == t + directives_len(f.directives@),
        desc_written(f.description, ts[0], retain),
        is_name_token(ts[n]),
        name_of(f.name, ts[n]),
        a == n + 1 ==> f.arguments@.len() == 0,
        a > n + 1 ==> arg_defs_written(f.arguments@, ts.subrange(n + 1, a), retain),
        ts[a].kind is Colon,
        type_written(f.field_type, ts.subrange(a + 1, t), retain),
        directives_written(f.directives@, ts.subrange(t, ts.len() as int), retain),
        f.span == tokens_span(ts[0], ts.last()),
    ensures
        field_def_written(f, ts, retain),
{
    reveal(field_def_written);
}

/// The input value definitions `ds` are written with exactly the tokens
/// `ts`: `{`, the definitions and `}`.
pub open spec fn braced_ivds_written(ds: Seq<ast::InputValueDefinition>, ts: Seq<GraphQLToken>, retain: bool) -> bool {
    &&& ts.len() >= 2
    &&& ts[0].kind is CurlyBraceOpen
    &&& ts.last().kind is CurlyBraceClose
    &&& input_value_defs_written(ds, ts.subrange(1, ts.len() - 1), retain)
}

/// The field definitions `fs` are written with exactly the tokens `ts`:
/// `{`, the definitions and `}`.
pub open spec fn braced_field_defs_written(fs: Seq<ast::FieldDefinition>, ts: Seq<GraphQLToken>, retain: bool) -> bool {
    &&& ts.len() >= 2
    &&& ts[0].kind is CurlyBraceOpen
    &&& ts.last().kind is CurlyBraceClose
    &&& field_defs_written(fs, ts.subrange(1, ts.len() - 1), retain)
}

/// The enum value definitions `vs` are written with exactly the tokens
/// `ts`: `{`, the definitions and `}`.
pub open spec fn braced_enum_value_defs_written(vs: Seq<ast::EnumValueDefinition>, ts: Seq<GraphQLToken>, retain: bool) -> bool {
    &&& ts.len() >= 2
    &&& ts[0].kind is CurlyBraceOpen
    &&& ts.last().kind is CurlyBraceClose
    &&& enum_value_defs_written(vs, ts.subrange(1, ts.len() - 1), retain)
}

/// An input value definition written with some tokens takes as many
/// tokens as its length.
proof fn lemma_ivd_written_len(d: ast::InputValueDefinition, ts: Seq<GraphQLToken>, retain: bool)
    requires
        input_value_def_written(d, ts, retain),
    ensures
        ts.len() == input_value_def_len(d),
{
    reveal(input_value_def_written);
}

/// An enum value definition written with some tokens takes as many tokens
/// as its length.
proof fn lemma_evd_written_len(v: ast::EnumValueDefinition, ts: Seq<GraphQLToken>, retain: bool)
    requires
        enum_value_def_written(v, ts, retain),
    ensures
        ts.len() == enum_value_def_len(v),
{
    reveal(enum_value_def_written);
}

/// One more input value definition parsed after the delimiter at `base`
/// extends the written definitions.
#[verifier::spinoff_prover]
proof fn lemma_ivds_step<'src>(
    xs0: Seq<ast::InputValueDefinition>,
    x: ast::InputValueDefinition,
    base: GraphQLParser<'src>,
    before: GraphQLParser<'src>,
    after: GraphQLParser<'src>,
)
    requires
        base.inv(),
        advanced(base, before),
        advanced(before, after),
        before.pos() >= base.pos() + 1,
        input_value_defs_written(xs0, base.rest().subrange(1, before.pos() - base.pos()), base.spec_config().retain_syntax),
        input_value_def_written(x, consumed(before, after), base.spec_config().retain_syntax),
    ensures
        input_value_defs_written(xs0.push(x), base.rest().subrange(1, after.pos() - base.pos()), base.spec_config().retain_syntax),
{
    GraphQLParser::lemma_advanced(base, before);
    GraphQLParser::lemma_advanced(base, after);
    lemma_ivd_written_len(x, consumed(before, after), base.spec_config().retain_syntax);
    let ts = base.rest().subrange(1, after.pos() - base.pos());
    let k = before.pos() - base.pos() - 1;
    assert(xs0.push(x).drop_last() =~= xs0);
    assert(ts.subrange(0, k) =~= base.rest().subrange(1, before.pos() - base.pos()));
    assert(ts.subrange(k, ts.len() as int) =~= consumed(before, after));
}

/// One more enum value definition parsed after the `{` at `base` extends
/// the written definitions.
#[verifier::spinoff_prover]
proof fn lemma_enum_value_defs_step<'src>(
    xs0: Seq<ast::EnumValueDefinition>,
    x: ast::EnumValueDefinition,
    base: GraphQLParser<'src>,
    before: GraphQLParser<'src>,
    after: GraphQLParser<'src>,
)
    requires
        base.inv(),
        advanced(base, before),
        advanced(before, after),
        before.pos() >= base.pos() + 1,
        enum_value_defs_written(xs0, base.rest().subrange(1, before.pos() - base.pos()), base.spec_config().retain_syntax),
        enum_value_def_written(x, consumed(before, after), base.spec_config().retain_syntax),
    ensures
        enum_value_defs_written(xs0.push(x), base.rest().subrange(1, after.pos() - base.pos()), base.spec_config().retain_syntax),
{
    GraphQLParser::lemma_advanced(base, before);
    GraphQLParser::lemma_advanced(base, after);
    lemma_evd_written_len(x, consumed(before, after), base.spec_config().retain_syntax);
    let ts = base.rest().subrange(1, after.pos() - base.pos());
    let k = before.pos() - base.pos() - 1;
    assert(xs0.push(x).drop_last() =~= xs0);
    assert(ts.subrange(0, k) =~= base.rest().subrange(1, before.pos() - base.pos()));
    assert(ts.subrange(k, ts.len() as int) =~= consumed(before, after));
}

/// One more field definition parsed after the `{` at `base` extends the
/// written definitions.
#[verifier::spinoff_prover]
proof fn lemma_field_defs_step<'src>(
    xs0: Seq<ast::FieldDefinition>,
    x: ast::FieldDefinition,
    base: GraphQLParser<'src>,
    before: GraphQLParser<'src>,
    after: GraphQLParser<'src>,
)
    requires
        base.inv(),
        advanced(base, before),
        advanced(before, after),
        before.pos() >= base.pos() + 1,
        field_defs_written(xs0, base.rest().subrange(1, before.pos() - base.pos()), base.spec_config().retain_syntax),
        field_def_written(x, consumed(before, after), base.spec_config().retain_syntax),
    ensures
        field_defs_written(xs0.push(x), base.rest().subrange(1, after.pos() - base.pos()), base.spec_config().retain_syntax),
{
    GraphQLParser::lemma_advanced(base, before);
    GraphQLParser::lemma_advanced(base, after);
    let ts = base.rest().subrange(1, after.pos() - base.pos());
    let k = before.pos() - base.pos() - 1;
    assert(xs0.push(x).drop_last() =~= xs0);
    assert(ts.subrange(0, k) =~= base.rest().subrange(1, before.pos() - base.pos()));
    assert(ts.subrange(k, ts.len() as int) =~= consumed(before, after));
}

/// The names `names` are written with exactly the tokens `ts`: an optional
/// leading separator, then the names with the separator `sep` between
/// them. There is at least one name.
pub open spec fn separated_names_written(names: Seq<ast::Name>, ts: Seq<GraphQLToken>, sep: GraphQLTokenKind) -> bool {
    let lead = ts.len() - (2 * names.len() - 1);
    &&& names.len() > 0
    &&& (lead == 0 || lead == 1)
    &&& (lead == 1 ==> ts[0].kind == sep)
    &&& forall|k: int| 0 <= k < names.len() ==> is_name_token(#[trigger] ts[lead + 2 * k]) && name_of(names[k], ts[lead + 2 * k])
    &&& forall|k: int| 1 <= k < names.len() ==> (#[trigger] ts[lead + 2 * k - 1]).kind == sep
}

/// The interfaces `names` are written with exactly the tokens `ts`:
/// nothing when there are none, else `implements` and the names separated
/// by `&`.
pub open spec fn implements_written(names: Seq<ast::Name>, ts: Seq<GraphQLToken>) -> bool {
    if names.len() == 0 {
        ts.len() == 0
    } else {
        ts.len() > 0 && is_keyword(ts[0], "implements"@) && separated_names_written(
            names,
            ts.subrange(1, ts.len() as int),
            GraphQLTokenKind::Ampersand,
        )
    }
}

/// The union members `names` are written with exactly the tokens `ts`:
/// nothing when there are none, else `=` and the names separated by `|`.
pub open spec fn members_written(names: Seq<ast::Name>, ts: Seq<GraphQLToken>) -> bool {
    if names.len() == 0 {
        ts.len() == 0
    } else {
        ts.len() > 0 && ts[0].kind is Equals && separated_names_written(
            names,
            ts.subrange(1, ts.len() as int),
            GraphQLTokenKind::Pipe,
        )
    }
}

/// The type definition `t`, after its description, is written with exactly
/// the tokens `ts`: its keyword, its name, then what its kind has, each
/// optional braced list possibly empty or left out. Its span covers those
/// tokens.
#[verifier::opaque]
pub open spec fn type_def_written(t: ast::TypeDefinition, ts: Seq<GraphQLToken>, retain: bool) -> bool {
    &&& ts.len() >= 2
    &&& is_name_token(ts[1])
    &&& name_of(type_def_name(t), ts[1])
    &&& type_def_span(t) == tokens_span(ts[0], ts.last())
    &&& match t {
        ast::TypeDefinition::Scalar(x) => is_keyword(ts[0], "scalar"@) && directives_written(
            x.directives@,
            ts.subrange(2, ts.len() as int),
            retain,
        ),
        ast::TypeDefinition::Object(x) => is_keyword(ts[0], "type"@) && exists|a: int, d: int|
            #![trigger ts.subrange(2, a), ts.subrange(a, d)]
            2 <= a <= d <= ts.len() && implements_written(x.implements@, ts.subrange(2, a)) && directives_written(
                x.directives@,
                ts.subrange(a, d),
                retain,
            ) && (d == ts.len() ==> x.fields@.len() == 0) && (d < ts.len() ==> braced_field_defs_written(
                x.fields@,
                ts.subrange(d, ts.len() as int),
                retain,
            )),
        ast::TypeDefinition::Interface(x) => is_keyword(ts[0], "interface"@) && exists|a: int, d: int|
            #![trigger ts.subrange(2, a), ts.subrange(a, d)]
            2 <= a <= d <= ts.len() && implements_written(x.implements@, ts.subrange(2, a)) && directives_written(
                x.directives@,
                ts.subrange(a, d),
                retain,
            ) && (d == ts.len() ==> x.fields@.len() == 0) && (d < ts.len() ==> braced_field_defs_written(
                x.fields@,
                ts.subrange(d, ts.len() as int),
                retain,
            )),
        ast::TypeDefinition::Union(x) => is_keyword(ts[0], "union"@) && {
            let d: int = 2 + directives_len(x.directives@) as int;
            &&& d <= ts.len()
            &&& directives_written(x.directives@, ts.subrange(2, d), retain)
            &&& members_written(x.members@, ts.subrange(d, ts.len() as int))
        },
        ast::TypeDefinition::Enum(x) => is_keyword(ts[0], "enum"@) && {
            let d: int = 2 + directives_len(x.directives@) as int;
            &&& d <= ts.len()
            &&& directives_written(x.directives@, ts.subrange(2, d), retain)
            &&& (d == ts.len() ==> x.values@.len() == 0)
            &&& (d < ts.len() ==> braced_enum_value_defs_written(x.values@, ts.subrange(d, ts.len() as int), retain))
        },
        ast::TypeDefinition::InputObject(x) => is_keyword(ts[0], "input"@) && {
            let d: int = 2 + directives_len(x.directives@) as int;
            &&& d <= ts.len()
            &&& directives_written(x.directives@, ts.subrange(2, d), retain)
            &&& (d == ts.len() ==> x.fields@.len() == 0)
            &&& (d < ts.len() ==> braced_ivds_written(x.fields@, ts.subrange(d, ts.len() as int), retain))
        },
    }
}

/// The first names of a separated list: `names` written from the start
/// of `ts` after `lead` leading separators, separated by `sep`.
pub open spec fn separated_prefix_written(names: Seq<ast::Name>, ts: Seq<GraphQLToken>, lead: int, sep: GraphQLTokenKind) -> bool {
    &&& (lead == 0 || lead == 1)
    &&& lead + 2 * names.len() - 1 <= ts.len()
    &&& (lead == 1 ==> ts[0].kind == sep)
    &&& forall|k: int| 0 <= k < names.len() ==> is_name_token(#[trigger] ts[lead + 2 * k]) && name_of(names[k], ts[lead + 2 * k])
    &&& forall|k: int| 1 <= k < names.len() ==> (#[trigger] ts[lead + 2 * k - 1]).kind == sep
}

/// The names written at the start of the unconsumed tokens of `a` are
/// written with the tokens consumed up to `b`.
proof fn lemma_separated_names<'src>(
    names: Seq<ast::Name>,
    a: GraphQLParser<'src>,
    b: GraphQLParser<'src>,
    lead: int,
    sep: GraphQLTokenKind,
)
    requires
        a.inv(),
        advanced(a, b),
        names.len() > 0,
        b.pos() - a.pos() == lead + 2 * names.len() - 1,
        separated_prefix_written(names, a.rest(), lead, sep),
    ensures
        separated_names_written(names, consumed(a, b), sep),
{
    let ts = consumed(a, b);
    assert forall|k: int| 0 <= k < names.len() implies is_name_token(#[trigger] ts[lead + 2 * k]) && name_of(
        names[k],
        ts[lead + 2 * k],
    ) by {
        assert(ts[lead + 2 * k] == a.rest()[lead + 2 * k]);
    }
    assert forall|k: int| 1 <= k < names.len() implies (#[trigger] ts[lead + 2 * k - 1]).kind == sep by {
        assert(ts[lead + 2 * k - 1] == a.rest()[lead + 2 * k - 1]);
    }
    if lead == 1 {
        assert(ts[0] == a.rest()[0]);
    }
}

/// One more root operation type parsed from `before` extends the written
/// ones.
#[verifier::spinoff_prover]
#[verifier::rlimit(60)]
pub(crate) proof fn lemma_root_ops_step<'src>(
    ops0: Seq<ast::RootOperationTypeDefinition>,
    op: ast::RootOperationTypeDefinition,
    base: GraphQLParser<'src>,
    before: GraphQLParser<'src>,
    s1: GraphQLParser<'src>,
    s2: GraphQLParser<'src>,
    after: GraphQLParser<'src>,
)
    requires
        base.inv(),
        advanced(base, before),
        advanced(before, s1),
        advanced(s1, s2),
        advanced(s2, after),
        root_ops_written(ops0, consumed(base, before)),
        s1.pos() == before.pos() + 1,
        before.rest().len() > 0,
        is_name_token(before.rest()[0]),
        root_operation_kind(name_text(before.rest()[0].kind)) == Some(op.operation_kind),
        s2.pos() == s1.pos() + 1,
        s1.rest().len() > 0,
        s1.rest()[0].kind is Colon,
        after.pos() == s2.pos() + 1,
        s2.rest().len() > 0,
        is_name_token(s2.rest()[0]),
        name_of(op.named_type, s2.rest()[0]),
        op.span == tokens_span(before.rest()[0], s2.rest()[0]),
    ensures
        root_ops_written(ops0.push(op), consumed(base, after)),
{
    GraphQLParser::lemma_consumed(base, before, s1);
    GraphQLParser::lemma_consumed(base, s1, s2);
    GraphQLParser::lemma_consumed(base, s2, after);
    GraphQLParser::lemma_consumed(base, before, after);
    let ts = consumed(base, after);
    let n = ops0.len() as int;
    let piece = ts.subrange(3 * n, 3 * n + 3);
    assert(piece[0] == before.rest()[0]);
    assert(piece[1] == s1.rest()[0]);
    assert(piece[2] == s2.rest()[0]);
    assert forall|k: int| 0 <= k < n + 1 implies root_op_written(#[trigger] ops0.push(op)[k], ts.subrange(3 * k, 3 * k + 3)) by {
        if k < n {
            assert(ts.subrange(3 * k, 3 * k + 3) =~= consumed(base, before).subrange(3 * k, 3 * k + 3));
            assert(ops0.push(op)[k] == ops0[k]);
        }
    }
}

/// Assembles what parsing a schema definition established.
#[verifier::spinoff_prover]
#[verifier::rlimit(80)]
proof fn lemma_schema_def_written<'src>(
    sd: ast::SchemaDefinition,
    s0: GraphQLParser<'src>,
    s1: GraphQLParser<'src>,
    s2: GraphQLParser<'src>,
    s3: GraphQLParser<'src>,
    s4: GraphQLParser<'src>,
    s5: GraphQLParser<'src>,
)
    requires
        s0.inv(),
        advanced(s0, s1),
        advanced(s1, s2),
        advanced(s2, s3),
        advanced(s3, s4),
        advanced(s4, s5),
        s0.rest().len() > 0,
        is_keyword(s0.rest()[0], "schema"@),
        s1.pos() == s0.pos() + 1,
        directives_written(sd.directives@, consumed(s1, s2), s0.spec_config().retain_syntax),
        s3.pos() == s2.pos() + 1,
        s2.rest().len() > 0,
        s2.rest()[0].kind is CurlyBraceOpen,
        root_ops_written(sd.root_operations@, consumed(s3, s4)),
        s5.pos() == s4.pos() + 1,
        s4.rest().len() > 0,
        s4.rest()[0].kind is CurlyBraceClose,
        sd.span == spanned(s0.rest()[0].span.start_inclusive, s5.last_end()),
    ensures
        schema_def_written(sd, consumed(s0, s5), s0.spec_config().retain_syntax),
{
    GraphQLParser::lemma_consumed(s0, s1, s2);
    GraphQLParser::lemma_consumed(s0, s2, s3);
    GraphQLParser::lemma_consumed(s0, s3, s4);
    GraphQLParser::lemma_consumed(s0, s4, s5);
    GraphQLParser::lemma_last_end(s0, s5);
    lemma_directives_written_len(sd.directives@, consumed(s1, s2), s0.spec_config().retain_syntax);
    let ts = consumed(s0, s5);
    let d = s2.pos() - s0.pos();
    assert(ts[0] == s0.rest()[0]);
    assert(ts[d] == consumed(s0, s3)[d]);
    assert(ts.last() == s4.rest()[0]);
    assert(ts.subrange(1, d) == consumed(s1, s2)) by {
        assert(ts.subrange(1, d) =~= consumed(s0, s2).subrange(1, d));
    }
    assert(ts.subrange(d + 1, ts.len() - 1) == consumed(s3, s4)) by {
        assert(ts.subrange(d + 1, ts.len() - 1) =~= consumed(s0, s4).subrange(d + 1, ts.len() - 1));
    }
}

/// The facts that parsing the keyword and name of a type definition
/// establishes, from `s0` over `s1` to `s2`.
pub open spec fn type_def_head<'src>(
    t: ast::TypeDefinition,
    s0: GraphQLParser<'src>,
    s1: GraphQLParser<'src>,
    s2: GraphQLParser<'src>,
    kw: Seq<char>,
) -> bool {
    &&& s0.rest().len() > 0
    &&& is_keyword(s0.rest()[0], kw)
    &&& s1.pos() == s0.pos() + 1
    &&& s1.rest().len() > 0
    &&& is_name_token(s1.rest()[0])
    &&& name_of(type_def_name(t), s1.rest()[0])
    &&& s2.pos() == s1.pos() + 1
}

/// The keyword of each kind of type definition.
pub open spec fn type_def_keyword(t: ast::TypeDefinition) -> Seq<char> {
    match t {
        ast::TypeDefinition::Scalar(_) => "scalar"@,
        ast::TypeDefinition::Object(_) => "type"@,
        ast::TypeDefinition::Interface(_) => "interface"@,
        ast::TypeDefinition::Union(_) => "union"@,
        ast::TypeDefinition::Enum(_) => "enum"@,
        ast::TypeDefinition::InputObject(_) => "input"@,
    }
}

/// The directives of a type definition.
pub open spec fn type_def_directives(t: ast::TypeDefinition) -> Seq<ast::DirectiveAnnotation> {
    match t {
        ast::TypeDefinition::Enum(x) => x.directives@,
        ast::TypeDefinition::InputObject(x) => x.directives@,
        ast::TypeDefinition::Interface(x) => x.directives@,
        ast::TypeDefinition::Object(x) => x.directives@,
        ast::TypeDefinition::Scalar(x) => x.directives@,
        ast::TypeDefinition::Union(x) => x.directives@,
    }
}

/// What follows the directives of a type definition is written with
/// exactly the tokens `ts`.
pub open spec fn type_def_tail_written(t: ast::TypeDefinition, ts: Seq<GraphQLToken>, retain: bool) -> bool {
    match t {
        ast::TypeDefinition::Scalar(_) => ts.len() == 0,
        ast::TypeDefinition::Object(x) => (ts.len() == 0 && x.fields@.len() == 0) || braced_field_defs_written(
            x.fields@,
            ts,
            retain,
        ),
        ast::TypeDefinition::Interface(x) => (ts.len() == 0 && x.fields@.len() == 0) || braced_field_defs_written(
            x.fields@,
            ts,
            retain,
        ),
        ast::TypeDefinition::Union(x) => members_written(x.members@, ts),
        ast::TypeDefinition::Enum(x) => (ts.len() == 0 && x.values@.len() == 0) || braced_enum_value_defs_written(
            x.values@,
            ts,
            retain,
        ),
        ast::TypeDefinition::InputObject(x) => (ts.len() == 0 && x.fields@.len() == 0) || braced_ivds_written(
            x.fields@,
            ts,
            retain,
        ),
    }
}

/// The interfaces of a type definition (none for kinds without them).
pub open spec fn type_def_implements(t: ast::TypeDefinition) -> Seq<ast::Name> {
    match t {
        ast::TypeDefinition::Object(x) => x.implements@,
        ast::TypeDefinition::Interface(x) => x.implements@,
        _ => Seq::empty(),
    }
}

/// A type definition whose pieces are written with consecutive parts of
/// `ts` is written with `ts`.
#[verifier::spinoff_prover]
#[verifier::rlimit(60)]
proof fn lemma_type_def_from_pieces(t: ast::TypeDefinition, ts: Seq<GraphQLToken>, retain: bool, a: int, d: int)
    requires
        2 <= a <= d <= ts.len(),
        is_keyword(ts[0], type_def_keyword(t)),
        is_name_token(ts[1]),
        name_of(type_def_name(t), ts[1]),
        type_def_span(t) == tokens_span(ts[0], ts.last()),
        implements_written(type_def_implements(t), ts.subrange(2, a)),
        !(t is Object || t is Interface) ==> a == 2,
        directives_written(type_def_directives(t), ts.subrange(a, d), retain),
        type_def_tail_written(t, ts.subrange(d, ts.len() as int), retain),
    ensures
        type_def_written(t, ts, retain),
{
    reveal(type_def_written);
    lemma_directives_written_len(type_def_directives(t), ts.subrange(a, d), retain);
    match t {
        ast::TypeDefinition::Object(x) => {
            assert(ts.subrange(2, a) == ts.subrange(2, a));
        },
        ast::TypeDefinition::Interface(x) => {
            assert(ts.subrange(2, a) == ts.subrange(2, a));
        },
        _ => {},
    }
}

/// Assembles what parsing a type definition after its description
/// established, piece by piece: keyword and name up to `s2`, interfaces up
/// to `s3`, directives up to `s4`, and the rest up to `s5`.
#[verifier::spinoff_prover]
#[verifier::rlimit(80)]
pub(crate) proof fn lemma_type_def_assembled<'src>(
    t: ast::TypeDefinition,
    s0: GraphQLParser<'src>,
    s1: GraphQLParser<'src>,
    s2: GraphQLParser<'src>,
    s3: GraphQLParser<'src>,
    s4: GraphQLParser<'src>,
    s5: GraphQLParser<'src>,
)
    requires
        s0.inv(),
        advanced(s0, s1),
        advanced(s1, s2),
        advanced(s2, s3),
        advanced(s3, s4),
        advanced(s4, s5),
        type_def_head(t, s0, s1, s2, type_def_keyword(t)),
        implements_written(type_def_implements(t), consumed(s2, s3)),
        !(t is Object || t is Interface) ==> s3.pos() == s2.pos(),
        directives_written(type_def_directives(t), consumed(s3, s4), s0.spec_config().retain_syntax),
        type_def_tail_written(t, consumed(s4, s5), s0.spec_config().retain_syntax),
        type_def_span(t) == spanned(s0.rest()[0].span.start_inclusive, s5.last_end()),
    ensures
        type_def_written(t, consumed(s0, s5), s0.spec_config().retain_syntax),
{
    GraphQLParser::lemma_consumed(s0, s1, s2);
    GraphQLParser::lemma_consumed(s0, s2, s3);
    GraphQLParser::lemma_consumed(s0, s3, s4);
    GraphQLParser::lemma_consumed(s0, s4, s5);
    GraphQLParser::lemma_last_end(s0, s5);
    let ts = consumed(s0, s5);
    let a = s3.pos() - s0.pos();
    let d = s4.pos() - s0.pos();
    assert(ts[0] == s0.rest()[0]);
    assert(ts[1] == consumed(s0, s2)[1]);
    assert(ts.subrange(2, a) == consumed(s2, s3)) by {
        assert(ts.subrange(2, a) =~= consumed(s0, s3).subrange(2, a));
    }
    assert(ts.subrange(a, d) == consumed(s3, s4)) by {
        assert(ts.subrange(a, d) =~= consumed(s0, s4).subrange(a, d));
    }
    lemma_type_def_from_pieces(t, ts, s0.spec_config().retain_syntax, a, d);
}

/// The operation kind that a root operation name denotes, if any.
pub open spec fn root_operation_kind(s: Seq<char>) -> Option<ast::OperationKind> {
    if s == "query"@ {
        Some(ast::OperationKind::Query)
    } else if s == "mutation"@ {
        Some(ast::OperationKind::Mutation)
    } else if s == "subscription"@ {
        Some(ast::OperationKind::Subscription)
    } else {
        None
    }
}

/// The root operation type `op` is written with exactly the three tokens
/// `ts`: an operation name, `:` and a type name.
pub open spec fn root_op_written(op: ast::RootOperationTypeDefinition, ts: Seq<GraphQLToken>) -> bool {
    &&& ts.len() == 3
    &&& is_name_token(ts[0])
    &&& root_operation_kind(name_text(ts[0].kind)) == Some(op.operation_kind)
    &&& ts[1].kind is Colon
    &&& is_name_token(ts[2])
    &&& name_of(op.named_type, ts[2])
    &&& op.span == tokens_span(ts[0], ts[2])
}

/// The root operation types `ops` are written with exactly the tokens `ts`,
/// one after the other.
pub open spec fn root_ops_written(ops: Seq<ast::RootOperationTypeDefinition>, ts: Seq<GraphQLToken>) -> bool {
    &&& ts.len() == 3 * ops.len()
    &&& forall|k: int| 0 <= k < ops.len() ==> root_op_written(#[trigger] ops[k], ts.subrange(3 * k, 3 * k + 3))
}

/// The schema definition `sd`, after its description, is written with
/// exactly the tokens `ts`: `schema`, its directives, `{`, its root
/// operation types and `}`. Its span covers those tokens.
pub open spec fn schema_def_written(sd: ast::SchemaDefinition, ts: Seq<GraphQLToken>, retain: bool) -> bool {
    let d: int = 1 + directives_len(sd.directives@) as int;
    &&& d + 2 <= ts.len()
    &&& is_keyword(ts[0], "schema"@)
    &&& directives_written(sd.directives@, ts.subrange(1, d), retain)
    &&& ts[d].kind is CurlyBraceOpen
    &&& ts.last().kind is CurlyBraceClose
    &&& root_ops_written(sd.root_operations@, ts.subrange(d + 1, ts.len() - 1))
    &&& sd.span == tokens_span(ts[0], ts.last())
}

impl<'src> GraphQLParser<'src> {
    /// Parses an optional description: a string token.
    pub(crate) fn parse_ast_description(&mut self) -> (r: Option<ast::StringValue>)
        requires
            old(self).inv(),
        ensures
            advanced(*old(self), *final(self)),
            final(self).spec_errors() == old(self).spec_errors(),
            r is Some <==> old(self).rest().len() > 0 && old(self).rest()[0].kind is StringValue,
            r is Some ==> final(self).pos() == old(self).pos() + 1 && scalar_value(
                old(self).rest()[0],
                old(self).spec_config().retain_syntax,
            ) == Some(ast::Value::String(r->0)),
            r is None ==> final(self).pos() == old(self).pos(),
    {
        if self.peek_is(&GraphQLTokenKind::StringValue { value: String::new(), is_block: false }) {
            let retain = self.retain_syntax();
            let t = self.take_token();
            let span = t.span.duplicate();
            match &t.kind {
                GraphQLTokenKind::StringValue { value, is_block } => {
                    let value = value.clone();
                    let is_block = *is_block;
                    let syntax = if retain {
                        Some(ast::StringValueSyntax { token: t })
                    } else {
                        None
                    };
                    Some(ast::StringValue { is_block, value, span, syntax })
                },
                _ => {
                    proof {
                        assert(false);
                    }
                    None
                },
            }
        } else {
            None
        }
    }

    /// Parses root operation types `name: Type` up to `}` (both schema
    /// definitions and schema extensions use it); an unknown operation name
    /// is reported and skipped.
    pub(crate) fn parse_root_operations(&mut self) -> (r: Result<Vec<ast::RootOperationTypeDefinition>, ()>)
        requires
            old(self).inv(),
        ensures
            advanced(*old(self), *final(self)),
            r is Err ==> final(self).spec_errors().len() > old(self).spec_errors().len(),
            r is Ok ==> final(self).rest().len() > 0 && final(self).rest()[0].kind is CurlyBraceClose,
            r is Ok && final(self).spec_errors().len() == old(self).spec_errors().len() ==> root_ops_written(
                r->Ok_0@,
                consumed(*old(self), *final(self)),
            ),
    {
        proof {
            reveal_strlit("query");
            reveal_strlit("mutation");
            reveal_strlit("subscription");
        }
        let mut ops: Vec<ast::RootOperationTypeDefinition> = Vec::new();
        proof {
            assert(consumed(*old(self), *self) =~= Seq::<GraphQLToken>::empty());
        }
        loop
            invariant
                advanced(*old(self), *self),
                old(self).inv(),
                self.spec_errors().len() == old(self).spec_errors().len() ==> root_ops_written(
                    ops@,
                    consumed(*old(self), *self),
                ),
            ensures
                self.rest().len() > 0 && self.rest()[0].kind is CurlyBraceClose,
            decreases self.rest().len(),
        {
            if self.peek_is(&GraphQLTokenKind::CurlyBraceClose) {
                break;
            }
            if self.is_at_end() {
                self.record_unclosed("{", true);
                return Err(());
            }
            let ghost before = *self;
            let op_name = self.expect_ast_name()?;
            let kind = if str_eq(op_name.value.as_str(), "query") {
                ast::OperationKind::Query
            } else if str_eq(op_name.value.as_str(), "mutation") {
                ast::OperationKind::Mutation
            } else if str_eq(op_name.value.as_str(), "subscription") {
                ast::OperationKind::Subscription
            } else {
                let mut message = "unknown operation type `".to_owned();
                message.append(op_name.value.as_str());
                message.append("`; expected `query`, `mutation`, or `subscription`");
                self.record_error(
                    GraphQLParseError::new(
                        message,
                        GraphQLParseErrorKind::InvalidSyntax,
                        op_name.span.to_source_span(),
                    ),
                );
                continue ;
            };
            let ghost s1 = *self;
            self.expect(&GraphQLTokenKind::Colon)?;
            let ghost s2 = *self;
            let named_type = self.expect_ast_name()?;
            let span = GraphQLSourceSpan::new(op_name.span.start_inclusive, named_type.span.end_exclusive);
            let op = ast::RootOperationTypeDefinition { named_type, operation_kind: kind, span };
            let ghost ops0 = ops@;
            ops.push(op);
            proof {
                if self.spec_errors().len() == old(self).spec_errors().len() {
                    lemma_root_ops_step(ops0, op, *old(self), before, s1, s2, *self);
                    assert(ops@ == ops0.push(op));
                }
            }
        }
        Ok(ops)
    }

    /// Parses a schema definition `schema @directives { query: Query ... }`.
    pub(crate) fn parse_schema_definition(&mut self, description: Option<ast::StringValue>) -> (r: Result<
        ast::SchemaDefinition,
        (),
    >)
        requires
            old(self).inv(),
        ensures
            old(self).rest().len() > 0 && is_keyword(old(self).rest()[0], "schema"@) ==> final(self).pos() > old(self).pos(),
            advanced(*old(self), *final(self)),
            progressed(*old(self), *final(self), r),
            r is Ok ==> old(self).rest().len() > 0 && is_keyword(old(self).rest()[0], "schema"@)
                && r->Ok_0.description == description && r->Ok_0.span.start_inclusive == old(self).rest()[0].span.start_inclusive && directives_are_const(r->Ok_0.directives@),
            r is Ok && final(self).spec_errors().len() == old(self).spec_errors().len() ==> schema_def_written(
                r->Ok_0,
                consumed(*old(self), *final(self)),
                old(self).spec_config().retain_syntax,
            ),
    {
        let ghost s0 = *self;
        let keyword = self.expect_keyword("schema")?;
        let ghost s1 = *self;
        let directives = self.parse_const_directive_annotations()?;
        let ghost s2 = *self;
        let open = self.expect(&GraphQLTokenKind::CurlyBraceOpen)?;
        self.push_delimiter(open.span.duplicate(), DelimiterContext::SchemaDefinition);
        let ghost s3 = *self;
        let root_operations = self.parse_root_operations()?;
        let ghost s4 = *self;
        self.take_token();
        self.pop_delimiter();
        let span = self.span_from(keyword.span.start_inclusive);
        let sd = ast::SchemaDefinition { description, directives, root_operations, span };
        proof {
            if self.spec_errors().len() == s0.spec_errors().len() {
                lemma_schema_def_written(sd, s0, s1, s2, s3, s4, *self);
            }
        }
        Ok(sd)
    }

    /// Parses a scalar type definition `scalar Name @directives`.
    pub(crate) fn parse_scalar_type_definition(&mut self, description: Option<ast::StringValue>) -> (r:
        Result<ast::TypeDefinition, ()>)
        requires
            old(self).inv(),
        ensures
            old(self).rest().len() > 0 && is_keyword(old(self).rest()[0], "scalar"@) ==> final(self).pos() > old(self).pos(),
            advanced(*old(self), *final(self)),
            progressed(*old(self), *final(self), r),
            r is Ok ==> is_keyword(old(self).rest()[0], "scalar"@) && r->Ok_0 is Scalar && type_def_parsed(
                r->Ok_0,
                old(self).rest(),
                description,
            ),
            r is Ok && final(self).spec_errors().len() == old(self).spec_errors().len() ==> type_def_written(
                r->Ok_0,
                consumed(*old(self), *final(self)),
                old(self).spec_config().retain_syntax,
            ),
    {
        let ghost start = *self;
        let keyword = self.expect_keyword("scalar")?;
        proof {
            GraphQLParser::lemma_advanced(start, *self);
        }
        let ghost s1 = *self;
        let name = self.expect_ast_name()?;
        let ghost s2 = *self;
        let ghost s3 = *self;
        let directives = self.parse_const_directive_annotations()?;
        let ghost s4 = *self;
        let span = self.span_from(keyword.span.start_inclusive);
        let t = ast::TypeDefinition::Scalar(ast::ScalarTypeDefinition { description, directives, name, span });
        proof {
            if self.spec_errors().len() == start.spec_errors().len() {
                lemma_type_def_assembled(t, start, s1, s2, s3, s4, *self);
            }
        }
        Ok(t)
    }

    /// Parses an object type definition `type Name implements A & B
    /// @directives { fields }`.
    pub(crate) fn parse_object_type_definition(&mut self, description: Option<ast::StringValue>) -> (r:
        Result<ast::TypeDefinition, ()>)
        requires
            old(self).inv(),
        ensures
            old(self).rest().len() > 0 && is_keyword(old(self).rest()[0], "type"@) ==> final(self).pos() > old(self).pos(),
            advanced(*old(self), *final(self)),
            progressed(*old(self), *final(self), r),
            r is Ok ==> is_keyword(old(self).rest()[0], "type"@) && r->Ok_0 is Object && type_def_parsed(
                r->Ok_0,
                old(self).rest(),
                description,
            ),
            r is Ok && final(self).spec_errors().len() == old(self).spec_errors().len() ==> type_def_written(
                r->Ok_0,
                consumed(*old(self), *final(self)),
                old(self).spec_config().retain_syntax,
            ),
    {
        let ghost start = *self;
        let keyword = self.expect_keyword("type")?;
        proof {
            GraphQLParser::lemma_advanced(start, *self);
        }
        let ghost s1 = *self;
        let name = self.expect_ast_name()?;
        let ghost s2 = *self;
        let implements = if self.peek_is_keyword("implements") {
            self.parse_ast_implements_interfaces()?
        } else {
            Vec::new()
        };
        let ghost s3 = *self;
        let directives = self.parse_const_directive_annotations()?;
        let ghost s4 = *self;
        let fields = if self.peek_is(&GraphQLTokenKind::CurlyBraceOpen) {
            self.parse_ast_fields_definition(DelimiterContext::ObjectTypeDefinition)?
        } else {
            Vec::new()
        };
        let span = self.span_from(keyword.span.start_inclusive);
        let t = ast::TypeDefinition::Object(ast::ObjectTypeDefinition { description, directives, fields, implements, name, span });
        proof {
            if self.spec_errors().len() == start.spec_errors().len() {
                lemma_type_def_assembled(t, start, s1, s2, s3, s4, *self);
            }
        }
        Ok(t)
    }

    /// Parses an interface type definition `interface Name implements A
    /// @directives { fields }`.
    pub(crate) fn parse_interface_type_definition(&mut self, description: Option<ast::StringValue>) -> (r:
        Result<ast::TypeDefinition, ()>)
        requires
            old(self).inv(),
        ensures
            old(self).rest().len() > 0 && is_keyword(old(self).rest()[0], "interface"@) ==> final(self).pos() > old(self).pos(),
            advanced(*old(self), *final(self)),
            progressed(*old(self), *final(self), r),
            r is Ok ==> is_keyword(old(self).rest()[0], "interface"@) && r->Ok_0 is Interface
                && type_def_parsed(r->Ok_0, old(self).rest(), description),
            r is Ok && final(self).spec_errors().len() == old(self).spec_errors().len() ==> type_def_written(
                r->Ok_0,
                consumed(*old(self), *final(self)),
                old(self).spec_config().retain_syntax,
            ),
    {
        let ghost start = *self;
        let keyword = self.expect_keyword("interface")?;
        proof {
            GraphQLParser::lemma_advanced(start, *self);
        }
        let ghost s1 = *self;
        let name = self.expect_ast_name()?;
        let ghost s2 = *self;
        let implements = if self.peek_is_keyword("implements") {
            self.parse_ast_implements_interfaces()?
        } else {
            Vec::new()
        };
        let ghost s3 = *self;
        let directives = self.parse_const_directive_annotations()?;
        let ghost s4 = *self;
        let fields = if self.peek_is(&GraphQLTokenKind::CurlyBraceOpen) {
            self.parse_ast_fields_definition(DelimiterContext::InterfaceDefinition)?
        } else {
            Vec::new()
        };
        let span = self.span_from(keyword.span.start_inclusive);
        let t = ast::TypeDefinition::Interface(ast::InterfaceTypeDefinition { description, directives, fields, implements, name, span });
        proof {
            if self.spec_errors().len() == start.spec_errors().len() {
                lemma_type_def_assembled(t, start, s1, s2, s3, s4, *self);
            }
        }
        Ok(t)
    }

    /// Parses union members `= A | B`, after the directives: an optional
    /// leading `|`, then names separated by `|`. Without `=` there are none.
    pub(crate) fn parse_union_members(&mut self) -> (r: Result<Vec<ast::Name>, ()>)
        requires
            old(self).inv(),
        ensures
            advanced(*old(self), *final(self)),
            r is Err ==> final(self).spec_errors().len() > old(self).spec_errors().len(),
            !(old(self).rest().len() > 0 && old(self).rest()[0].kind is Equals) ==> r is Ok
                && r->Ok_0@.len() == 0 && final(self).pos() == old(self).pos(),
            r is Ok ==> final(self).spec_errors() == old(self).spec_errors() && members_written(
                r->Ok_0@,
                consumed(*old(self), *final(self)),
            ),
    {
        let mut members: Vec<ast::Name> = Vec::new();
        if self.peek_is(&GraphQLTokenKind::Equals) {
            self.take_token();
            let ghost s1 = *self;
            let mut lead: usize = 0;
            if self.peek_is(&GraphQLTokenKind::Pipe) {
                self.take_token();
                lead = 1;
            }
            let first = self.expect_ast_name()?;
            members.push(first);
            proof {
                GraphQLParser::lemma_advanced(s1, *self);
            }
            while self.peek_is(&GraphQLTokenKind::Pipe)
                invariant
                    advanced(*old(self), *self),
                    old(self).rest().len() > 0 && old(self).rest()[0].kind is Equals,
                    members@.len() > 0,
                    s1.inv(),
                    advanced(s1, *self),
                    s1.pos() == old(self).pos() + 1,
                    self.spec_errors() == old(self).spec_errors(),
                    lead <= 1,
                    self.pos() - s1.pos() == lead + 2 * members@.len() - 1,
                    separated_prefix_written(members@, s1.rest(), lead as int, GraphQLTokenKind::Pipe),
                decreases self.rest().len(),
            {
                let ghost before = *self;
                self.take_token();
                let ghost mid = *self;
                let n = self.expect_ast_name()?;
                members.push(n);
                proof {
                    GraphQLParser::lemma_advanced(s1, before);
                    GraphQLParser::lemma_advanced(s1, mid);
                    let k = members@.len() - 1;
                    assert(s1.rest()[lead + 2 * k - 1] == before.rest()[0]);
                    assert(s1.rest()[lead + 2 * k] == mid.rest()[0]);
                    assert forall|j: int| 0 <= j < members@.len() implies is_name_token(
                        #[trigger] s1.rest()[lead + 2 * j],
                    ) && name_of(members@[j], s1.rest()[lead + 2 * j]) by {
                        if j < k {
                            assert(members@[j] == members@.drop_last()[j]);
                        }
                    }
                }
            }
            proof {
                GraphQLParser::lemma_advanced(s1, *self);
                lemma_separated_names(members@, s1, *self, lead as int, GraphQLTokenKind::Pipe);
                GraphQLParser::lemma_consumed(*old(self), s1, *self);
                let ts = consumed(*old(self), *self);
                assert(ts[0] == old(self).rest()[0]);
            }
        } else {
            proof {
                assert(consumed(*old(self), *self) =~= Seq::<GraphQLToken>::empty());
            }
        }
        Ok(members)
    }

    /// Parses a union type definition `union Name @directives = A | B`.
    pub(crate) fn parse_union_type_definition(&mut self, description: Option<ast::StringValue>) -> (r:
        Result<ast::TypeDefinition, ()>)
        requires
            old(self).inv(),
        ensures
            old(self).rest().len() > 0 && is_keyword(old(self).rest()[0], "union"@) ==> final(self).pos() > old(self).pos(),
            advanced(*old(self), *final(self)),
            progressed(*old(self), *final(self), r),
            r is Ok ==> is_keyword(old(self).rest()[0], "union"@) && r->Ok_0 is Union && type_def_parsed(
                r->Ok_0,
                old(self).rest(),
                description,
            ),
            r is Ok && final(self).spec_errors().len() == old(self).spec_errors().len() ==> type_def_written(
                r->Ok_0,
                consumed(*old(self), *final(self)),
                old(self).spec_config().retain_syntax,
            ),
    {
        let ghost start = *self;
        let keyword = self.expect_keyword("union")?;
        proof {
            GraphQLParser::lemma_advanced(start, *self);
        }
        let ghost s1 = *self;
        let name = self.expect_ast_name()?;
        let ghost s2 = *self;
        let ghost s3 = *self;
        let directives = self.parse_const_directive_annotations()?;
        let ghost s4 = *self;
        let members = self.parse_union_members()?;
        let span = self.span_from(keyword.span.start_inclusive);
        let t = ast::TypeDefinition::Union(ast::UnionTypeDefinition { description, directives, members, name, span });
        proof {
            if self.spec_errors().len() == start.spec_errors().len() {
                lemma_type_def_assembled(t, start, s1, s2, s3, s4, *self);
            }
        }
        Ok(t)
    }

    /// Parses an enum type definition `enum Name @directives { VALUES }`.
    pub(crate) fn parse_enum_type_definition(&mut self, description: Option<ast::StringValue>) -> (r:
        Result<ast::TypeDefinition, ()>)
        requires
            old(self).inv(),
        ensures
            old(self).rest().len() > 0 && is_keyword(old(self).rest()[0], "enum"@) ==> final(self).pos() > old(self).pos(),
            advanced(*old(self), *final(self)),
            progressed(*old(self), *final(self), r),
            r is Ok ==> is_keyword(old(self).rest()[0], "enum"@) && r->Ok_0 is Enum && type_def_parsed(
                r->Ok_0,
                old(self).rest(),
                description,
            ),
            r is Ok && final(self).spec_errors().len() == old(self).spec_errors().len() ==> type_def_written(
                r->Ok_0,
                consumed(*old(self), *final(self)),
                old(self).spec_config().retain_syntax,
            ),
    {
        let ghost start = *self;
        let keyword = self.expect_keyword("enum")?;
        proof {
            GraphQLParser::lemma_advanced(start, *self);
        }
        let ghost s1 = *self;
        let name = self.expect_ast_name()?;
        let ghost s2 = *self;
        let ghost s3 = *self;
        let directives = self.parse_const_directive_annotations()?;
        let ghost s4 = *self;
        let values = if self.peek_is(&GraphQLTokenKind::CurlyBraceOpen) {
            self.parse_enum_values_definition()?
        } else {
            Vec::new()
        };
        let span = self.span_from(keyword.span.start_inclusive);
        let t = ast::TypeDefinition::Enum(ast::EnumTypeDefinition { description, directives, name, span, values });
        proof {
            if self.spec_errors().len() == start.spec_errors().len() {
                lemma_type_def_assembled(t, start, s1, s2, s3, s4, *self);
            }
        }
        Ok(t)
    }

    /// Parses an input object type definition `input Name @directives {
    /// fields }`.
    pub(crate) fn parse_input_object_type_definition(&mut self, description: Option<ast::StringValue>) -> (r:
        Result<ast::TypeDefinition, ()>)
        requires
            old(self).inv(),
        ensures
            old(self).rest().len() > 0 && is_keyword(old(self).rest()[0], "input"@) ==> final(self).pos() > old(self).pos(),
            advanced(*old(self), *final(self)),
            progressed(*old(self), *final(self), r),
            r is Ok ==> is_keyword(old(self).rest()[0], "input"@) && r->Ok_0 is InputObject
                && type_def_parsed(r->Ok_0, old(self).rest(), description),
            r is Ok && final(self).spec_errors().len() == old(self).spec_errors().len() ==> type_def_written(
                r->Ok_0,
                consumed(*old(self), *final(self)),
                old(self).spec_config().retain_syntax,
            ),
    {
        let ghost start = *self;
        let keyword = self.expect_keyword("input")?;
        proof {
            GraphQLParser::lemma_advanced(start, *self);
        }
        let ghost s1 = *self;
        let name = self.expect_ast_name()?;
        let ghost s2 = *self;
        let ghost s3 = *self;
        let directives = self.parse_const_directive_annotations()?;
        let ghost s4 = *self;
        let fields = if self.peek_is(&GraphQLTokenKind::CurlyBraceOpen) {
            self.parse_input_fields_definition()?
        } else {
            Vec::new()
        };
        let span = self.span_from(keyword.span.start_inclusive);
        let t = ast::TypeDefinition::InputObject(ast::InputObjectTypeDefinition { description, directives, fields, name, span });
        proof {
            if self.spec_errors().len() == start.spec_errors().len() {
                lemma_type_def_assembled(t, start, s1, s2, s3, s4, *self);
            }
        }
        Ok(t)
    }

    /// Parses `implements A & B`, with an optional leading `&`.
    pub(crate) fn parse_ast_implements_interfaces(&mut self) -> (r: Result<Vec<ast::Name>, ()>)
        requires
            old(self).inv(),
        ensures
            advanced(*old(self), *final(self)),
            progressed(*old(self), *final(self), r),
            r is Ok ==> r->Ok_0@.len() > 0,
            r is Ok ==> final(self).spec_errors() == old(self).spec_errors() && implements_written(
                r->Ok_0@,
                consumed(*old(self), *final(self)),
            ),
    {
        self.expect_keyword("implements")?;
        let ghost s1 = *self;
        let mut lead: usize = 0;
        if self.peek_is(&GraphQLTokenKind::Ampersand) {
            self.take_token();
            lead = 1;
        }
        let mut interfaces: Vec<ast::Name> = Vec::new();
        let ghost s2 = *self;
        let first = self.expect_ast_name()?;
        interfaces.push(first);
        proof {
            GraphQLParser::lemma_advanced(s1, s2);
            GraphQLParser::lemma_advanced(s1, *self);
        }
        while self.peek_is(&GraphQLTokenKind::Ampersand)
            invariant
                advanced(*old(self), *self),
                self.pos() > old(self).pos(),
                interfaces@.len() > 0,
                s1.inv(),
                advanced(s1, *self),
                s1.pos() == old(self).pos() + 1,
                self.spec_errors() == old(self).spec_errors(),
                lead <= 1,
                self.pos() - s1.pos() == lead + 2 * interfaces@.len() - 1,
                separated_prefix_written(interfaces@, s1.rest(), lead as int, GraphQLTokenKind::Ampersand),
            decreases self.rest().len(),
        {
            let ghost before = *self;
            self.take_token();
            let ghost mid = *self;
            let n = self.expect_ast_name()?;
            interfaces.push(n);
            proof {
                GraphQLParser::lemma_advanced(s1, before);
                GraphQLParser::lemma_advanced(s1, mid);
                let k = interfaces@.len() - 1;
                assert(s1.rest()[lead + 2 * k - 1] == before.rest()[0]);
                assert(s1.rest()[lead + 2 * k] == mid.rest()[0]);
                assert forall|j: int| 0 <= j < interfaces@.len() implies is_name_token(
                    #[trigger] s1.rest()[lead + 2 * j],
                ) && name_of(interfaces@[j], s1.rest()[lead + 2 * j]) by {
                    if j < k {
                        assert(interfaces@[j] == interfaces@.drop_last()[j]);
                    }
                }
            }
        }
        proof {
            GraphQLParser::lemma_advanced(s1, *self);
            lemma_separated_names(interfaces@, s1, *self, lead as int, GraphQLTokenKind::Ampersand);
            GraphQLParser::lemma_consumed(*old(self), s1, *self);
            let ts = consumed(*old(self), *self);
            assert(ts[0] == old(self).rest()[0]);
        }
        Ok(interfaces)
    }

    /// Parses field definitions `{ field ... }`.
    pub(crate) fn parse_ast_fields_definition(&mut self, context: DelimiterContext) -> (r: Result<
        Vec<ast::FieldDefinition>,
        (),
    >)
        requires
            old(self).inv(),
        ensures
            advanced(*old(self), *final(self)),
            progressed(*old(self), *final(self), r),
            r is Ok ==> field_defs_are_const(r->Ok_0@),
            r is Ok && final(self).spec_errors().len() == old(self).spec_errors().len() ==> braced_field_defs_written(
                r->Ok_0@,
                consumed(*old(self), *final(self)),
                old(self).spec_config().retain_syntax,
            ),
    {
        let open = self.expect(&GraphQLTokenKind::CurlyBraceOpen)?;
        self.push_delimiter(open.span.duplicate(), context);
        let mut fields: Vec<ast::FieldDefinition> = Vec::new();
        proof {
            GraphQLParser::lemma_advanced(*old(self), *self);
            assert(old(self).rest().subrange(1, 1) =~= Seq::<GraphQLToken>::empty());
        }
        loop
            invariant
                advanced(*old(self), *self),
                self.pos() > old(self).pos(),
                field_defs_are_const(fields@),
                old(self).inv(),
                old(self).rest().len() > 0,
                self.spec_errors().len() == old(self).spec_errors().len() ==> field_defs_written(
                    fields@,
                    old(self).rest().subrange(1, self.pos() - old(self).pos()),
                    old(self).spec_config().retain_syntax,
                ),
            ensures
                self.rest().len() > 0 && self.rest()[0].kind is CurlyBraceClose,
            decreases self.rest().len(),
        {
            if self.peek_is(&GraphQLTokenKind::CurlyBraceClose) {
                break;
            }
            if self.is_at_end() {
                self.record_unclosed("{", true);
                return Err(());
            }
            let ghost before = *self;
            let ghost xs0 = fields@;
            let f = self.parse_field_definition()?;
            fields.push(f);
            proof {
                if self.spec_errors().len() == old(self).spec_errors().len() {
                    lemma_field_defs_step(xs0, f, *old(self), before, *self);
                    assert(fields@ == xs0.push(f));
                }
            }
        }
        let ghost s_end = *self;
        self.take_token();
        self.pop_delimiter();
        proof {
            GraphQLParser::lemma_advanced(*old(self), s_end);
            GraphQLParser::lemma_advanced(*old(self), *self);
            if self.spec_errors().len() == old(self).spec_errors().len() {
                let ts = consumed(*old(self), *self);
                assert(ts.subrange(1, ts.len() - 1) =~= old(self).rest().subrange(1, s_end.pos() - old(self).pos()));
                assert(ts.last() == s_end.rest()[0]);
                assert(ts[0] == old(self).rest()[0]);
            }
        }
        Ok(fields)
    }

    /// Parses a field definition `"description" name(arguments): Type
    /// @directives`; its span starts at the description, if any.
    #[verifier::spinoff_prover]
    #[verifier::rlimit(60)]
    fn parse_field_definition(&mut self) -> (r: Result<ast::FieldDefinition, ()>)
        requires
            old(self).inv(),
        ensures
            advanced(*old(self), *final(self)),
            progressed(*old(self), *final(self), r),
            r is Ok ==> field_def_is_const(r->Ok_0) && r->Ok_0.span.start_inclusive == described_start(
                r->Ok_0.description,
                r->Ok_0.name,
            ),
            r is Ok && final(self).spec_errors().len() == old(self).spec_errors().len() ==> field_def_written(
                r->Ok_0,
                consumed(*old(self), *final(self)),
                old(self).spec_config().retain_syntax,
            ),
    {
        let ghost s0 = *self;
        let description = self.parse_ast_description();
        let ghost s1 = *self;
        let name = self.expect_ast_name()?;
        let ghost s2 = *self;
        let arguments = if self.peek_is(&GraphQLTokenKind::ParenOpen) {
            self.parse_arguments_definition()?
        } else {
            Vec::new()
        };
        let ghost s3 = *self;
        self.expect(&GraphQLTokenKind::Colon)?;
        let ghost s4 = *self;
        let field_type = self.parse_type_annotation()?;
        let ghost s5 = *self;
        let directives = self.parse_const_directive_annotations()?;
        let start = match &description {
            Some(d) => d.span.start_inclusive,
            None => name.span.start_inclusive,
        };
        let span = self.span_from(start);
        let f = ast::FieldDefinition { arguments, description, directives, field_type, name, span };
        proof {
            if self.spec_errors().len() == s0.spec_errors().len() {
                lemma_field_def_written(f, s0, s1, s2, s3, s4, s5, *self);
            }
        }
        Ok(f)
    }

    /// Parses argument definitions `(name: Type = default ...)`.
    pub(crate) fn parse_arguments_definition(&mut self) -> (r: Result<Vec<ast::InputValueDefinition>, ()>)
        requires
            old(self).inv(),
            old(self).rest().len() > 0,
            old(self).rest()[0].kind is ParenOpen,
        ensures
            advanced(*old(self), *final(self)),
            progressed(*old(self), *final(self), r),
            final(self).pos() > old(self).pos(),
            r is Ok ==> input_value_defs_are_const(r->Ok_0@),
            r is Ok && final(self).spec_errors().len() == old(self).spec_errors().len() ==> arg_defs_written(
                r->Ok_0@,
                consumed(*old(self), *final(self)),
                old(self).spec_config().retain_syntax,
            ),
    {
        let open = self.take_token();
        self.push_delimiter(open.span.duplicate(), DelimiterContext::ArgumentDefinitions);
        let mut arguments: Vec<ast::InputValueDefinition> = Vec::new();
        proof {
            GraphQLParser::lemma_advanced(*old(self), *self);
            assert(old(self).rest().subrange(1, 1) =~= Seq::<GraphQLToken>::empty());
        }
        loop
            invariant
                advanced(*old(self), *self),
                self.pos() > old(self).pos(),
                input_value_defs_are_const(arguments@),
                old(self).inv(),
                old(self).rest().len() > 0,
                self.spec_errors().len() == old(self).spec_errors().len() ==> input_value_defs_written(
                    arguments@,
                    old(self).rest().subrange(1, self.pos() - old(self).pos()),
                    old(self).spec_config().retain_syntax,
                ),
            ensures
                self.rest().len() > 0 && self.rest()[0].kind is ParenClose,
            decreases self.rest().len(),
        {
            if self.peek_is(&GraphQLTokenKind::ParenClose) {
                break;
            }
            if self.is_at_end() {
                self.record_unclosed("(", true);
                return Err(());
            }
            let ghost before = *self;
            let ghost xs0 = arguments@;
            let a = self.parse_input_value_definition()?;
            arguments.push(a);
            proof {
                if self.spec_errors().len() == old(self).spec_errors().len() {
                    lemma_ivds_step(xs0, a, *old(self), before, *self);
                    assert(arguments@ == xs0.push(a));
                }
            }
        }
        let ghost s_end = *self;
        self.take_token();
        self.pop_delimiter();
        proof {
            GraphQLParser::lemma_advanced(*old(self), s_end);
            GraphQLParser::lemma_advanced(*old(self), *self);
            if self.spec_errors().len() == old(self).spec_errors().len() {
                let ts = consumed(*old(self), *self);
                assert(ts.subrange(1, ts.len() - 1) =~= old(self).rest().subrange(1, s_end.pos() - old(self).pos()));
                assert(ts.last() == s_end.rest()[0]);
                assert(ts[0] == old(self).rest()[0]);
            }
        }
        Ok(arguments)
    }

    /// Parses input field definitions `{ name: Type = default ... }`.
    pub(crate) fn parse_input_fields_definition(&mut self) -> (r: Result<
        Vec<ast::InputValueDefinition>,
        (),
    >)
        requires
            old(self).inv(),
        ensures
            advanced(*old(self), *final(self)),
            progressed(*old(self), *final(self), r),
            r is Ok ==> input_value_defs_are_const(r->Ok_0@),
            r is Ok && final(self).spec_errors().len() == old(self).spec_errors().len() ==> braced_ivds_written(
                r->Ok_0@,
                consumed(*old(self), *final(self)),
                old(self).spec_config().retain_syntax,
            ),
    {
        let open = self.expect(&GraphQLTokenKind::CurlyBraceOpen)?;
        self.push_delimiter(open.span.duplicate(), DelimiterContext::InputObjectDefinition);
        let mut fields: Vec<ast::InputValueDefinition> = Vec::new();
        proof {
            GraphQLParser::lemma_advanced(*old(self), *self);
            assert(old(self).rest().subrange(1, 1) =~= Seq::<GraphQLToken>::empty());
        }
        loop
            invariant
                advanced(*old(self), *self),
                self.pos() > old(self).pos(),
                input_value_defs_are_const(fields@),
                old(self).inv(),
                old(self).rest().len() > 0,
                self.spec_errors().len() == old(self).spec_errors().len() ==> input_value_defs_written(
                    fields@,
                    old(self).rest().subrange(1, self.pos() - old(self).pos()),
                    old(self).spec_config().retain_syntax,
                ),
            ensures
                self.rest().len() > 0 && self.rest()[0].kind is CurlyBraceClose,
            decreases self.rest().len(),
        {
            if self.peek_is(&GraphQLTokenKind::CurlyBraceClose) {
                break;
            }
            if self.is_at_end() {
                self.record_unclosed("{", true);
                return Err(());
            }
            let ghost before = *self;
            let ghost xs0 = fields@;
            let f = self.parse_input_value_definition()?;
            fields.push(f);
            proof {
                if self.spec_errors().len() == old(self).spec_errors().len() {
                    lemma_ivds_step(xs0, f, *old(self), before, *self);
                    assert(fields@ == xs0.push(f));
                }
            }
        }
        let ghost s_end = *self;
        self.take_token();
        self.pop_delimiter();
        proof {
            GraphQLParser::lemma_advanced(*old(self), s_end);
            GraphQLParser::lemma_advanced(*old(self), *self);
            if self.spec_errors().len() == old(self).spec_errors().len() {
                let ts = consumed(*old(self), *self);
                assert(ts.subrange(1, ts.len() - 1) =~= old(self).rest().subrange(1, s_end.pos() - old(self).pos()));
                assert(ts.last() == s_end.rest()[0]);
                assert(ts[0] == old(self).rest()[0]);
            }
        }
        Ok(fields)
    }

    /// Parses an input value definition `"description" name: Type =
    /// default @directives`; its span starts at the description, if any.
    fn parse_input_value_definition(&mut self) -> (r: Result<ast::InputValueDefinition, ()>)
        requires
            old(self).inv(),
        ensures
            advanced(*old(self), *final(self)),
            progressed(*old(self), *final(self), r),
            r is Ok ==> input_value_def_is_const(r->Ok_0) && r->Ok_0.span.start_inclusive
                == described_start(r->Ok_0.description, r->Ok_0.name),
            r is Ok && final(self).spec_errors().len() == old(self).spec_errors().len() ==> input_value_def_written(
                r->Ok_0,
                consumed(*old(self), *final(self)),
                old(self).spec_config().retain_syntax,
            ),
    {
        let ghost s0 = *self;
        let description = self.parse_ast_description();
        let ghost s1 = *self;
        let name = self.expect_ast_name()?;
        let ghost s2 = *self;
        self.expect(&GraphQLTokenKind::Colon)?;
        let ghost s3 = *self;
        let value_type = self.parse_type_annotation()?;
        let ghost s4 = *self;
        let ghost mut s5 = *self;
        let default_value = if self.peek_is(&GraphQLTokenKind::Equals) {
            self.take_token();
            proof {
                s5 = *self;
            }
            Some(self.parse_value(ConstContext::InputDefaultValue)?)
        } else {
            None
        };
        let ghost s6 = *self;
        let directives = self.parse_const_directive_annotations()?;
        let start = match &description {
            Some(d) => d.span.start_inclusive,
            None => name.span.start_inclusive,
        };
        let span = self.span_from(start);
        let d = ast::InputValueDefinition { default_value, description, directives, name, span, value_type };
        proof {
            if self.spec_errors().len() == s0.spec_errors().len() {
                lemma_input_value_def_written(d, s0, s1, s2, s3, s4, s5, s6, *self);
            }
        }
        Ok(d)
    }

    /// Parses enum value definitions `{ VALUE ... }`.
    pub(crate) fn parse_enum_values_definition(&mut self) -> (r: Result<
        Vec<ast::EnumValueDefinition>,
        (),
    >)
        requires
            old(self).inv(),
        ensures
            advanced(*old(self), *final(self)),
            progressed(*old(self), *final(self), r),
            r is Ok ==> enum_value_defs_are_const(r->Ok_0@),
            r is Ok && final(self).spec_errors().len() == old(self).spec_errors().len() ==> braced_enum_value_defs_written(
                r->Ok_0@,
                consumed(*old(self), *final(self)),
                old(self).spec_config().retain_syntax,
            ),
    {
        let open = self.expect(&GraphQLTokenKind::CurlyBraceOpen)?;
        self.push_delimiter(open.span.duplicate(), DelimiterContext::EnumDefinition);
        let mut values: Vec<ast::EnumValueDefinition> = Vec::new();
        proof {
            GraphQLParser::lemma_advanced(*old(self), *self);
            assert(old(self).rest().subrange(1, 1) =~= Seq::<GraphQLToken>::empty());
        }
        loop
            invariant
                advanced(*old(self), *self),
                self.pos() > old(self).pos(),
                enum_value_defs_are_const(values@),
                old(self).inv(),
                old(self).rest().len() > 0,
                self.spec_errors().len() == old(self).spec_errors().len() ==> enum_value_defs_written(
                    values@,
                    old(self).rest().subrange(1, self.pos() - old(self).pos()),
                    old(self).spec_config().retain_syntax,
                ),
            ensures
                self.rest().len() > 0 && self.rest()[0].kind is CurlyBraceClose,
            decreases self.rest().len(),
        {
            if self.peek_is(&GraphQLTokenKind::CurlyBraceClose) {
                break;
            }
            if self.is_at_end() {
                self.record_unclosed("{", true);
                return Err(());
            }
            let ghost before = *self;
            let ghost xs0 = values@;
            let v = self.parse_enum_value_definition()?;
            values.push(v);
            proof {
                if self.spec_errors().len() == old(self).spec_errors().len() {
                    lemma_enum_value_defs_step(xs0, v, *old(self), before, *self);
                    assert(values@ == xs0.push(v));
                }
            }
        }
        let ghost s_end = *self;
        self.take_token();
        self.pop_delimiter();
        proof {
            GraphQLParser::lemma_advanced(*old(self), s_end);
            GraphQLParser::lemma_advanced(*old(self), *self);
            if self.spec_errors().len() == old(self).spec_errors().len() {
                let ts = consumed(*old(self), *self);
                assert(ts.subrange(1, ts.len() - 1) =~= old(self).rest().subrange(1, s_end.pos() - old(self).pos()));
                assert(ts.last() == s_end.rest()[0]);
                assert(ts[0] == old(self).rest()[0]);
            }
        }
        Ok(values)
    }

    /// Parses an enum value definition `"description" VALUE @directives`;
    /// the values `true`, `false` and `null` are reported but accepted.
    fn parse_enum_value_definition(&mut self) -> (r: Result<ast::EnumValueDefinition, ()>)
        requires
            old(self).inv(),
        ensures
            advanced(*old(self), *final(self)),
            progressed(*old(self), *final(self), r),
            r is Ok ==> directives_are_const(r->Ok_0.directives@) && r->Ok_0.span.start_inclusive
                == described_start(r->Ok_0.description, r->Ok_0.name),
            r is Ok && final(self).spec_errors().len() == old(self).spec_errors().len() ==> enum_value_def_written(
                r->Ok_0,
                consumed(*old(self), *final(self)),
                old(self).spec_config().retain_syntax,
            ),
    {
        let ghost s0 = *self;
        let description = self.parse_ast_description();
        let ghost s1 = *self;
        let name = self.expect_ast_name()?;
        let ghost s2 = *self;
        let v = name.value.as_str();
        if str_eq(v, "true") || str_eq(v, "false") || str_eq(v, "null") {
            let mut message = "enum value cannot be `".to_owned();
            message.append(v);
            message.append("`");
            let mut error = GraphQLParseError::new(
                message,
                GraphQLParseErrorKind::ReservedName {
                    name: name.value.clone(),
                    context: ReservedNameContext::EnumValue,
                },
                name.span.to_source_span(),
            );
            error.add_spec("https://spec.graphql.org/October2021/#sec-Enum-Value-Uniqueness".to_owned());
            self.record_error(error);
        }
        let ghost s3 = *self;
        let directives = self.parse_const_directive_annotations()?;
        let start = match &description {
            Some(d) => d.span.start_inclusive,
            None => name.span.start_inclusive,
        };
        let span = self.span_from(start);
        let v = ast::EnumValueDefinition { description, directives, name, span };
        proof {
            if self.spec_errors().len() == s0.spec_errors().len() {
                lemma_enum_value_def_written(v, s0, s1, s2, s3, *self);
            }
        }
        Ok(v)
    }
}

} // verus!
