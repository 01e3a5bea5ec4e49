//! Round trips through this crate's AST: a `graphql_parser` document that
//! `graphql_parser` itself could produce is the `graphql_parser` form of
//! the AST it converts to.

use crate::ast;
use crate::compat_graphql_parser_v0_4::from_gp_helpers::gp_args_to_ast_rel;
use crate::compat_graphql_parser_v0_4::from_gp_helpers::gp_default_to_ast_rel;
use crate::compat_graphql_parser_v0_4::from_gp_helpers::gp_description_to_ast_rel;
use crate::compat_graphql_parser_v0_4::from_gp_helpers::gp_directive_to_ast_rel;
use crate::compat_graphql_parser_v0_4::from_gp_helpers::gp_directives_to_ast_rel;
use crate::compat_graphql_parser_v0_4::from_gp_helpers::gp_enum_value_to_ast_rel;
use crate::compat_graphql_parser_v0_4::from_gp_helpers::gp_enum_values_to_ast_rel;
use crate::compat_graphql_parser_v0_4::from_gp_helpers::gp_field_def_to_ast_rel;
use crate::compat_graphql_parser_v0_4::from_gp_helpers::gp_field_defs_to_ast_rel;
use crate::compat_graphql_parser_v0_4::from_gp_helpers::gp_input_value_to_ast_rel;
use crate::compat_graphql_parser_v0_4::from_gp_helpers::gp_input_values_to_ast_rel;
use crate::compat_graphql_parser_v0_4::from_gp_helpers::gp_names_to_ast_rel;
use crate::compat_graphql_parser_v0_4::from_gp_helpers::gp_type_to_ast_rel;
use crate::compat_graphql_parser_v0_4::from_gp_helpers::gp_value_to_ast_rel;
use crate::compat_graphql_parser_v0_4::from_gp_helpers::location_from_gp;
use crate::compat_graphql_parser_v0_4::from_gp_helpers::minus_one;
use crate::compat_graphql_parser_v0_4::from_gp_helpers::source_pos_of;
use crate::compat_graphql_parser_v0_4::from_gp_helpers::span_at;
use crate::compat_graphql_parser_v0_4::from_schema::gp_directive_def_to_ast_rel;
use crate::compat_graphql_parser_v0_4::from_schema::gp_root_ops;
use crate::compat_graphql_parser_v0_4::from_schema::gp_schema_def_to_ast_rel;
use crate::compat_graphql_parser_v0_4::from_schema::gp_schema_doc_to_ast_rel;
use crate::compat_graphql_parser_v0_4::from_schema::gp_schema_item_to_ast_rel;
use crate::compat_graphql_parser_v0_4::from_schema::gp_type_def_to_ast_rel;
use crate::compat_graphql_parser_v0_4::from_schema::gp_type_ext_to_ast_rel;
use crate::compat_graphql_parser_v0_4::from_gp_helpers::span_between;
use crate::compat_graphql_parser_v0_4::from_query::gp_fragment_def_to_ast_rel;
use crate::compat_graphql_parser_v0_4::from_query::gp_operation_parts_rel;
use crate::compat_graphql_parser_v0_4::from_query::gp_operation_to_ast_rel;
use crate::compat_graphql_parser_v0_4::from_query::gp_query_doc_to_ast_rel;
use crate::compat_graphql_parser_v0_4::from_query::gp_query_item_to_ast_rel;
use crate::compat_graphql_parser_v0_4::from_query::gp_selection_set_to_ast_rel;
use crate::compat_graphql_parser_v0_4::from_query::gp_selection_to_ast_rel;
use crate::compat_graphql_parser_v0_4::from_query::gp_variable_def_to_ast_rel;
use crate::compat_graphql_parser_v0_4::from_query::gp_variable_defs_to_ast_rel;
use crate::compat_graphql_parser_v0_4::gp;
use crate::compat_graphql_parser_v0_4::to_gp_helpers::pos_is;
use crate::compat_graphql_parser_v0_4::to_query::fragment_def_to_gp_rel;
use crate::compat_graphql_parser_v0_4::to_query::is_query_item;
use crate::compat_graphql_parser_v0_4::to_query::is_shorthand;
use crate::compat_graphql_parser_v0_4::to_query::operation_to_gp_rel;
use crate::compat_graphql_parser_v0_4::to_query::query_error_spans;
use crate::compat_graphql_parser_v0_4::to_query::query_item_to_gp_rel;
use crate::compat_graphql_parser_v0_4::to_query::query_items;
use crate::compat_graphql_parser_v0_4::to_query::query_items_to_gp_rel;
use crate::compat_graphql_parser_v0_4::to_query::selection_set_to_gp_rel;
use crate::compat_graphql_parser_v0_4::to_query::selection_to_gp_rel;
use crate::compat_graphql_parser_v0_4::to_query::variable_def_to_gp_rel;
use crate::compat_graphql_parser_v0_4::to_query::variable_defs_to_gp_rel;
use crate::compat_graphql_parser_v0_4::to_query::variable_directive_spans;
use crate::compat_graphql_parser_v0_4::to_gp_helpers::args_to_gp_rel;
use crate::compat_graphql_parser_v0_4::to_gp_helpers::default_to_gp_rel;
use crate::compat_graphql_parser_v0_4::to_gp_helpers::description_to_gp_rel;
use crate::compat_graphql_parser_v0_4::to_gp_helpers::directive_to_gp_rel;
use crate::compat_graphql_parser_v0_4::to_gp_helpers::directives_to_gp_rel;
use crate::compat_graphql_parser_v0_4::to_gp_helpers::enum_value_def_to_gp_rel;
use crate::compat_graphql_parser_v0_4::to_gp_helpers::enum_value_defs_to_gp_rel;
use crate::compat_graphql_parser_v0_4::to_gp_helpers::field_def_to_gp_rel;
use crate::compat_graphql_parser_v0_4::to_gp_helpers::field_defs_to_gp_rel;
use crate::compat_graphql_parser_v0_4::to_gp_helpers::input_value_def_to_gp_rel;
use crate::compat_graphql_parser_v0_4::to_gp_helpers::input_value_defs_to_gp_rel;
use crate::compat_graphql_parser_v0_4::to_gp_helpers::key_lt;
use crate::compat_graphql_parser_v0_4::to_gp_helpers::keys_sorted;
use crate::compat_graphql_parser_v0_4::to_gp_helpers::last_index_with_name;
use crate::compat_graphql_parser_v0_4::to_gp_helpers::lemma_key_order;
use crate::compat_graphql_parser_v0_4::to_gp_helpers::location_to_gp;
use crate::compat_graphql_parser_v0_4::to_gp_helpers::names_to_gp_rel;
use crate::compat_graphql_parser_v0_4::to_gp_helpers::pos_of;
use crate::compat_graphql_parser_v0_4::to_gp_helpers::type_to_gp_rel;
use crate::compat_graphql_parser_v0_4::to_gp_helpers::value_to_gp_rel;
use crate::compat_graphql_parser_v0_4::to_schema::directive_def_to_gp_rel;
use crate::compat_graphql_parser_v0_4::to_schema::is_schema_item;
use crate::compat_graphql_parser_v0_4::to_schema::last_root_op;
use crate::compat_graphql_parser_v0_4::to_schema::opt_text_rel;
use crate::compat_graphql_parser_v0_4::to_schema::schema_def_to_gp_rel;
use crate::compat_graphql_parser_v0_4::to_schema::schema_extension_spans;
use crate::compat_graphql_parser_v0_4::to_schema::schema_item_to_gp_rel;
use crate::compat_graphql_parser_v0_4::to_schema::schema_items;
use crate::compat_graphql_parser_v0_4::to_schema::schema_items_to_gp_rel;
use crate::compat_graphql_parser_v0_4::to_schema::type_def_to_gp_rel;
use crate::compat_graphql_parser_v0_4::to_schema::type_ext_to_gp_rel;
use crate::graphql_source_span::GraphQLSourceSpan;
use vstd::prelude::*;

verus! {

// ── What `graphql_parser` produces ──────────────────────────────────

/// A 1-based position, as `graphql_parser` gives.
pub open spec fn pos_ok(p: gp::Pos) -> bool {
    p.line >= 1 && p.column >= 1
}

/// A value as `graphql_parser` holds it: integers within 32 bits, objects
/// keyed in strictly increasing order.
pub open spec fn gp_value_wf(v: gp::Value) -> bool
    decreases v,
{
    match v {
        gp::Value::Int(n) => i32::MIN <= n <= i32::MAX,
        gp::Value::List(items) => forall|i: int| 0 <= i < items.len() ==> gp_value_wf(#[trigger] items@[i]),
        gp::Value::Object(es) => keys_sorted(es@) && forall|i: int|
            0 <= i < es.len() ==> gp_value_wf((#[trigger] es@[i]).1),
        _ => true,
    }
}

/// A type in which no non-null type wraps another.
pub open spec fn gp_type_wf(t: gp::Type) -> bool
    decreases t,
{
    match t {
        gp::Type::NamedType(_) => true,
        gp::Type::ListType(b) => gp_type_wf(*b),
        gp::Type::NonNullType(b) => !(*b is NonNullType) && gp_type_wf(*b),
    }
}

/// Arguments with well-formed values.
pub open spec fn gp_args_wf(args: Seq<(String, gp::Value)>) -> bool {
    forall|i: int| 0 <= i < args.len() ==> gp_value_wf((#[trigger] args[i]).1)
}

/// Directives at 1-based positions with well-formed arguments.
pub open spec fn gp_directives_wf(ds: Seq<gp::Directive>) -> bool {
    forall|i: int| 0 <= i < ds.len() ==> pos_ok((#[trigger] ds[i]).position) && gp_args_wf(ds[i].arguments@)
}

/// A default value that is well formed, if any.
pub open spec fn gp_default_wf(d: Option<gp::Value>) -> bool {
    d matches Some(v) ==> gp_value_wf(v)
}

/// Input values that `graphql_parser` could produce.
pub open spec fn gp_input_values_wf(ivs: Seq<gp::InputValue>) -> bool {
    forall|i: int|
        0 <= i < ivs.len() ==> pos_ok((#[trigger] ivs[i]).position) && gp_type_wf(ivs[i].value_type) && gp_default_wf(
            ivs[i].default_value,
        ) && gp_directives_wf(ivs[i].directives@)
}

/// Fields that `graphql_parser` could produce.
pub open spec fn gp_fields_wf(fs: Seq<gp::Field>) -> bool {
    forall|i: int|
        0 <= i < fs.len() ==> pos_ok((#[trigger] fs[i]).position) && gp_input_values_wf(fs[i].arguments@)
            && gp_type_wf(fs[i].field_type) && gp_directives_wf(fs[i].directives@)
}

/// Enum values that `graphql_parser` could produce.
pub open spec fn gp_enum_values_wf(evs: Seq<gp::EnumValue>) -> bool {
    forall|i: int| 0 <= i < evs.len() ==> pos_ok((#[trigger] evs[i]).position) && gp_directives_wf(evs[i].directives@)
}

/// A type definition that `graphql_parser` could produce.
pub open spec fn gp_type_def_wf(td: gp::TypeDefinition) -> bool {
    match td {
        gp::TypeDefinition::Scalar(s) => pos_ok(s.position) && gp_directives_wf(s.directives@),
        gp::TypeDefinition::Object(o) => pos_ok(o.position) && gp_directives_wf(o.directives@) && gp_fields_wf(
            o.fields@,
        ),
        gp::TypeDefinition::Interface(i) => pos_ok(i.position) && gp_directives_wf(i.directives@) && gp_fields_wf(
            i.fields@,
        ),
        gp::TypeDefinition::Union(u) => pos_ok(u.position) && gp_directives_wf(u.directives@),
        gp::TypeDefinition::Enum(e) => pos_ok(e.position) && gp_directives_wf(e.directives@) && gp_enum_values_wf(
            e.values@,
        ),
        gp::TypeDefinition::InputObject(io) => pos_ok(io.position) && gp_directives_wf(io.directives@)
            && gp_input_values_wf(io.fields@),
    }
}

/// A type extension that `graphql_parser` could produce.
pub open spec fn gp_type_ext_wf(te: gp::TypeExtension) -> bool {
    match te {
        gp::TypeExtension::Scalar(s) => pos_ok(s.position) && gp_directives_wf(s.directives@),
        gp::TypeExtension::Object(o) => pos_ok(o.position) && gp_directives_wf(o.directives@) && gp_fields_wf(
            o.fields@,
        ),
        gp::TypeExtension::Interface(i) => pos_ok(i.position) && gp_directives_wf(i.directives@) && gp_fields_wf(
            i.fields@,
        ),
        gp::TypeExtension::Union(u) => pos_ok(u.position) && gp_directives_wf(u.directives@),
        gp::TypeExtension::Enum(e) => pos_ok(e.position) && gp_directives_wf(e.directives@) && gp_enum_values_wf(
            e.values@,
        ),
        gp::TypeExtension::InputObject(io) => pos_ok(io.position) && gp_directives_wf(io.directives@)
            && gp_input_values_wf(io.fields@),
    }
}

/// A schema definition item that `graphql_parser` could produce.
pub open spec fn gp_schema_item_wf(d: gp::SchemaDefinitionItem) -> bool {
    match d {
        gp::SchemaDefinitionItem::SchemaDefinition(sd) => pos_ok(sd.position) && gp_directives_wf(sd.directives@),
        gp::SchemaDefinitionItem::TypeDefinition(td) => gp_type_def_wf(td),
        gp::SchemaDefinitionItem::TypeExtension(te) => gp_type_ext_wf(te),
        gp::SchemaDefinitionItem::DirectiveDefinition(dd) => pos_ok(dd.position) && gp_input_values_wf(
            dd.arguments@,
        ),
    }
}

/// A schema document that `graphql_parser` could produce.
pub open spec fn gp_schema_doc_wf(doc: gp::SchemaDocument) -> bool {
    forall|i: int| 0 <= i < doc.definitions.len() ==> gp_schema_item_wf(#[trigger] doc.definitions@[i])
}

// ── Sub-nodes ───────────────────────────────────────────────────────

/// A 1-based position survives the trip to an empty span and back.
proof fn lemma_pos_round_trip(src: Option<Seq<u8>>, span: GraphQLSourceSpan, p: gp::Pos)
    requires
        pos_ok(p),
        span_at(src, span, p),
    ensures
        pos_of(p, span),
{
}

/// Among fields named by strictly increasing keys, the last field with
/// key `m` is field `m`.
proof fn lemma_last_index_of_sorted(fields: Seq<ast::ObjectField>, es: Seq<(String, gp::Value)>, m: int)
    requires
        keys_sorted(es),
        fields.len() == es.len(),
        forall|i: int| 0 <= i < es.len() ==> (#[trigger] fields[i]).name.value@ == es[i].0@,
        0 <= m < es.len(),
    ensures
        last_index_with_name(fields, es[m].0@) == m,
    decreases fields.len(),
{
    let n = fields.len() - 1;
    if m < n {
        assert(key_lt(es[m].0@, es[n].0@));
        lemma_key_order(es[m].0@, es[n].0@, es[n].0@);
        assert(fields.last() == fields[n]);
        assert(fields.last().name.value@ != es[m].0@);
        lemma_last_index_of_sorted(fields.drop_last(), es.drop_last(), m);
    } else {
        assert(fields.last() == fields[n]);
    }
}

/// A well-formed value is the `graphql_parser` form of its AST form.
pub proof fn lemma_value_round_trip(g: gp::Value, a: ast::Value)
    requires
        gp_value_wf(g),
        gp_value_to_ast_rel(g, a),
    ensures
        value_to_gp_rel(a, g),
    decreases g,
{
    match g {
        gp::Value::List(items) => {
            let l = a->List_0;
            assert forall|i: int| 0 <= i < items.len() implies value_to_gp_rel(
                #[trigger] l.values@[i],
                items@[i],
            ) by {
                lemma_value_round_trip(items@[i], l.values@[i]);
            }
        },
        gp::Value::Object(es) => {
            let o = a->Object_0;
            assert forall|i: int| 0 <= i < es.len() implies (#[trigger] o.fields@[i]).name.value@
                == es@[i].0@ by {}
            assert forall|m: int| 0 <= m < es.len() implies {
                let j = last_index_with_name(o.fields@, (#[trigger] es@[m]).0@);
                0 <= j < o.fields.len() && value_to_gp_rel(o.fields@[j].value, es@[m].1)
            } by {
                lemma_last_index_of_sorted(o.fields@, es@, m);
                lemma_value_round_trip(es@[m].1, o.fields@[m].value);
            }
            assert forall|j: int| 0 <= j < o.fields.len() implies exists|m: int|
                0 <= m < es.len() && (#[trigger] es@[m]).0@ == (#[trigger] o.fields@[j]).name.value@ by {
                assert(es@[j].0@ == o.fields@[j].name.value@);
            }
        },
        _ => {},
    }
}

/// A type with no doubly non-null part is the `graphql_parser` form of its
/// AST form.
pub proof fn lemma_type_round_trip(g: gp::Type, a: ast::TypeAnnotation)
    requires
        gp_type_wf(g),
        gp_type_to_ast_rel(g, a),
    ensures
        type_to_gp_rel(a, g),
    decreases g,
{
    match g {
        gp::Type::ListType(b) => {
            lemma_type_round_trip(*b, *a->List_0.element_type);
        },
        gp::Type::NonNullType(b) => {
            match *b {
                gp::Type::ListType(e) => {
                    assert(gp_type_wf(*b));
                    assert(gp_type_wf(*e));
                    lemma_type_round_trip(*e, *a->List_0.element_type);
                },
                _ => {},
            }
        },
        _ => {},
    }
}

proof fn lemma_args_round_trip(gs: Seq<(String, gp::Value)>, as_: Seq<ast::Argument>)
    requires
        gp_args_wf(gs),
        gp_args_to_ast_rel(gs, as_),
    ensures
        args_to_gp_rel(as_, gs),
{
    assert forall|i: int| 0 <= i < as_.len() implies (#[trigger] gs[i]).0@ == as_[i].name.value@
        && value_to_gp_rel(as_[i].value, gs[i].1) by {
        lemma_value_round_trip(gs[i].1, as_[i].value);
    }
}

proof fn lemma_directives_round_trip(src: Option<Seq<u8>>, gs: Seq<gp::Directive>, as_: Seq<ast::DirectiveAnnotation>)
    requires
        gp_directives_wf(gs),
        gp_directives_to_ast_rel(src, gs, as_),
    ensures
        directives_to_gp_rel(as_, gs),
{
    assert forall|i: int| 0 <= i < as_.len() implies directive_to_gp_rel(as_[i], #[trigger] gs[i]) by {
        assert(gp_directive_to_ast_rel(src, gs[i], as_[i]));
        lemma_pos_round_trip(src, as_[i].span, gs[i].position);
        lemma_args_round_trip(gs[i].arguments@, as_[i].arguments@);
    }
}

proof fn lemma_description_round_trip(g: Option<String>, a: Option<ast::StringValue>)
    requires
        gp_description_to_ast_rel(g, a),
    ensures
        description_to_gp_rel(a, g),
{
}

proof fn lemma_names_round_trip(gs: Seq<String>, as_: Seq<ast::Name>)
    requires
        gp_names_to_ast_rel(gs, as_),
    ensures
        names_to_gp_rel(as_, gs),
{
    assert forall|i: int| 0 <= i < as_.len() implies (#[trigger] gs[i])@ == as_[i].value@ by {
        assert(gp_names_to_ast_rel(gs, as_));
    }
}

proof fn lemma_input_values_round_trip(src: Option<Seq<u8>>, gs: Seq<gp::InputValue>, as_: Seq<ast::InputValueDefinition>)
    requires
        gp_input_values_wf(gs),
        gp_input_values_to_ast_rel(src, gs, as_),
    ensures
        input_value_defs_to_gp_rel(as_, gs),
{
    assert forall|i: int| 0 <= i < as_.len() implies input_value_def_to_gp_rel(as_[i], #[trigger] gs[i]) by {
        let g = gs[i];
        let a = as_[i];
        assert(gp_input_value_to_ast_rel(src, g, a));
        lemma_pos_round_trip(src, a.span, g.position);
        lemma_description_round_trip(g.description, a.description);
        lemma_type_round_trip(g.value_type, a.value_type);
        if g.default_value is Some {
            lemma_value_round_trip(g.default_value->0, a.default_value->0);
        }
        lemma_directives_round_trip(src, g.directives@, a.directives@);
    }
}

proof fn lemma_fields_round_trip(src: Option<Seq<u8>>, gs: Seq<gp::Field>, as_: Seq<ast::FieldDefinition>)
    requires
        gp_fields_wf(gs),
        gp_field_defs_to_ast_rel(src, gs, as_),
    ensures
        field_defs_to_gp_rel(as_, gs),
{
    assert forall|i: int| 0 <= i < as_.len() implies field_def_to_gp_rel(as_[i], #[trigger] gs[i]) by {
        let g = gs[i];
        let a = as_[i];
        assert(gp_field_def_to_ast_rel(src, g, a));
        lemma_pos_round_trip(src, a.span, g.position);
        lemma_description_round_trip(g.description, a.description);
        lemma_input_values_round_trip(src, g.arguments@, a.arguments@);
        lemma_type_round_trip(g.field_type, a.field_type);
        lemma_directives_round_trip(src, g.directives@, a.directives@);
    }
}

proof fn lemma_enum_values_round_trip(src: Option<Seq<u8>>, gs: Seq<gp::EnumValue>, as_: Seq<ast::EnumValueDefinition>)
    requires
        gp_enum_values_wf(gs),
        gp_enum_values_to_ast_rel(src, gs, as_),
    ensures
        enum_value_defs_to_gp_rel(as_, gs),
{
    assert forall|i: int| 0 <= i < as_.len() implies enum_value_def_to_gp_rel(as_[i], #[trigger] gs[i]) by {
        let g = gs[i];
        let a = as_[i];
        assert(gp_enum_value_to_ast_rel(src, g, a));
        lemma_pos_round_trip(src, a.span, g.position);
        lemma_description_round_trip(g.description, a.description);
        lemma_directives_round_trip(src, g.directives@, a.directives@);
    }
}

// ── Definitions ─────────────────────────────────────────────────────

proof fn lemma_type_def_round_trip(src: Option<Seq<u8>>, g: gp::TypeDefinition, a: ast::TypeDefinition)
    requires
        gp_type_def_wf(g),
        gp_type_def_to_ast_rel(src, g, a),
    ensures
        type_def_to_gp_rel(a, g),
{
    match g {
        gp::TypeDefinition::Scalar(s) => {
            let x = a->Scalar_0;
            lemma_pos_round_trip(src, x.span, s.position);
            lemma_directives_round_trip(src, s.directives@, x.directives@);
        },
        gp::TypeDefinition::Object(o) => {
            let x = a->Object_0;
            lemma_pos_round_trip(src, x.span, o.position);
            lemma_directives_round_trip(src, o.directives@, x.directives@);
            lemma_fields_round_trip(src, o.fields@, x.fields@);
            lemma_names_round_trip(o.implements_interfaces@, x.implements@);
        },
        gp::TypeDefinition::Interface(i) => {
            let x = a->Interface_0;
            lemma_pos_round_trip(src, x.span, i.position);
            lemma_directives_round_trip(src, i.directives@, x.directives@);
            lemma_fields_round_trip(src, i.fields@, x.fields@);
            lemma_names_round_trip(i.implements_interfaces@, x.implements@);
        },
        gp::TypeDefinition::Union(u) => {
            let x = a->Union_0;
            lemma_pos_round_trip(src, x.span, u.position);
            lemma_directives_round_trip(src, u.directives@, x.directives@);
            lemma_names_round_trip(u.types@, x.members@);
        },
        gp::TypeDefinition::Enum(e) => {
            let x = a->Enum_0;
            lemma_pos_round_trip(src, x.span, e.position);
            lemma_directives_round_trip(src, e.directives@, x.directives@);
            lemma_enum_values_round_trip(src, e.values@, x.values@);
        },
        gp::TypeDefinition::InputObject(io) => {
            let x = a->InputObject_0;
            lemma_pos_round_trip(src, x.span, io.position);
            lemma_directives_round_trip(src, io.directives@, x.directives@);
            lemma_input_values_round_trip(src, io.fields@, x.fields@);
        },
    }
}

proof fn lemma_type_ext_round_trip(src: Option<Seq<u8>>, g: gp::TypeExtension, a: ast::TypeExtension)
    requires
        gp_type_ext_wf(g),
        gp_type_ext_to_ast_rel(src, g, a),
    ensures
        type_ext_to_gp_rel(a, g),
{
    match g {
        gp::TypeExtension::Scalar(s) => {
            let x = a->Scalar_0;
            lemma_pos_round_trip(src, x.span, s.position);
            lemma_directives_round_trip(src, s.directives@, x.directives@);
        },
        gp::TypeExtension::Object(o) => {
            let x = a->Object_0;
            lemma_pos_round_trip(src, x.span, o.position);
            lemma_directives_round_trip(src, o.directives@, x.directives@);
            lemma_fields_round_trip(src, o.fields@, x.fields@);
            lemma_names_round_trip(o.implements_interfaces@, x.implements@);
        },
        gp::TypeExtension::Interface(i) => {
            let x = a->Interface_0;
            lemma_pos_round_trip(src, x.span, i.position);
            lemma_directives_round_trip(src, i.directives@, x.directives@);
            lemma_fields_round_trip(src, i.fields@, x.fields@);
            lemma_names_round_trip(i.implements_interfaces@, x.implements@);
        },
        gp::TypeExtension::Union(u) => {
            let x = a->Union_0;
            lemma_pos_round_trip(src, x.span, u.position);
            lemma_directives_round_trip(src, u.directives@, x.directives@);
            lemma_names_round_trip(u.types@, x.members@);
        },
        gp::TypeExtension::Enum(e) => {
            let x = a->Enum_0;
            lemma_pos_round_trip(src, x.span, e.position);
            lemma_directives_round_trip(src, e.directives@, x.directives@);
            lemma_enum_values_round_trip(src, e.values@, x.values@);
        },
        gp::TypeExtension::InputObject(io) => {
            let x = a->InputObject_0;
            lemma_pos_round_trip(src, x.span, io.position);
            lemma_directives_round_trip(src, io.directives@, x.directives@);
            lemma_input_values_round_trip(src, io.fields@, x.fields@);
        },
    }
}

/// The last root operation of a kind among the root operations built from
/// a `graphql_parser` schema definition is the one it names.
proof fn lemma_root_ops_round_trip(src: Option<Seq<u8>>, g: gp::SchemaDefinition, a: ast::SchemaDefinition)
    requires
        gp_schema_def_to_ast_rel(src, g, a),
    ensures
        opt_text_rel(g.query, last_root_op(a.root_operations@, ast::OperationKind::Query)),
        opt_text_rel(g.mutation, last_root_op(a.root_operations@, ast::OperationKind::Mutation)),
        opt_text_rel(g.subscription, last_root_op(a.root_operations@, ast::OperationKind::Subscription)),
{
    let ops = a.root_operations@;
    let r = gp_root_ops(g);
    assert(ops.len() == r.len());
    assert forall|i: int| 0 <= i < r.len() implies (#[trigger] ops[i]).operation_kind == r[i].0
        && ops[i].named_type.value@ == r[i].1@ by {}
    reveal_with_fuel(last_root_op, 4);
    if ops.len() >= 1 {
        assert(ops.drop_last().len() == ops.len() - 1);
    }
    if ops.len() >= 2 {
        assert(ops.drop_last().drop_last().len() == ops.len() - 2);
        assert(ops.drop_last().last() == ops[ops.len() - 2]);
    }
    if ops.len() >= 3 {
        assert(ops.drop_last().drop_last().last() == ops[0]);
        assert(ops.drop_last().drop_last().drop_last().len() == 0);
    }
}

proof fn lemma_schema_item_round_trip(src: Option<Seq<u8>>, g: gp::SchemaDefinitionItem, a: ast::Definition)
    requires
        gp_schema_item_wf(g),
        gp_schema_item_to_ast_rel(src, g, a),
    ensures
        is_schema_item(a),
        schema_item_to_gp_rel(a, g),
{
    match g {
        gp::SchemaDefinitionItem::SchemaDefinition(sd) => {
            let x = a->SchemaDefinition_0;
            lemma_pos_round_trip(src, x.span, sd.position);
            lemma_directives_round_trip(src, sd.directives@, x.directives@);
            lemma_root_ops_round_trip(src, sd, x);
        },
        gp::SchemaDefinitionItem::TypeDefinition(td) => {
            lemma_type_def_round_trip(src, td, a->TypeDefinition_0);
        },
        gp::SchemaDefinitionItem::TypeExtension(te) => {
            lemma_type_ext_round_trip(src, te, a->TypeExtension_0);
        },
        gp::SchemaDefinitionItem::DirectiveDefinition(dd) => {
            let x = a->DirectiveDefinition_0;
            lemma_pos_round_trip(src, x.span, dd.position);
            lemma_description_round_trip(dd.description, x.description);
            lemma_input_values_round_trip(src, dd.arguments@, x.arguments@);
            assert forall|i: int| 0 <= i < x.locations.len() implies #[trigger] dd.locations@[i]
                == location_to_gp(x.locations@[i].kind) by {
                assert(x.locations@[i].kind == location_from_gp(dd.locations@[i]));
            }
        },
    }
}

proof fn lemma_schema_items_all(defs: Seq<ast::Definition>)
    requires
        forall|i: int| 0 <= i < defs.len() ==> is_schema_item(#[trigger] defs[i]),
    ensures
        schema_items(defs) == defs,
        schema_extension_spans(defs).len() == 0,
    decreases defs.len(),
{
    if defs.len() > 0 {
        assert(defs.last() == defs[defs.len() - 1]);
        lemma_schema_items_all(defs.drop_last());
        assert(defs.drop_last().push(defs.last()) =~= defs);
    }
}

/// Round trip of schema documents: a schema document that `graphql_parser`
/// could produce, converted to this crate's AST (with or without its source
/// text), converts back without loss. Every definition of the AST has a
/// `graphql_parser` form, the document is that form, and the conversion
/// back reports no error.
pub proof fn lemma_schema_round_trip(src: Option<Seq<u8>>, g: gp::SchemaDocument, a: ast::Document)
    requires
        gp_schema_doc_wf(g),
        gp_schema_doc_to_ast_rel(src, g, a),
    ensures
        schema_items(a.definitions@) == a.definitions@,
        schema_items_to_gp_rel(a.definitions@, g.definitions@),
        schema_extension_spans(a.definitions@).len() == 0,
{
    assert forall|i: int| 0 <= i < a.definitions.len() implies is_schema_item(#[trigger] a.definitions@[i])
        && schema_item_to_gp_rel(a.definitions@[i], g.definitions@[i]) by {
        lemma_schema_item_round_trip(src, g.definitions@[i], a.definitions@[i]);
    }
    lemma_schema_items_all(a.definitions@);
}

// ── Query documents ─────────────────────────────────────────────────

/// A selection set that `graphql_parser` could produce.
pub open spec fn gp_selection_set_wf(ss: gp::SelectionSet) -> bool
    decreases ss,
{
    &&& pos_ok(ss.span.0)
    &&& pos_ok(ss.span.1)
    &&& forall|i: int| 0 <= i < ss.items.len() ==> gp_selection_wf(#[trigger] ss.items@[i])
}

/// A selection that `graphql_parser` could produce: a field without
/// sub-selections has an empty selection set at the field's position.
pub open spec fn gp_selection_wf(s: gp::Selection) -> bool
    decreases s,
{
    match s {
        gp::Selection::Field(f) => pos_ok(f.position) && gp_args_wf(f.arguments@) && gp_directives_wf(
            f.directives@,
        ) && if f.selection_set.items.len() == 0 {
            f.selection_set.span.0 == f.position && f.selection_set.span.1 == f.position
        } else {
            gp_selection_set_wf(f.selection_set)
        },
        gp::Selection::FragmentSpread(fs) => pos_ok(fs.position) && gp_directives_wf(fs.directives@),
        gp::Selection::InlineFragment(inf) => pos_ok(inf.position) && gp_directives_wf(inf.directives@)
            && gp_selection_set_wf(inf.selection_set),
    }
}

/// Variable definitions that `graphql_parser` could produce.
pub open spec fn gp_variable_defs_wf(vds: Seq<gp::VariableDefinition>) -> bool {
    forall|i: int|
        0 <= i < vds.len() ==> pos_ok((#[trigger] vds[i]).position) && gp_type_wf(vds[i].var_type) && gp_default_wf(
            vds[i].default_value,
        )
}

/// The parts of a named operation that `graphql_parser` could produce.
pub open spec fn gp_operation_parts_wf(
    position: gp::Pos,
    vds: Seq<gp::VariableDefinition>,
    dirs: Seq<gp::Directive>,
    ss: gp::SelectionSet,
) -> bool {
    pos_ok(position) && gp_variable_defs_wf(vds) && gp_directives_wf(dirs) && gp_selection_set_wf(ss)
}

/// An operation that `graphql_parser` could produce: a query with no name,
/// variables or directives is written as a bare selection set.
pub open spec fn gp_operation_wf(op: gp::OperationDefinition) -> bool {
    match op {
        gp::OperationDefinition::SelectionSet(ss) => gp_selection_set_wf(ss),
        gp::OperationDefinition::Query(q) => !(q.name is None && q.variable_definitions.len() == 0
            && q.directives.len() == 0) && gp_operation_parts_wf(
            q.position,
            q.variable_definitions@,
            q.directives@,
            q.selection_set,
        ),
        gp::OperationDefinition::Mutation(q) => gp_operation_parts_wf(
            q.position,
            q.variable_definitions@,
            q.directives@,
            q.selection_set,
        ),
        gp::OperationDefinition::Subscription(q) => gp_operation_parts_wf(
            q.position,
            q.variable_definitions@,
            q.directives@,
            q.selection_set,
        ),
    }
}

/// A query definition that `graphql_parser` could produce.
pub open spec fn gp_query_item_wf(d: gp::QueryDefinition) -> bool {
    match d {
        gp::QueryDefinition::Operation(op) => gp_operation_wf(op),
        gp::QueryDefinition::Fragment(fd) => pos_ok(fd.position) && gp_directives_wf(fd.directives@)
            && gp_selection_set_wf(fd.selection_set),
    }
}

/// A query document that `graphql_parser` could produce.
pub open spec fn gp_query_doc_wf(doc: gp::QueryDocument) -> bool {
    forall|i: int| 0 <= i < doc.definitions.len() ==> gp_query_item_wf(#[trigger] doc.definitions@[i])
}

proof fn lemma_selection_set_round_trip(src: Option<Seq<u8>>, g: gp::SelectionSet, a: ast::SelectionSet)
    requires
        gp_selection_set_wf(g),
        gp_selection_set_to_ast_rel(src, g, a),
    ensures
        selection_set_to_gp_rel(a, g),
    decreases g,
{
    assert forall|i: int| 0 <= i < a.selections.len() implies selection_to_gp_rel(
        a.selections@[i],
        #[trigger] g.items@[i],
    ) by {
        assert(decreases_to!(g => g.items));
        assert(decreases_to!(g.items => g.items@));
        assert(decreases_to!(g.items@ => g.items@[i]));
        lemma_selection_round_trip(src, g.items@[i], a.selections@[i]);
    }
}

proof fn lemma_selection_round_trip(src: Option<Seq<u8>>, g: gp::Selection, a: ast::Selection)
    requires
        gp_selection_wf(g),
        gp_selection_to_ast_rel(src, g, a),
    ensures
        selection_to_gp_rel(a, g),
    decreases g,
{
    match g {
        gp::Selection::Field(f) => {
            let x = a->Field_0;
            lemma_pos_round_trip(src, x.span, f.position);
            lemma_args_round_trip(f.arguments@, x.arguments@);
            lemma_directives_round_trip(src, f.directives@, x.directives@);
            if f.selection_set.items.len() != 0 {
                assert(decreases_to!(g => f));
                assert(decreases_to!(f => f.selection_set));
                lemma_selection_set_round_trip(src, f.selection_set, x.selection_set->0);
            }
        },
        gp::Selection::FragmentSpread(fs) => {
            let x = a->FragmentSpread_0;
            lemma_pos_round_trip(src, x.span, fs.position);
            lemma_directives_round_trip(src, fs.directives@, x.directives@);
        },
        gp::Selection::InlineFragment(inf) => {
            let x = a->InlineFragment_0;
            lemma_pos_round_trip(src, x.span, inf.position);
            lemma_directives_round_trip(src, inf.directives@, x.directives@);
            assert(decreases_to!(g => inf));
            assert(decreases_to!(inf => inf.selection_set));
            lemma_selection_set_round_trip(src, inf.selection_set, x.selection_set);
        },
    }
}

proof fn lemma_variable_defs_round_trip(src: Option<Seq<u8>>, gs: Seq<gp::VariableDefinition>, as_: Seq<ast::VariableDefinition>)
    requires
        gp_variable_defs_wf(gs),
        gp_variable_defs_to_ast_rel(src, gs, as_),
    ensures
        variable_defs_to_gp_rel(as_, gs),
        variable_directive_spans(as_).len() == 0,
    decreases as_.len(),
{
    assert forall|i: int| 0 <= i < as_.len() implies variable_def_to_gp_rel(as_[i], #[trigger] gs[i]) by {
        let g = gs[i];
        let a = as_[i];
        assert(gp_variable_def_to_ast_rel(src, g, a));
        lemma_pos_round_trip(src, a.span, g.position);
        lemma_type_round_trip(g.var_type, a.var_type);
        if g.default_value is Some {
            lemma_value_round_trip(g.default_value->0, a.default_value->0);
        }
    }
    if as_.len() > 0 {
        assert(gp_variable_def_to_ast_rel(src, gs.last(), as_.last()));
        lemma_variable_defs_round_trip(src, gs.drop_last(), as_.drop_last());
    }
}

proof fn lemma_operation_parts_round_trip(
    src: Option<Seq<u8>>,
    kind: ast::OperationKind,
    position: gp::Pos,
    name: Option<String>,
    vds: Seq<gp::VariableDefinition>,
    dirs: Seq<gp::Directive>,
    ss: gp::SelectionSet,
    a: ast::OperationDefinition,
)
    requires
        gp_operation_parts_wf(position, vds, dirs, ss),
        gp_operation_parts_rel(src, kind, position, name, vds, dirs, ss, a),
    ensures
        pos_of(position, a.span),
        variable_defs_to_gp_rel(a.variable_definitions@, vds),
        variable_directive_spans(a.variable_definitions@).len() == 0,
        directives_to_gp_rel(a.directives@, dirs),
        selection_set_to_gp_rel(a.selection_set, ss),
{
    lemma_pos_round_trip(src, a.span, position);
    lemma_variable_defs_round_trip(src, vds, a.variable_definitions@);
    lemma_directives_round_trip(src, dirs, a.directives@);
    lemma_selection_set_round_trip(src, ss, a.selection_set);
}

proof fn lemma_operation_round_trip(src: Option<Seq<u8>>, g: gp::OperationDefinition, a: ast::OperationDefinition)
    requires
        gp_operation_wf(g),
        gp_operation_to_ast_rel(src, g, a),
    ensures
        operation_to_gp_rel(a, g),
        variable_directive_spans(a.variable_definitions@).len() == 0,
{
    match g {
        gp::OperationDefinition::SelectionSet(ss) => {
            lemma_selection_set_round_trip(src, ss, a.selection_set);
            assert(a.variable_definitions@ =~= Seq::<ast::VariableDefinition>::empty());
        },
        gp::OperationDefinition::Query(q) => {
            lemma_operation_parts_round_trip(
                src,
                ast::OperationKind::Query,
                q.position,
                q.name,
                q.variable_definitions@,
                q.directives@,
                q.selection_set,
                a,
            );
        },
        gp::OperationDefinition::Mutation(q) => {
            lemma_operation_parts_round_trip(
                src,
                ast::OperationKind::Mutation,
                q.position,
                q.name,
                q.variable_definitions@,
                q.directives@,
                q.selection_set,
                a,
            );
        },
        gp::OperationDefinition::Subscription(q) => {
            lemma_operation_parts_round_trip(
                src,
                ast::OperationKind::Subscription,
                q.position,
                q.name,
                q.variable_definitions@,
                q.directives@,
                q.selection_set,
                a,
            );
        },
    }
}

proof fn lemma_query_item_round_trip(src: Option<Seq<u8>>, g: gp::QueryDefinition, a: ast::Definition)
    requires
        gp_query_item_wf(g),
        gp_query_item_to_ast_rel(src, g, a),
    ensures
        is_query_item(a),
        query_item_to_gp_rel(a, g),
        a matches ast::Definition::OperationDefinition(op) ==> variable_directive_spans(
            op.variable_definitions@,
        ).len() == 0,
{
    match g {
        gp::QueryDefinition::Operation(op) => {
            lemma_operation_round_trip(src, op, a->OperationDefinition_0);
        },
        gp::QueryDefinition::Fragment(fd) => {
            let x = a->FragmentDefinition_0;
            assert(gp_fragment_def_to_ast_rel(src, fd, x));
            lemma_pos_round_trip(src, x.span, fd.position);
            lemma_directives_round_trip(src, fd.directives@, x.directives@);
            lemma_selection_set_round_trip(src, fd.selection_set, x.selection_set);
        },
    }
}

proof fn lemma_query_items_all(defs: Seq<ast::Definition>)
    requires
        forall|i: int| 0 <= i < defs.len() ==> is_query_item(#[trigger] defs[i]),
        forall|i: int|
            0 <= i < defs.len() ==> (#[trigger] defs[i] matches ast::Definition::OperationDefinition(op)
                ==> variable_directive_spans(op.variable_definitions@).len() == 0),
    ensures
        query_items(defs) == defs,
        query_error_spans(defs).len() == 0,
    decreases defs.len(),
{
    if defs.len() > 0 {
        assert(defs.last() == defs[defs.len() - 1]);
        lemma_query_items_all(defs.drop_last());
        assert(defs.drop_last().push(defs.last()) =~= defs);
    }
}

/// Round trip of query documents: a query document that `graphql_parser`
/// could produce, converted to this crate's AST (with or without its source
/// text), converts back without loss. Every definition of the AST has a
/// `graphql_parser` form, the document is that form, and the conversion
/// back reports no error.
pub proof fn lemma_query_round_trip(src: Option<Seq<u8>>, g: gp::QueryDocument, a: ast::Document)
    requires
        gp_query_doc_wf(g),
        gp_query_doc_to_ast_rel(src, g, a),
    ensures
        query_items(a.definitions@) == a.definitions@,
        query_items_to_gp_rel(a.definitions@, g.definitions@),
        query_error_spans(a.definitions@).len() == 0,
{
    assert forall|i: int| 0 <= i < a.definitions.len() implies is_query_item(#[trigger] a.definitions@[i])
        && query_item_to_gp_rel(a.definitions@[i], g.definitions@[i]) && (a.definitions@[i] matches ast::Definition::OperationDefinition(op)
        ==> variable_directive_spans(op.variable_definitions@).len() == 0) by {
        lemma_query_item_round_trip(src, g.definitions@[i], a.definitions@[i]);
    }
    lemma_query_items_all(a.definitions@);
}

} // verus!
