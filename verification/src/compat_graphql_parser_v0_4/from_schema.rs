//! Conversion of a `graphql_parser` schema document to this crate's AST.

use crate::ast;
use crate::compat_graphql_parser_v0_4::from_gp_helpers::gp_description_to_ast;
use crate::compat_graphql_parser_v0_4::from_gp_helpers::gp_description_to_ast_rel;
use crate::compat_graphql_parser_v0_4::from_gp_helpers::gp_directive_location_to_ast;
use crate::compat_graphql_parser_v0_4::from_gp_helpers::gp_directives_to_ast;
use crate::compat_graphql_parser_v0_4::from_gp_helpers::gp_directives_to_ast_rel;
use crate::compat_graphql_parser_v0_4::from_gp_helpers::gp_enum_values_to_ast;
use crate::compat_graphql_parser_v0_4::from_gp_helpers::gp_enum_values_to_ast_rel;
use crate::compat_graphql_parser_v0_4::from_gp_helpers::gp_field_defs_to_ast;
use crate::compat_graphql_parser_v0_4::from_gp_helpers::gp_field_defs_to_ast_rel;
use crate::compat_graphql_parser_v0_4::from_gp_helpers::gp_input_values_to_ast;
use crate::compat_graphql_parser_v0_4::from_gp_helpers::gp_input_values_to_ast_rel;
use crate::compat_graphql_parser_v0_4::from_gp_helpers::gp_names_to_ast;
use crate::compat_graphql_parser_v0_4::from_gp_helpers::gp_names_to_ast_rel;
use crate::compat_graphql_parser_v0_4::from_gp_helpers::is_zero_span;
use crate::compat_graphql_parser_v0_4::from_gp_helpers::location_from_gp;
use crate::compat_graphql_parser_v0_4::from_gp_helpers::name_at;
use crate::compat_graphql_parser_v0_4::from_gp_helpers::name_zero;
use crate::compat_graphql_parser_v0_4::from_gp_helpers::span_at;
use crate::compat_graphql_parser_v0_4::from_gp_helpers::FromGpContext;
use crate::compat_graphql_parser_v0_4::gp;
use vstd::prelude::*;
use vstd::string::StringSliceAdditionalSpecFns;

verus! {

// ── Schema definitions ──────────────────────────────────────────────

/// The root operation types of `sd`, in the order query, mutation,
/// subscription, each where present.
pub open spec fn gp_root_ops(sd: gp::SchemaDefinition) -> Seq<(ast::OperationKind, String)> {
    (if sd.query is Some {
        seq![(ast::OperationKind::Query, sd.query->0)]
    } else {
        Seq::empty()
    }) + (if sd.mutation is Some {
        seq![(ast::OperationKind::Mutation, sd.mutation->0)]
    } else {
        Seq::empty()
    }) + (if sd.subscription is Some {
        seq![(ast::OperationKind::Subscription, sd.subscription->0)]
    } else {
        Seq::empty()
    })
}

/// `a` is the AST form of the `graphql_parser` schema definition `g`: one
/// root operation definition per root operation type, each placed at the
/// schema definition.
pub open spec fn gp_schema_def_to_ast_rel(src: Option<Seq<u8>>, g: gp::SchemaDefinition, a: ast::SchemaDefinition) -> bool {
    &&& a.description is None
    &&& gp_directives_to_ast_rel(src, g.directives@, a.directives@)
    &&& a.root_operations.len() == gp_root_ops(g).len()
    &&& forall|i: int|
        0 <= i < gp_root_ops(g).len() ==> (#[trigger] a.root_operations@[i]).operation_kind == gp_root_ops(
            g,
        )[i].0 && name_zero(a.root_operations@[i].named_type, gp_root_ops(g)[i].1) && span_at(
            src,
            a.root_operations@[i].span,
            g.position,
        )
    &&& span_at(src, a.span, g.position)
}

/// Converts a `graphql_parser` schema definition.
pub fn gp_schema_def_to_ast(sd: &gp::SchemaDefinition, ctx: &FromGpContext) -> (a: ast::SchemaDefinition)
    requires
        ctx.wf(),
    ensures
        gp_schema_def_to_ast_rel(ctx.src(), *sd, a),
{
    let mut root_ops: Vec<ast::RootOperationTypeDefinition> = Vec::new();
    if let Some(name) = &sd.query {
        root_ops.push(
            ast::RootOperationTypeDefinition {
                named_type: ctx.string_to_name(name),
                operation_kind: ast::OperationKind::Query,
                span: ctx.span_from_pos(sd.position),
            },
        );
    }
    if let Some(name) = &sd.mutation {
        root_ops.push(
            ast::RootOperationTypeDefinition {
                named_type: ctx.string_to_name(name),
                operation_kind: ast::OperationKind::Mutation,
                span: ctx.span_from_pos(sd.position),
            },
        );
    }
    if let Some(name) = &sd.subscription {
        root_ops.push(
            ast::RootOperationTypeDefinition {
                named_type: ctx.string_to_name(name),
                operation_kind: ast::OperationKind::Subscription,
                span: ctx.span_from_pos(sd.position),
            },
        );
    }
    assert(root_ops@.len() == gp_root_ops(*sd).len());
    ast::SchemaDefinition {
        description: None,
        directives: gp_directives_to_ast(&sd.directives, ctx),
        root_operations: root_ops,
        span: ctx.span_from_pos(sd.position),
    }
}

// ── Type definitions and extensions ─────────────────────────────────

/// `a` is the AST form of the `graphql_parser` type definition `g`.
pub open spec fn gp_type_def_to_ast_rel(src: Option<Seq<u8>>, g: gp::TypeDefinition, a: ast::TypeDefinition) -> bool {
    match g {
        gp::TypeDefinition::Scalar(s) => a matches ast::TypeDefinition::Scalar(x) && gp_description_to_ast_rel(
            s.description,
            x.description,
        ) && gp_directives_to_ast_rel(src, s.directives@, x.directives@) && name_at(src, x.name, s.name, s.position)
            && span_at(src, x.span, s.position),
        gp::TypeDefinition::Object(o) => a matches ast::TypeDefinition::Object(x) && gp_description_to_ast_rel(
            o.description,
            x.description,
        ) && gp_directives_to_ast_rel(src, o.directives@, x.directives@) && gp_field_defs_to_ast_rel(
            src,
            o.fields@,
            x.fields@,
        ) && gp_names_to_ast_rel(o.implements_interfaces@, x.implements@) && name_at(src, x.name, o.name, o.position)
            && span_at(src, x.span, o.position),
        gp::TypeDefinition::Interface(i) => a matches ast::TypeDefinition::Interface(x)
            && gp_description_to_ast_rel(i.description, x.description) && gp_directives_to_ast_rel(
            src,
            i.directives@,
            x.directives@,
        ) && gp_field_defs_to_ast_rel(src, i.fields@, x.fields@) && gp_names_to_ast_rel(
            i.implements_interfaces@,
            x.implements@,
        ) && name_at(src, x.name, i.name, i.position) && span_at(src, x.span, i.position),
        gp::TypeDefinition::Union(u) => a matches ast::TypeDefinition::Union(x) && gp_description_to_ast_rel(
            u.description,
            x.description,
        ) && gp_directives_to_ast_rel(src, u.directives@, x.directives@) && gp_names_to_ast_rel(
            u.types@,
            x.members@,
        ) && name_at(src, x.name, u.name, u.position) && span_at(src, x.span, u.position),
        gp::TypeDefinition::Enum(e) => a matches ast::TypeDefinition::Enum(x) && gp_description_to_ast_rel(
            e.description,
            x.description,
        ) && gp_directives_to_ast_rel(src, e.directives@, x.directives@) && name_at(src, x.name, e.name, e.position)
            && span_at(src, x.span, e.position) && gp_enum_values_to_ast_rel(src, e.values@, x.values@),
        gp::TypeDefinition::InputObject(io) => a matches ast::TypeDefinition::InputObject(x)
            && gp_description_to_ast_rel(io.description, x.description) && gp_directives_to_ast_rel(
            src,
            io.directives@,
            x.directives@,
        ) && gp_input_values_to_ast_rel(src, io.fields@, x.fields@) && name_at(src, x.name, io.name, io.position)
            && span_at(src, x.span, io.position),
    }
}

/// `a` is the AST form of the `graphql_parser` type extension `g`.
pub open spec fn gp_type_ext_to_ast_rel(src: Option<Seq<u8>>, g: gp::TypeExtension, a: ast::TypeExtension) -> bool {
    match g {
        gp::TypeExtension::Scalar(s) => a matches ast::TypeExtension::Scalar(x) && gp_directives_to_ast_rel(
            src,
            s.directives@,
            x.directives@,
        ) && name_at(src, x.name, s.name, s.position) && span_at(src, x.span, s.position),
        gp::TypeExtension::Object(o) => a matches ast::TypeExtension::Object(x) && gp_directives_to_ast_rel(
            src,
            o.directives@,
            x.directives@,
        ) && gp_field_defs_to_ast_rel(src, o.fields@, x.fields@) && gp_names_to_ast_rel(
            o.implements_interfaces@,
            x.implements@,
        ) && name_at(src, x.name, o.name, o.position) && span_at(src, x.span, o.position),
        gp::TypeExtension::Interface(i) => a matches ast::TypeExtension::Interface(x) && gp_directives_to_ast_rel(
            src,
            i.directives@,
            x.directives@,
        ) && gp_field_defs_to_ast_rel(src, i.fields@, x.fields@) && gp_names_to_ast_rel(
            i.implements_interfaces@,
            x.implements@,
        ) && name_at(src, x.name, i.name, i.position) && span_at(src, x.span, i.position),
        gp::TypeExtension::Union(u) => a matches ast::TypeExtension::Union(x) && gp_directives_to_ast_rel(
            src,
            u.directives@,
            x.directives@,
        ) && gp_names_to_ast_rel(u.types@, x.members@) && name_at(src, x.name, u.name, u.position) && span_at(
            src,
            x.span,
            u.position,
        ),
        gp::TypeExtension::Enum(e) => a matches ast::TypeExtension::Enum(x) && gp_directives_to_ast_rel(
            src,
            e.directives@,
            x.directives@,
        ) && name_at(src, x.name, e.name, e.position) && span_at(src, x.span, e.position)
            && gp_enum_values_to_ast_rel(src, e.values@, x.values@),
        gp::TypeExtension::InputObject(io) => a matches ast::TypeExtension::InputObject(x)
            && gp_directives_to_ast_rel(src, io.directives@, x.directives@) && gp_input_values_to_ast_rel(
            src,
            io.fields@,
            x.fields@,
        ) && name_at(src, x.name, io.name, io.position) && span_at(src, x.span, io.position),
    }
}

/// Converts a `graphql_parser` type definition.
pub fn gp_type_def_to_ast(td: &gp::TypeDefinition, ctx: &FromGpContext) -> (a: ast::TypeDefinition)
    requires
        ctx.wf(),
    ensures
        gp_type_def_to_ast_rel(ctx.src(), *td, a),
{
    match td {
        gp::TypeDefinition::Scalar(s) => ast::TypeDefinition::Scalar(
            ast::ScalarTypeDefinition {
                description: gp_description_to_ast(&s.description, ctx),
                directives: gp_directives_to_ast(&s.directives, ctx),
                name: ctx.string_to_name_at(&s.name, s.position),
                span: ctx.span_from_pos(s.position),
            },
        ),
        gp::TypeDefinition::Object(obj) => ast::TypeDefinition::Object(
            ast::ObjectTypeDefinition {
                description: gp_description_to_ast(&obj.description, ctx),
                directives: gp_directives_to_ast(&obj.directives, ctx),
                fields: gp_field_defs_to_ast(&obj.fields, ctx),
                implements: gp_names_to_ast(&obj.implements_interfaces, ctx),
                name: ctx.string_to_name_at(&obj.name, obj.position),
                span: ctx.span_from_pos(obj.position),
            },
        ),
        gp::TypeDefinition::Interface(iface) => ast::TypeDefinition::Interface(
            ast::InterfaceTypeDefinition {
                description: gp_description_to_ast(&iface.description, ctx),
                directives: gp_directives_to_ast(&iface.directives, ctx),
                fields: gp_field_defs_to_ast(&iface.fields, ctx),
                implements: gp_names_to_ast(&iface.implements_interfaces, ctx),
                name: ctx.string_to_name_at(&iface.name, iface.position),
                span: ctx.span_from_pos(iface.position),
            },
        ),
        gp::TypeDefinition::Union(u) => ast::TypeDefinition::Union(
            ast::UnionTypeDefinition {
                description: gp_description_to_ast(&u.description, ctx),
                directives: gp_directives_to_ast(&u.directives, ctx),
                members: gp_names_to_ast(&u.types, ctx),
                name: ctx.string_to_name_at(&u.name, u.position),
                span: ctx.span_from_pos(u.position),
            },
        ),
        gp::TypeDefinition::Enum(e) => ast::TypeDefinition::Enum(
            ast::EnumTypeDefinition {
                description: gp_description_to_ast(&e.description, ctx),
                directives: gp_directives_to_ast(&e.directives, ctx),
                name: ctx.string_to_name_at(&e.name, e.position),
                span: ctx.span_from_pos(e.position),
                values: gp_enum_values_to_ast(&e.values, ctx),
            },
        ),
        gp::TypeDefinition::InputObject(io) => ast::TypeDefinition::InputObject(
            ast::InputObjectTypeDefinition {
                description: gp_description_to_ast(&io.description, ctx),
                directives: gp_directives_to_ast(&io.directives, ctx),
                fields: gp_input_values_to_ast(&io.fields, ctx),
                name: ctx.string_to_name_at(&io.name, io.position),
                span: ctx.span_from_pos(io.position),
            },
        ),
    }
}

/// Converts a `graphql_parser` type extension.
pub fn gp_type_ext_to_ast(te: &gp::TypeExtension, ctx: &FromGpContext) -> (a: ast::TypeExtension)
    requires
        ctx.wf(),
    ensures
        gp_type_ext_to_ast_rel(ctx.src(), *te, a),
{
    match te {
        gp::TypeExtension::Scalar(s) => ast::TypeExtension::Scalar(
            ast::ScalarTypeExtension {
                directives: gp_directives_to_ast(&s.directives, ctx),
                name: ctx.string_to_name_at(&s.name, s.position),
                span: ctx.span_from_pos(s.position),
            },
        ),
        gp::TypeExtension::Object(obj) => ast::TypeExtension::Object(
            ast::ObjectTypeExtension {
                directives: gp_directives_to_ast(&obj.directives, ctx),
                fields: gp_field_defs_to_ast(&obj.fields, ctx),
                implements: gp_names_to_ast(&obj.implements_interfaces, ctx),
                name: ctx.string_to_name_at(&obj.name, obj.position),
                span: ctx.span_from_pos(obj.position),
            },
        ),
        gp::TypeExtension::Interface(iface) => ast::TypeExtension::Interface(
            ast::InterfaceTypeExtension {
                directives: gp_directives_to_ast(&iface.directives, ctx),
                fields: gp_field_defs_to_ast(&iface.fields, ctx),
                implements: gp_names_to_ast(&iface.implements_interfaces, ctx),
                name: ctx.string_to_name_at(&iface.name, iface.position),
                span: ctx.span_from_pos(iface.position),
            },
        ),
        gp::TypeExtension::Union(u) => ast::TypeExtension::Union(
            ast::UnionTypeExtension {
                directives: gp_directives_to_ast(&u.directives, ctx),
                members: gp_names_to_ast(&u.types, ctx),
                name: ctx.string_to_name_at(&u.name, u.position),
                span: ctx.span_from_pos(u.position),
            },
        ),
        gp::TypeExtension::Enum(e) => ast::TypeExtension::Enum(
            ast::EnumTypeExtension {
                directives: gp_directives_to_ast(&e.directives, ctx),
                name: ctx.string_to_name_at(&e.name, e.position),
                span: ctx.span_from_pos(e.position),
                values: gp_enum_values_to_ast(&e.values, ctx),
            },
        ),
        gp::TypeExtension::InputObject(io) => ast::TypeExtension::InputObject(
            ast::InputObjectTypeExtension {
                directives: gp_directives_to_ast(&io.directives, ctx),
                fields: gp_input_values_to_ast(&io.fields, ctx),
                name: ctx.string_to_name_at(&io.name, io.position),
                span: ctx.span_from_pos(io.position),
            },
        ),
    }
}

// ── Directive definitions ───────────────────────────────────────────

/// `a` is the AST form of the `graphql_parser` directive definition `g`;
/// its locations are placed at the definition.
pub open spec fn gp_directive_def_to_ast_rel(src: Option<Seq<u8>>, g: gp::DirectiveDefinition, a: ast::DirectiveDefinition) -> bool {
    &&& gp_input_values_to_ast_rel(src, g.arguments@, a.arguments@)
    &&& gp_description_to_ast_rel(g.description, a.description)
    &&& a.locations.len() == g.locations.len()
    &&& forall|i: int|
        0 <= i < g.locations.len() ==> (#[trigger] a.locations@[i]).kind == location_from_gp(g.locations@[i])
            && span_at(src, a.locations@[i].span, g.position)
    &&& name_at(src, a.name, g.name, g.position)
    &&& a.repeatable == g.repeatable
    &&& span_at(src, a.span, g.position)
}

/// Converts a `graphql_parser` directive definition.
pub fn gp_directive_def_to_ast(dd: &gp::DirectiveDefinition, ctx: &FromGpContext) -> (a: ast::DirectiveDefinition)
    requires
        ctx.wf(),
    ensures
        gp_directive_def_to_ast_rel(ctx.src(), *dd, a),
{
    let mut locations: Vec<ast::DirectiveLocation> = Vec::new();
    let mut i: usize = 0;
    while i < dd.locations.len()
        invariant
            ctx.wf(),
            i <= dd.locations.len(),
            locations.len() == i,
            forall|k: int|
                0 <= k < i ==> (#[trigger] locations@[k]).kind == location_from_gp(dd.locations@[k]) && span_at(
                    ctx.src(),
                    locations@[k].span,
                    dd.position,
                ),
        decreases dd.locations.len() - i,
    {
        locations.push(
            ast::DirectiveLocation {
                kind: gp_directive_location_to_ast(&dd.locations[i]),
                span: ctx.span_from_pos(dd.position),
            },
        );
        i = i + 1;
    }
    ast::DirectiveDefinition {
        arguments: gp_input_values_to_ast(&dd.arguments, ctx),
        description: gp_description_to_ast(&dd.description, ctx),
        locations,
        name: ctx.string_to_name_at(&dd.name, dd.position),
        repeatable: dd.repeatable,
        span: ctx.span_from_pos(dd.position),
    }
}

// ── Documents ───────────────────────────────────────────────────────

/// `a` is the AST form of the `graphql_parser` schema definition item `g`.
pub open spec fn gp_schema_item_to_ast_rel(src: Option<Seq<u8>>, g: gp::SchemaDefinitionItem, a: ast::Definition) -> bool {
    match g {
        gp::SchemaDefinitionItem::SchemaDefinition(sd) => a matches ast::Definition::SchemaDefinition(x)
            && gp_schema_def_to_ast_rel(src, sd, x),
        gp::SchemaDefinitionItem::TypeDefinition(td) => a matches ast::Definition::TypeDefinition(x)
            && gp_type_def_to_ast_rel(src, td, x),
        gp::SchemaDefinitionItem::TypeExtension(te) => a matches ast::Definition::TypeExtension(x)
            && gp_type_ext_to_ast_rel(src, te, x),
        gp::SchemaDefinitionItem::DirectiveDefinition(dd) => a matches ast::Definition::DirectiveDefinition(x)
            && gp_directive_def_to_ast_rel(src, dd, x),
    }
}

/// `a` is the AST form of the `graphql_parser` schema document `g`: one
/// definition per item, in order, in a document spanning nothing at the
/// origin.
pub open spec fn gp_schema_doc_to_ast_rel(src: Option<Seq<u8>>, g: gp::SchemaDocument, a: ast::Document) -> bool {
    &&& a.definitions.len() == g.definitions.len()
    &&& forall|i: int|
        0 <= i < g.definitions.len() ==> gp_schema_item_to_ast_rel(
            src,
            g.definitions@[i],
            #[trigger] a.definitions@[i],
        )
    &&& is_zero_span(a.span)
    &&& a.syntax is None
}

/// Converts a `graphql_parser` schema document in a context.
pub fn from_gp_schema_impl(doc: &gp::SchemaDocument, ctx: &FromGpContext) -> (a: ast::Document)
    requires
        ctx.wf(),
    ensures
        gp_schema_doc_to_ast_rel(ctx.src(), *doc, a),
{
    let mut definitions: Vec<ast::Definition> = Vec::new();
    let mut i: usize = 0;
    while i < doc.definitions.len()
        invariant
            ctx.wf(),
            i <= doc.definitions.len(),
            definitions.len() == i,
            forall|k: int|
                0 <= k < i ==> gp_schema_item_to_ast_rel(ctx.src(), doc.definitions@[k], #[trigger] definitions@[k]),
        decreases doc.definitions.len() - i,
    {
        let d = match &doc.definitions[i] {
            gp::SchemaDefinitionItem::SchemaDefinition(sd) => ast::Definition::SchemaDefinition(
                gp_schema_def_to_ast(sd, ctx),
            ),
            gp::SchemaDefinitionItem::TypeDefinition(td) => ast::Definition::TypeDefinition(
                gp_type_def_to_ast(td, ctx),
            ),
            gp::SchemaDefinitionItem::TypeExtension(te) => ast::Definition::TypeExtension(
                gp_type_ext_to_ast(te, ctx),
            ),
            gp::SchemaDefinitionItem::DirectiveDefinition(dd) => ast::Definition::DirectiveDefinition(
                gp_directive_def_to_ast(dd, ctx),
            ),
        };
        definitions.push(d);
        i = i + 1;
    }
    ast::Document { definitions, span: ctx.zero_span(), syntax: None }
}

/// Converts a `graphql_parser` schema document to an AST document. Every
/// node gets an empty span at its `graphql_parser` position (or at the
/// origin where it has none) with byte offset 0, and no syntax detail.
pub fn from_graphql_parser_schema_ast(doc: &gp::SchemaDocument) -> (a: ast::Document)
    ensures
        gp_schema_doc_to_ast_rel(None, *doc, a),
{
    let ctx = FromGpContext::without_source();
    from_gp_schema_impl(doc, &ctx)
}

/// Like [`from_graphql_parser_schema_ast`], with byte offsets computed from
/// the source text the document was parsed from.
pub fn from_graphql_parser_schema_ast_with_source(doc: &gp::SchemaDocument, source: &str) -> (a: ast::Document)
    ensures
        gp_schema_doc_to_ast_rel(Some(source.spec_bytes()), *doc, a),
{
    let ctx = FromGpContext::with_source(source);
    from_gp_schema_impl(doc, &ctx)
}

} // verus!
