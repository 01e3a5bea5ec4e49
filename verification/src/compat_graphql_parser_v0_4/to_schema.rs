//! Conversion of this crate's AST to a `graphql_parser` schema document.

use crate::ast;
use crate::compat_graphql_parser_v0_4::gp;
use crate::compat_graphql_parser_v0_4::to_gp_helpers::description_to_gp;
use crate::compat_graphql_parser_v0_4::to_gp_helpers::description_to_gp_rel;
use crate::compat_graphql_parser_v0_4::to_gp_helpers::directive_location_to_gp;
use crate::compat_graphql_parser_v0_4::to_gp_helpers::directives_to_gp;
use crate::compat_graphql_parser_v0_4::to_gp_helpers::directives_to_gp_rel;
use crate::compat_graphql_parser_v0_4::to_gp_helpers::enum_value_defs_to_gp;
use crate::compat_graphql_parser_v0_4::to_gp_helpers::enum_value_defs_to_gp_rel;
use crate::compat_graphql_parser_v0_4::to_gp_helpers::field_defs_to_gp;
use crate::compat_graphql_parser_v0_4::to_gp_helpers::field_defs_to_gp_rel;
use crate::compat_graphql_parser_v0_4::to_gp_helpers::input_value_defs_to_gp;
use crate::compat_graphql_parser_v0_4::to_gp_helpers::input_value_defs_to_gp_rel;
use crate::compat_graphql_parser_v0_4::to_gp_helpers::location_to_gp;
use crate::compat_graphql_parser_v0_4::to_gp_helpers::names_to_gp;
use crate::compat_graphql_parser_v0_4::to_gp_helpers::names_to_gp_rel;
use crate::compat_graphql_parser_v0_4::to_gp_helpers::pos_from_span;
use crate::compat_graphql_parser_v0_4::to_gp_helpers::pos_of;
use crate::graphql_parse_error::GraphQLParseError;
use crate::graphql_parse_error_kind::GraphQLParseErrorKind;
use crate::graphql_source_span::GraphQLSourceSpan;
use crate::parse_result::ParseResult;
use crate::source_map::SourceMap;
use crate::source_map::SourceMapMode;
use vstd::prelude::*;

verus! {

// ── Schema definitions ──────────────────────────────────────────────

/// The name of the last root operation of `ops` with the given kind, if any.
pub open spec fn last_root_op(ops: Seq<ast::RootOperationTypeDefinition>, kind: ast::OperationKind) -> Option<Seq<char>>
    decreases ops.len(),
{
    if ops.len() == 0 {
        None
    } else if ops.last().operation_kind == kind {
        Some(ops.last().named_type.value@)
    } else {
        last_root_op(ops.drop_last(), kind)
    }
}

/// `g` holds the text `s`, if any.
pub open spec fn opt_text_rel(g: Option<String>, s: Option<Seq<char>>) -> bool {
    match s {
        None => g is None,
        Some(t) => g is Some && g->0@ == t,
    }
}

/// `g` is the `graphql_parser` form of the schema definition `sd`: each root
/// operation type is the last one given for its kind.
pub open spec fn schema_def_to_gp_rel(sd: ast::SchemaDefinition, g: gp::SchemaDefinition) -> bool {
    &&& pos_of(g.position, sd.span)
    &&& directives_to_gp_rel(sd.directives@, g.directives@)
    &&& opt_text_rel(g.query, last_root_op(sd.root_operations@, ast::OperationKind::Query))
    &&& opt_text_rel(g.mutation, last_root_op(sd.root_operations@, ast::OperationKind::Mutation))
    &&& opt_text_rel(g.subscription, last_root_op(sd.root_operations@, ast::OperationKind::Subscription))
}

proof fn lemma_last_root_op_step(ops: Seq<ast::RootOperationTypeDefinition>, i: int, kind: ast::OperationKind)
    requires
        0 <= i < ops.len(),
    ensures
        last_root_op(ops.take(i + 1), kind) == if ops[i].operation_kind == kind {
            Some(ops[i].named_type.value@)
        } else {
            last_root_op(ops.take(i), kind)
        },
{
    assert(ops.take(i + 1).drop_last() =~= ops.take(i));
    assert(ops.take(i + 1).last() == ops[i]);
}

/// Converts a schema definition; the root operation types are taken from
/// the root operation definitions, a later one of a kind replacing an
/// earlier one.
pub fn schema_def_to_gp(sd: &ast::SchemaDefinition) -> (g: gp::SchemaDefinition)
    ensures
        schema_def_to_gp_rel(*sd, g),
{
    let mut query: Option<String> = None;
    let mut mutation: Option<String> = None;
    let mut subscription: Option<String> = None;
    let ops = &sd.root_operations;
    let mut i: usize = 0;
    while i < ops.len()
        invariant
            i <= ops.len(),
            opt_text_rel(query, last_root_op(ops@.take(i as int), ast::OperationKind::Query)),
            opt_text_rel(mutation, last_root_op(ops@.take(i as int), ast::OperationKind::Mutation)),
            opt_text_rel(subscription, last_root_op(ops@.take(i as int), ast::OperationKind::Subscription)),
        decreases ops.len() - i,
    {
        proof {
            lemma_last_root_op_step(ops@, i as int, ast::OperationKind::Query);
            lemma_last_root_op_step(ops@, i as int, ast::OperationKind::Mutation);
            lemma_last_root_op_step(ops@, i as int, ast::OperationKind::Subscription);
        }
        let name = ops[i].named_type.value.clone();
        match ops[i].operation_kind {
            ast::OperationKind::Query => {
                query = Some(name);
            },
            ast::OperationKind::Mutation => {
                mutation = Some(name);
            },
            ast::OperationKind::Subscription => {
                subscription = Some(name);
            },
        }
        i = i + 1;
    }
    proof {
        assert(ops@.take(ops@.len() as int) =~= ops@);
    }
    gp::SchemaDefinition {
        position: pos_from_span(&sd.span),
        directives: directives_to_gp(&sd.directives),
        query,
        mutation,
        subscription,
    }
}

// ── Type definitions and extensions ─────────────────────────────────

/// `g` is the `graphql_parser` form of the type definition `td`.
pub open spec fn type_def_to_gp_rel(td: ast::TypeDefinition, g: gp::TypeDefinition) -> bool {
    match td {
        ast::TypeDefinition::Enum(e) => g matches gp::TypeDefinition::Enum(x) && pos_of(x.position, e.span)
            && description_to_gp_rel(e.description, x.description) && x.name@ == e.name.value@
            && directives_to_gp_rel(e.directives@, x.directives@) && enum_value_defs_to_gp_rel(
            e.values@,
            x.values@,
        ),
        ast::TypeDefinition::InputObject(io) => g matches gp::TypeDefinition::InputObject(x) && pos_of(
            x.position,
            io.span,
        ) && description_to_gp_rel(io.description, x.description) && x.name@ == io.name.value@
            && directives_to_gp_rel(io.directives@, x.directives@) && input_value_defs_to_gp_rel(
            io.fields@,
            x.fields@,
        ),
        ast::TypeDefinition::Interface(i) => g matches gp::TypeDefinition::Interface(x) && pos_of(
            x.position,
            i.span,
        ) && description_to_gp_rel(i.description, x.description) && x.name@ == i.name.value@
            && names_to_gp_rel(i.implements@, x.implements_interfaces@) && directives_to_gp_rel(
            i.directives@,
            x.directives@,
        ) && field_defs_to_gp_rel(i.fields@, x.fields@),
        ast::TypeDefinition::Object(o) => g matches gp::TypeDefinition::Object(x) && pos_of(x.position, o.span)
            && description_to_gp_rel(o.description, x.description) && x.name@ == o.name.value@
            && names_to_gp_rel(o.implements@, x.implements_interfaces@) && directives_to_gp_rel(
            o.directives@,
            x.directives@,
        ) && field_defs_to_gp_rel(o.fields@, x.fields@),
        ast::TypeDefinition::Scalar(s) => g matches gp::TypeDefinition::Scalar(x) && pos_of(x.position, s.span)
            && description_to_gp_rel(s.description, x.description) && x.name@ == s.name.value@
            && directives_to_gp_rel(s.directives@, x.directives@),
        ast::TypeDefinition::Union(u) => g matches gp::TypeDefinition::Union(x) && pos_of(x.position, u.span)
            && description_to_gp_rel(u.description, x.description) && x.name@ == u.name.value@
            && directives_to_gp_rel(u.directives@, x.directives@) && names_to_gp_rel(u.members@, x.types@),
    }
}

/// `g` is the `graphql_parser` form of the type extension `te`.
pub open spec fn type_ext_to_gp_rel(te: ast::TypeExtension, g: gp::TypeExtension) -> bool {
    match te {
        ast::TypeExtension::Enum(e) => g matches gp::TypeExtension::Enum(x) && pos_of(x.position, e.span)
            && x.name@ == e.name.value@ && directives_to_gp_rel(e.directives@, x.directives@)
            && enum_value_defs_to_gp_rel(e.values@, x.values@),
        ast::TypeExtension::InputObject(io) => g matches gp::TypeExtension::InputObject(x) && pos_of(
            x.position,
            io.span,
        ) && x.name@ == io.name.value@ && directives_to_gp_rel(io.directives@, x.directives@)
            && input_value_defs_to_gp_rel(io.fields@, x.fields@),
        ast::TypeExtension::Interface(i) => g matches gp::TypeExtension::Interface(x) && pos_of(
            x.position,
            i.span,
        ) && x.name@ == i.name.value@ && names_to_gp_rel(i.implements@, x.implements_interfaces@)
            && directives_to_gp_rel(i.directives@, x.directives@) && field_defs_to_gp_rel(
            i.fields@,
            x.fields@,
        ),
        ast::TypeExtension::Object(o) => g matches gp::TypeExtension::Object(x) && pos_of(x.position, o.span)
            && x.name@ == o.name.value@ && names_to_gp_rel(o.implements@, x.implements_interfaces@)
            && directives_to_gp_rel(o.directives@, x.directives@) && field_defs_to_gp_rel(
            o.fields@,
            x.fields@,
        ),
        ast::TypeExtension::Scalar(s) => g matches gp::TypeExtension::Scalar(x) && pos_of(x.position, s.span)
            && x.name@ == s.name.value@ && directives_to_gp_rel(s.directives@, x.directives@),
        ast::TypeExtension::Union(u) => g matches gp::TypeExtension::Union(x) && pos_of(x.position, u.span)
            && x.name@ == u.name.value@ && directives_to_gp_rel(u.directives@, x.directives@)
            && names_to_gp_rel(u.members@, x.types@),
    }
}

/// Converts a type definition.
pub fn type_def_to_gp(td: &ast::TypeDefinition) -> (g: gp::TypeDefinition)
    ensures
        type_def_to_gp_rel(*td, g),
{
    match td {
        ast::TypeDefinition::Enum(e) => gp::TypeDefinition::Enum(
            gp::EnumType {
                position: pos_from_span(&e.span),
                description: description_to_gp(&e.description),
                name: e.name.value.clone(),
                directives: directives_to_gp(&e.directives),
                values: enum_value_defs_to_gp(&e.values),
            },
        ),
        ast::TypeDefinition::InputObject(io) => gp::TypeDefinition::InputObject(
            gp::InputObjectType {
                position: pos_from_span(&io.span),
                description: description_to_gp(&io.description),
                name: io.name.value.clone(),
                directives: directives_to_gp(&io.directives),
                fields: input_value_defs_to_gp(&io.fields),
            },
        ),
        ast::TypeDefinition::Interface(i) => gp::TypeDefinition::Interface(
            gp::InterfaceType {
                position: pos_from_span(&i.span),
                description: description_to_gp(&i.description),
                name: i.name.value.clone(),
                implements_interfaces: names_to_gp(&i.implements),
                directives: directives_to_gp(&i.directives),
                fields: field_defs_to_gp(&i.fields),
            },
        ),
        ast::TypeDefinition::Object(o) => gp::TypeDefinition::Object(
            gp::ObjectType {
                position: pos_from_span(&o.span),
                description: description_to_gp(&o.description),
                name: o.name.value.clone(),
                implements_interfaces: names_to_gp(&o.implements),
                directives: directives_to_gp(&o.directives),
                fields: field_defs_to_gp(&o.fields),
            },
        ),
        ast::TypeDefinition::Scalar(s) => gp::TypeDefinition::Scalar(
            gp::ScalarType {
                position: pos_from_span(&s.span),
                description: description_to_gp(&s.description),
                name: s.name.value.clone(),
                directives: directives_to_gp(&s.directives),
            },
        ),
        ast::TypeDefinition::Union(u) => gp::TypeDefinition::Union(
            gp::UnionType {
                position: pos_from_span(&u.span),
                description: description_to_gp(&u.description),
                name: u.name.value.clone(),
                directives: directives_to_gp(&u.directives),
                types: names_to_gp(&u.members),
            },
        ),
    }
}

/// Converts a type extension.
pub fn type_ext_to_gp(te: &ast::TypeExtension) -> (g: gp::TypeExtension)
    ensures
        type_ext_to_gp_rel(*te, g),
{
    match te {
        ast::TypeExtension::Enum(e) => gp::TypeExtension::Enum(
            gp::EnumTypeExtension {
                position: pos_from_span(&e.span),
                name: e.name.value.clone(),
                directives: directives_to_gp(&e.directives),
                values: enum_value_defs_to_gp(&e.values),
            },
        ),
        ast::TypeExtension::InputObject(io) => gp::TypeExtension::InputObject(
            gp::InputObjectTypeExtension {
                position: pos_from_span(&io.span),
                name: io.name.value.clone(),
                directives: directives_to_gp(&io.directives),
                fields: input_value_defs_to_gp(&io.fields),
            },
        ),
        ast::TypeExtension::Interface(i) => gp::TypeExtension::Interface(
            gp::InterfaceTypeExtension {
                position: pos_from_span(&i.span),
                name: i.name.value.clone(),
                implements_interfaces: names_to_gp(&i.implements),
                directives: directives_to_gp(&i.directives),
                fields: field_defs_to_gp(&i.fields),
            },
        ),
        ast::TypeExtension::Object(o) => gp::TypeExtension::Object(
            gp::ObjectTypeExtension {
                position: pos_from_span(&o.span),
                name: o.name.value.clone(),
                implements_interfaces: names_to_gp(&o.implements),
                directives: directives_to_gp(&o.directives),
                fields: field_defs_to_gp(&o.fields),
            },
        ),
        ast::TypeExtension::Scalar(s) => gp::TypeExtension::Scalar(
            gp::ScalarTypeExtension {
                position: pos_from_span(&s.span),
                name: s.name.value.clone(),
                directives: directives_to_gp(&s.directives),
            },
        ),
        ast::TypeExtension::Union(u) => gp::TypeExtension::Union(
            gp::UnionTypeExtension {
                position: pos_from_span(&u.span),
                name: u.name.value.clone(),
                directives: directives_to_gp(&u.directives),
                types: names_to_gp(&u.members),
            },
        ),
    }
}

// ── Directive definitions ───────────────────────────────────────────

/// `g` is the `graphql_parser` form of the directive definition `dd`.
pub open spec fn directive_def_to_gp_rel(dd: ast::DirectiveDefinition, g: gp::DirectiveDefinition) -> bool {
    &&& pos_of(g.position, dd.span)
    &&& description_to_gp_rel(dd.description, g.description)
    &&& g.name@ == dd.name.value@
    &&& input_value_defs_to_gp_rel(dd.arguments@, g.arguments@)
    &&& g.repeatable == dd.repeatable
    &&& g.locations.len() == dd.locations.len()
    &&& forall|i: int|
        0 <= i < dd.locations.len() ==> #[trigger] g.locations@[i] == location_to_gp(dd.locations@[i].kind)
}

/// Converts a directive definition.
pub fn directive_def_to_gp(dd: &ast::DirectiveDefinition) -> (g: gp::DirectiveDefinition)
    ensures
        directive_def_to_gp_rel(*dd, g),
{
    let mut locations: Vec<gp::DirectiveLocation> = Vec::new();
    let mut i: usize = 0;
    while i < dd.locations.len()
        invariant
            i <= dd.locations.len(),
            locations.len() == i,
            forall|k: int| 0 <= k < i ==> #[trigger] locations@[k] == location_to_gp(dd.locations@[k].kind),
        decreases dd.locations.len() - i,
    {
        locations.push(directive_location_to_gp(&dd.locations[i].kind));
        i = i + 1;
    }
    gp::DirectiveDefinition {
        position: pos_from_span(&dd.span),
        description: description_to_gp(&dd.description),
        name: dd.name.value.clone(),
        arguments: input_value_defs_to_gp(&dd.arguments),
        repeatable: dd.repeatable,
        locations,
    }
}

// ── Documents ───────────────────────────────────────────────────────

/// A definition that a `graphql_parser` schema document can hold.
pub open spec fn is_schema_item(d: ast::Definition) -> bool {
    ||| d is DirectiveDefinition
    ||| d is SchemaDefinition
    ||| d is TypeDefinition
    ||| d is TypeExtension
}

/// The definitions of `defs` that a schema document can hold, in order.
pub open spec fn schema_items(defs: Seq<ast::Definition>) -> Seq<ast::Definition>
    decreases defs.len(),
{
    if defs.len() == 0 {
        Seq::empty()
    } else if is_schema_item(defs.last()) {
        schema_items(defs.drop_last()).push(defs.last())
    } else {
        schema_items(defs.drop_last())
    }
}

/// The spans of the schema extensions of `defs`, in order.
pub open spec fn schema_extension_spans(defs: Seq<ast::Definition>) -> Seq<GraphQLSourceSpan>
    decreases defs.len(),
{
    if defs.len() == 0 {
        Seq::empty()
    } else {
        match defs.last() {
            ast::Definition::SchemaExtension(se) => schema_extension_spans(defs.drop_last()).push(se.span),
            _ => schema_extension_spans(defs.drop_last()),
        }
    }
}

/// `g` is the `graphql_parser` form of the definition `d`.
pub open spec fn schema_item_to_gp_rel(d: ast::Definition, g: gp::SchemaDefinitionItem) -> bool {
    match d {
        ast::Definition::DirectiveDefinition(dd) => g matches gp::SchemaDefinitionItem::DirectiveDefinition(x)
            && directive_def_to_gp_rel(dd, x),
        ast::Definition::SchemaDefinition(sd) => g matches gp::SchemaDefinitionItem::SchemaDefinition(x)
            && schema_def_to_gp_rel(sd, x),
        ast::Definition::TypeDefinition(td) => g matches gp::SchemaDefinitionItem::TypeDefinition(x)
            && type_def_to_gp_rel(td, x),
        ast::Definition::TypeExtension(te) => g matches gp::SchemaDefinitionItem::TypeExtension(x)
            && type_ext_to_gp_rel(te, x),
        _ => false,
    }
}

/// `gs` are the `graphql_parser` forms of the definitions `ds`, in order.
pub open spec fn schema_items_to_gp_rel(ds: Seq<ast::Definition>, gs: Seq<gp::SchemaDefinitionItem>) -> bool {
    &&& gs.len() == ds.len()
    &&& forall|i: int| 0 <= i < ds.len() ==> schema_item_to_gp_rel(ds[i], #[trigger] gs[i])
}

/// `e` reports, at `span`, that `feature` cannot be represented, with the
/// given message and no notes.
pub open spec fn unsupported_feature_error(
    e: GraphQLParseError,
    message: Seq<char>,
    feature: Seq<char>,
    span: GraphQLSourceSpan,
) -> bool {
    &&& e.spec_message() == message
    &&& e.spec_kind() matches GraphQLParseErrorKind::UnsupportedFeature { feature: f } && f@ == feature
    &&& e.spec_notes().len() == 0
    &&& span.same_as(e.spec_source_span())
}

/// The message of the error for a schema extension.
pub open spec fn schema_extension_message() -> Seq<char> {
    "Schema extensions cannot be represented in graphql_parser v0.4 AST"@
}

/// A conversion result carries an empty pre-computed source map.
pub open spec fn has_empty_source_map<T>(r: ParseResult<'static, T>) -> bool {
    &&& r.spec_source_map()@.mode == (SourceMapMode::Precomputed { entries: Seq::empty() })
    &&& r.spec_source_map()@.file_path is None
}

/// The error for a schema extension at `span`.
fn schema_extension_error(span: &GraphQLSourceSpan) -> (e: GraphQLParseError)
    ensures
        unsupported_feature_error(e, schema_extension_message(), "schema extension"@, *span),
{
    GraphQLParseError::new(
        "Schema extensions cannot be represented in graphql_parser v0.4 AST".to_owned(),
        GraphQLParseErrorKind::UnsupportedFeature { feature: "schema extension".to_owned() },
        span.to_source_span(),
    )
}

proof fn lemma_schema_step(defs: Seq<ast::Definition>, i: int)
    requires
        0 <= i < defs.len(),
    ensures
        schema_items(defs.take(i + 1)) == if is_schema_item(defs[i]) {
            schema_items(defs.take(i)).push(defs[i])
        } else {
            schema_items(defs.take(i))
        },
        schema_extension_spans(defs.take(i + 1)) == match defs[i] {
            ast::Definition::SchemaExtension(se) => schema_extension_spans(defs.take(i)).push(se.span),
            _ => schema_extension_spans(defs.take(i)),
        },
{
    assert(defs.take(i + 1).drop_last() =~= defs.take(i));
    assert(defs.take(i + 1).last() == defs[i]);
}

/// Converts a document to a `graphql_parser` schema document.
///
/// Type system definitions are converted in order; executable definitions
/// are skipped; each schema extension, which `graphql_parser` cannot hold,
/// is dropped and reported by an `UnsupportedFeature` error. The result is
/// successful exactly when the document has no schema extension.
pub fn to_graphql_parser_schema_ast(doc: &ast::Document) -> (r: ParseResult<'static, gp::SchemaDocument>)
    ensures
        r.wf(),
        has_empty_source_map(r),
        schema_items_to_gp_rel(schema_items(doc.definitions@), r.spec_ast().definitions@),
        r.spec_errors().len() == schema_extension_spans(doc.definitions@).len(),
        forall|k: int|
            0 <= k < r.spec_errors().len() ==> unsupported_feature_error(
                #[trigger] r.spec_errors()[k],
                schema_extension_message(),
                "schema extension"@,
                schema_extension_spans(doc.definitions@)[k],
            ),
        r is Success <==> schema_extension_spans(doc.definitions@).len() == 0,
{
    let mut errors: Vec<GraphQLParseError> = Vec::new();
    let mut definitions: Vec<gp::SchemaDefinitionItem> = Vec::new();
    let defs = &doc.definitions;
    let mut i: usize = 0;
    while i < defs.len()
        invariant
            i <= defs.len(),
            schema_items_to_gp_rel(schema_items(defs@.take(i as int)), definitions@),
            errors.len() == schema_extension_spans(defs@.take(i as int)).len(),
            forall|k: int|
                0 <= k < errors.len() ==> unsupported_feature_error(
                    #[trigger] errors@[k],
                    schema_extension_message(),
                    "schema extension"@,
                    schema_extension_spans(defs@.take(i as int))[k],
                ),
        decreases defs.len() - i,
    {
        proof {
            lemma_schema_step(defs@, i as int);
        }
        match &defs[i] {
            ast::Definition::DirectiveDefinition(dd) => {
                definitions.push(gp::SchemaDefinitionItem::DirectiveDefinition(directive_def_to_gp(dd)));
            },
            ast::Definition::SchemaDefinition(sd) => {
                definitions.push(gp::SchemaDefinitionItem::SchemaDefinition(schema_def_to_gp(sd)));
            },
            ast::Definition::SchemaExtension(se) => {
                errors.push(schema_extension_error(&se.span));
            },
            ast::Definition::TypeDefinition(td) => {
                definitions.push(gp::SchemaDefinitionItem::TypeDefinition(type_def_to_gp(td)));
            },
            ast::Definition::TypeExtension(te) => {
                definitions.push(gp::SchemaDefinitionItem::TypeExtension(type_ext_to_gp(te)));
            },
            ast::Definition::FragmentDefinition(_) | ast::Definition::OperationDefinition(_) => {},
        }
        i = i + 1;
    }
    proof {
        assert(defs@.take(defs@.len() as int) =~= defs@);
    }
    let gp_doc = gp::SchemaDocument { definitions };
    if errors.len() == 0 {
        ParseResult::new_ok(gp_doc, SourceMap::new_precomputed(None))
    } else {
        ParseResult::new_recovered(gp_doc, errors, SourceMap::new_precomputed(None))
    }
}

} // verus!
