//! Conversion of a `graphql_parser` query document to this crate's AST.

use crate::ast;
use crate::compat_graphql_parser_v0_4::from_gp_helpers::gp_arguments_to_ast;
use crate::compat_graphql_parser_v0_4::from_gp_helpers::gp_args_to_ast_rel;
use crate::compat_graphql_parser_v0_4::from_gp_helpers::gp_default_to_ast_rel;
use crate::compat_graphql_parser_v0_4::from_gp_helpers::gp_directives_to_ast;
use crate::compat_graphql_parser_v0_4::from_gp_helpers::gp_directives_to_ast_rel;
use crate::compat_graphql_parser_v0_4::from_gp_helpers::gp_type_to_ast;
use crate::compat_graphql_parser_v0_4::from_gp_helpers::gp_type_to_ast_rel;
use crate::compat_graphql_parser_v0_4::from_gp_helpers::gp_value_to_ast;
use crate::compat_graphql_parser_v0_4::from_gp_helpers::is_zero_span;
use crate::compat_graphql_parser_v0_4::from_gp_helpers::name_at;
use crate::compat_graphql_parser_v0_4::from_gp_helpers::name_zero;
use crate::compat_graphql_parser_v0_4::from_gp_helpers::span_at;
use crate::compat_graphql_parser_v0_4::from_gp_helpers::span_between;
use crate::compat_graphql_parser_v0_4::from_gp_helpers::FromGpContext;
use crate::compat_graphql_parser_v0_4::gp;
use vstd::prelude::*;
use vstd::string::StringSliceAdditionalSpecFns;

verus! {

// ── Selections ──────────────────────────────────────────────────────

/// `a` is the AST form of the `graphql_parser` selection set `g`, spanning
/// its two positions.
pub open spec fn gp_selection_set_to_ast_rel(src: Option<Seq<u8>>, g: gp::SelectionSet, a: ast::SelectionSet) -> bool
    decreases g,
{
    &&& span_between(src, a.span, g.span.0, g.span.1)
    &&& a.selections.len() == g.items.len()
    &&& forall|i: int|
        0 <= i < g.items.len() ==> gp_selection_to_ast_rel(src, g.items@[i], #[trigger] a.selections@[i])
}

/// `a` is the AST form of the `graphql_parser` selection `g`. A field whose
/// selection set is empty gets none.
pub open spec fn gp_selection_to_ast_rel(src: Option<Seq<u8>>, g: gp::Selection, a: ast::Selection) -> bool
    decreases g,
{
    match g {
        gp::Selection::Field(f) => a matches ast::Selection::Field(x) && (match f.alias {
            None => x.alias is None,
            Some(s) => x.alias is Some && name_zero(x.alias->0, s),
        }) && gp_args_to_ast_rel(f.arguments@, x.arguments@) && gp_directives_to_ast_rel(
            src,
            f.directives@,
            x.directives@,
        ) && name_at(src, x.name, f.name, f.position) && span_at(src, x.span, f.position) && if f.selection_set.items.len()
            == 0 {
            x.selection_set is None
        } else {
            x.selection_set is Some && gp_selection_set_to_ast_rel(src, f.selection_set, x.selection_set->0)
        },
        gp::Selection::FragmentSpread(fs) => a matches ast::Selection::FragmentSpread(x)
            && gp_directives_to_ast_rel(src, fs.directives@, x.directives@) && name_at(
            src,
            x.name,
            fs.fragment_name,
            fs.position,
        ) && span_at(src, x.span, fs.position),
        gp::Selection::InlineFragment(inf) => a matches ast::Selection::InlineFragment(x)
            && gp_directives_to_ast_rel(src, inf.directives@, x.directives@) && gp_selection_set_to_ast_rel(
            src,
            inf.selection_set,
            x.selection_set,
        ) && span_at(src, x.span, inf.position) && match inf.type_condition {
            None => x.type_condition is None,
            Some(tc) => x.type_condition is Some && gp_type_condition_to_ast_rel(tc, x.type_condition->0),
        },
    }
}

/// `a` is the AST form of the type condition `g`, at the origin.
pub open spec fn gp_type_condition_to_ast_rel(g: gp::TypeCondition, a: ast::TypeCondition) -> bool {
    match g {
        gp::TypeCondition::On(s) => name_zero(a.named_type, s) && is_zero_span(a.span),
    }
}

/// Converts a `graphql_parser` type condition.
pub fn gp_type_condition_to_ast(tc: &gp::TypeCondition, ctx: &FromGpContext) -> (a: ast::TypeCondition)
    ensures
        gp_type_condition_to_ast_rel(*tc, a),
{
    match tc {
        gp::TypeCondition::On(name) => ast::TypeCondition {
            named_type: ctx.string_to_name(name),
            span: ctx.zero_span(),
        },
    }
}

/// Converts a `graphql_parser` selection set.
pub fn gp_selection_set_to_ast(ss: &gp::SelectionSet, ctx: &FromGpContext) -> (a: ast::SelectionSet)
    requires
        ctx.wf(),
    ensures
        gp_selection_set_to_ast_rel(ctx.src(), *ss, a),
    decreases ss,
{
    let mut selections: Vec<ast::Selection> = Vec::new();
    let mut i: usize = 0;
    while i < ss.items.len()
        invariant
            ctx.wf(),
            i <= ss.items.len(),
            selections.len() == i,
            forall|k: int|
                0 <= k < i ==> gp_selection_to_ast_rel(ctx.src(), ss.items@[k], #[trigger] selections@[k]),
        decreases ss.items.len() - i,
    {
        proof {
            assert(decreases_to!(*ss => ss.items));
            assert(decreases_to!(ss.items => ss.items@));
            assert(decreases_to!(ss.items@ => ss.items@[i as int]));
        }
        selections.push(gp_selection_to_ast(&ss.items[i], ctx));
        i = i + 1;
    }
    ast::SelectionSet { selections, span: ctx.span_from_pos_pair(ss.span.0, ss.span.1) }
}

/// Converts a `graphql_parser` selection.
pub fn gp_selection_to_ast(sel: &gp::Selection, ctx: &FromGpContext) -> (a: ast::Selection)
    requires
        ctx.wf(),
    ensures
        gp_selection_to_ast_rel(ctx.src(), *sel, a),
    decreases sel,
{
    match sel {
        gp::Selection::Field(field) => {
            proof {
                assert(decreases_to!(*sel => (*sel)->Field_0));
            }
            ast::Selection::Field(gp_query_field_to_ast(field, ctx))
        },
        gp::Selection::FragmentSpread(spread) => ast::Selection::FragmentSpread(
            gp_fragment_spread_to_ast(spread, ctx),
        ),
        gp::Selection::InlineFragment(inline) => {
            proof {
                assert(decreases_to!(*sel => (*sel)->InlineFragment_0));
            }
            ast::Selection::InlineFragment(gp_inline_fragment_to_ast(inline, ctx))
        },
    }
}

/// Converts a `graphql_parser` field selection; an empty selection set
/// becomes none.
pub fn gp_query_field_to_ast(field: &gp::QueryField, ctx: &FromGpContext) -> (a: ast::Field)
    requires
        ctx.wf(),
    ensures
        gp_selection_to_ast_rel(ctx.src(), gp::Selection::Field(*field), ast::Selection::Field(a)),
    decreases field,
{
    let selection_set = if field.selection_set.items.len() == 0 {
        None
    } else {
        proof {
            assert(decreases_to!(*field => field.selection_set));
        }
        Some(gp_selection_set_to_ast(&field.selection_set, ctx))
    };
    let alias = match &field.alias {
        Some(a) => Some(ctx.string_to_name(a)),
        None => None,
    };
    ast::Field {
        alias,
        arguments: gp_arguments_to_ast(&field.arguments, ctx),
        directives: gp_directives_to_ast(&field.directives, ctx),
        name: ctx.string_to_name_at(&field.name, field.position),
        selection_set,
        span: ctx.span_from_pos(field.position),
    }
}

/// Converts a `graphql_parser` fragment spread.
pub fn gp_fragment_spread_to_ast(spread: &gp::FragmentSpread, ctx: &FromGpContext) -> (a: ast::FragmentSpread)
    requires
        ctx.wf(),
    ensures
        gp_selection_to_ast_rel(
            ctx.src(),
            gp::Selection::FragmentSpread(*spread),
            ast::Selection::FragmentSpread(a),
        ),
{
    ast::FragmentSpread {
        directives: gp_directives_to_ast(&spread.directives, ctx),
        name: ctx.string_to_name_at(&spread.fragment_name, spread.position),
        span: ctx.span_from_pos(spread.position),
    }
}

/// Converts a `graphql_parser` inline fragment.
pub fn gp_inline_fragment_to_ast(inline: &gp::InlineFragment, ctx: &FromGpContext) -> (a: ast::InlineFragment)
    requires
        ctx.wf(),
    ensures
        gp_selection_to_ast_rel(
            ctx.src(),
            gp::Selection::InlineFragment(*inline),
            ast::Selection::InlineFragment(a),
        ),
    decreases inline,
{
    proof {
        assert(decreases_to!(*inline => inline.selection_set));
    }
    let type_condition = match &inline.type_condition {
        Some(tc) => Some(gp_type_condition_to_ast(tc, ctx)),
        None => None,
    };
    ast::InlineFragment {
        directives: gp_directives_to_ast(&inline.directives, ctx),
        selection_set: gp_selection_set_to_ast(&inline.selection_set, ctx),
        span: ctx.span_from_pos(inline.position),
        type_condition,
    }
}

// ── Variable, fragment and operation definitions ────────────────────

/// `a` is the AST form of the `graphql_parser` variable definition `g`,
/// with no description and no directives.
pub open spec fn gp_variable_def_to_ast_rel(src: Option<Seq<u8>>, g: gp::VariableDefinition, a: ast::VariableDefinition) -> bool {
    &&& gp_default_to_ast_rel(g.default_value, a.default_value)
    &&& a.description is None
    &&& a.directives.len() == 0
    &&& span_at(src, a.span, g.position)
    &&& a.syntax is None
    &&& gp_type_to_ast_rel(g.var_type, a.var_type)
    &&& name_at(src, a.variable, g.name, g.position)
}

/// `as_` are the AST forms of the `graphql_parser` variable definitions `gs`.
pub open spec fn gp_variable_defs_to_ast_rel(src: Option<Seq<u8>>, gs: Seq<gp::VariableDefinition>, as_: Seq<ast::VariableDefinition>) -> bool {
    &&& as_.len() == gs.len()
    &&& forall|i: int| 0 <= i < gs.len() ==> gp_variable_def_to_ast_rel(src, gs[i], #[trigger] as_[i])
}

/// Converts a `graphql_parser` variable definition.
pub fn gp_variable_def_to_ast(vd: &gp::VariableDefinition, ctx: &FromGpContext) -> (a: ast::VariableDefinition)
    requires
        ctx.wf(),
    ensures
        gp_variable_def_to_ast_rel(ctx.src(), *vd, a),
{
    let default_value = match &vd.default_value {
        Some(v) => Some(gp_value_to_ast(v, ctx)),
        None => None,
    };
    ast::VariableDefinition {
        default_value,
        description: None,
        directives: Vec::new(),
        span: ctx.span_from_pos(vd.position),
        syntax: None,
        var_type: gp_type_to_ast(&vd.var_type, ctx),
        variable: ctx.string_to_name_at(&vd.name, vd.position),
    }
}

/// Converts `graphql_parser` variable definitions, in order.
pub fn gp_variable_defs_to_ast(vds: &Vec<gp::VariableDefinition>, ctx: &FromGpContext) -> (as_: Vec<ast::VariableDefinition>)
    requires
        ctx.wf(),
    ensures
        gp_variable_defs_to_ast_rel(ctx.src(), vds@, as_@),
{
    let mut out: Vec<ast::VariableDefinition> = Vec::new();
    let mut i: usize = 0;
    while i < vds.len()
        invariant
            ctx.wf(),
            i <= vds.len(),
            out.len() == i,
            forall|k: int| 0 <= k < i ==> gp_variable_def_to_ast_rel(ctx.src(), vds@[k], #[trigger] out@[k]),
        decreases vds.len() - i,
    {
        out.push(gp_variable_def_to_ast(&vds[i], ctx));
        i = i + 1;
    }
    out
}

/// `a` is the AST form of the `graphql_parser` fragment definition `g`.
pub open spec fn gp_fragment_def_to_ast_rel(src: Option<Seq<u8>>, g: gp::FragmentDefinition, a: ast::FragmentDefinition) -> bool {
    &&& a.description is None
    &&& gp_directives_to_ast_rel(src, g.directives@, a.directives@)
    &&& name_at(src, a.name, g.name, g.position)
    &&& gp_selection_set_to_ast_rel(src, g.selection_set, a.selection_set)
    &&& span_at(src, a.span, g.position)
    &&& gp_type_condition_to_ast_rel(g.type_condition, a.type_condition)
}

/// Converts a `graphql_parser` fragment definition.
pub fn gp_fragment_def_to_ast(frag: &gp::FragmentDefinition, ctx: &FromGpContext) -> (a: ast::FragmentDefinition)
    requires
        ctx.wf(),
    ensures
        gp_fragment_def_to_ast_rel(ctx.src(), *frag, a),
{
    ast::FragmentDefinition {
        description: None,
        directives: gp_directives_to_ast(&frag.directives, ctx),
        name: ctx.string_to_name_at(&frag.name, frag.position),
        selection_set: gp_selection_set_to_ast(&frag.selection_set, ctx),
        span: ctx.span_from_pos(frag.position),
        type_condition: gp_type_condition_to_ast(&frag.type_condition, ctx),
    }
}

/// The parts of a named `graphql_parser` operation are carried over to `a`,
/// with the operation's name placed at its position.
pub open spec fn gp_operation_parts_rel(
    src: Option<Seq<u8>>,
    kind: ast::OperationKind,
    position: gp::Pos,
    name: Option<String>,
    vds: Seq<gp::VariableDefinition>,
    dirs: Seq<gp::Directive>,
    ss: gp::SelectionSet,
    a: ast::OperationDefinition,
) -> bool {
    &&& a.description is None
    &&& gp_directives_to_ast_rel(src, dirs, a.directives@)
    &&& match name {
        None => a.name is None,
        Some(n) => a.name is Some && name_at(src, a.name->0, n, position),
    }
    &&& a.operation_kind == kind
    &&& !a.shorthand
    &&& gp_selection_set_to_ast_rel(src, ss, a.selection_set)
    &&& span_at(src, a.span, position)
    &&& gp_variable_defs_to_ast_rel(src, vds, a.variable_definitions@)
}

/// `a` is the AST form of the `graphql_parser` operation `g`: a bare
/// selection set becomes an anonymous query placed at the selection set.
pub open spec fn gp_operation_to_ast_rel(src: Option<Seq<u8>>, g: gp::OperationDefinition, a: ast::OperationDefinition) -> bool {
    match g {
        gp::OperationDefinition::SelectionSet(ss) => {
            &&& a.description is None
            &&& a.directives.len() == 0
            &&& a.name is None
            &&& a.operation_kind == ast::OperationKind::Query
            &&& a.shorthand
            &&& gp_selection_set_to_ast_rel(src, ss, a.selection_set)
            &&& span_at(src, a.span, ss.span.0)
            &&& a.variable_definitions.len() == 0
        },
        gp::OperationDefinition::Query(q) => gp_operation_parts_rel(
            src,
            ast::OperationKind::Query,
            q.position,
            q.name,
            q.variable_definitions@,
            q.directives@,
            q.selection_set,
            a,
        ),
        gp::OperationDefinition::Mutation(q) => gp_operation_parts_rel(
            src,
            ast::OperationKind::Mutation,
            q.position,
            q.name,
            q.variable_definitions@,
            q.directives@,
            q.selection_set,
            a,
        ),
        gp::OperationDefinition::Subscription(q) => gp_operation_parts_rel(
            src,
            ast::OperationKind::Subscription,
            q.position,
            q.name,
            q.variable_definitions@,
            q.directives@,
            q.selection_set,
            a,
        ),
    }
}

/// The name of an operation, placed at its position.
fn gp_operation_name(name: &Option<String>, position: gp::Pos, ctx: &FromGpContext) -> (n: Option<ast::Name>)
    requires
        ctx.wf(),
    ensures
        match *name {
            None => n is None,
            Some(s) => n is Some && name_at(ctx.src(), n->0, s, position),
        },
{
    match name {
        Some(s) => Some(ctx.string_to_name_at(s, position)),
        None => None,
    }
}

/// Converts a `graphql_parser` operation.
pub fn gp_operation_to_ast(op: &gp::OperationDefinition, ctx: &FromGpContext) -> (a: ast::OperationDefinition)
    requires
        ctx.wf(),
    ensures
        gp_operation_to_ast_rel(ctx.src(), *op, a),
{
    match op {
        gp::OperationDefinition::SelectionSet(ss) => ast::OperationDefinition {
            description: None,
            directives: Vec::new(),
            name: None,
            operation_kind: ast::OperationKind::Query,
            selection_set: gp_selection_set_to_ast(ss, ctx),
            shorthand: true,
            span: ctx.span_from_pos(ss.span.0),
            variable_definitions: Vec::new(),
        },
        gp::OperationDefinition::Query(q) => ast::OperationDefinition {
            description: None,
            directives: gp_directives_to_ast(&q.directives, ctx),
            name: gp_operation_name(&q.name, q.position, ctx),
            operation_kind: ast::OperationKind::Query,
            selection_set: gp_selection_set_to_ast(&q.selection_set, ctx),
            shorthand: false,
            span: ctx.span_from_pos(q.position),
            variable_definitions: gp_variable_defs_to_ast(&q.variable_definitions, ctx),
        },
        gp::OperationDefinition::Mutation(m) => ast::OperationDefinition {
            description: None,
            directives: gp_directives_to_ast(&m.directives, ctx),
            name: gp_operation_name(&m.name, m.position, ctx),
            operation_kind: ast::OperationKind::Mutation,
            selection_set: gp_selection_set_to_ast(&m.selection_set, ctx),
            shorthand: false,
            span: ctx.span_from_pos(m.position),
            variable_definitions: gp_variable_defs_to_ast(&m.variable_definitions, ctx),
        },
        gp::OperationDefinition::Subscription(s) => ast::OperationDefinition {
            description: None,
            directives: gp_directives_to_ast(&s.directives, ctx),
            name: gp_operation_name(&s.name, s.position, ctx),
            operation_kind: ast::OperationKind::Subscription,
            selection_set: gp_selection_set_to_ast(&s.selection_set, ctx),
            shorthand: false,
            span: ctx.span_from_pos(s.position),
            variable_definitions: gp_variable_defs_to_ast(&s.variable_definitions, ctx),
        },
    }
}

// ── Documents ───────────────────────────────────────────────────────

/// `a` is the AST form of the `graphql_parser` query definition `g`.
pub open spec fn gp_query_item_to_ast_rel(src: Option<Seq<u8>>, g: gp::QueryDefinition, a: ast::Definition) -> bool {
    match g {
        gp::QueryDefinition::Operation(op) => a matches ast::Definition::OperationDefinition(x)
            && gp_operation_to_ast_rel(src, op, x),
        gp::QueryDefinition::Fragment(fd) => a matches ast::Definition::FragmentDefinition(x)
            && gp_fragment_def_to_ast_rel(src, fd, x),
    }
}

/// `a` is the AST form of the `graphql_parser` query document `g`: one
/// definition per item, in order, in a document spanning nothing at the
/// origin.
pub open spec fn gp_query_doc_to_ast_rel(src: Option<Seq<u8>>, g: gp::QueryDocument, a: ast::Document) -> bool {
    &&& a.definitions.len() == g.definitions.len()
    &&& forall|i: int|
        0 <= i < g.definitions.len() ==> gp_query_item_to_ast_rel(
            src,
            g.definitions@[i],
            #[trigger] a.definitions@[i],
        )
    &&& is_zero_span(a.span)
    &&& a.syntax is None
}

/// Converts a `graphql_parser` query document in a context.
pub fn from_gp_query_impl(doc: &gp::QueryDocument, ctx: &FromGpContext) -> (a: ast::Document)
    requires
        ctx.wf(),
    ensures
        gp_query_doc_to_ast_rel(ctx.src(), *doc, a),
{
    let mut definitions: Vec<ast::Definition> = Vec::new();
    let mut i: usize = 0;
    while i < doc.definitions.len()
        invariant
            ctx.wf(),
            i <= doc.definitions.len(),
            definitions.len() == i,
            forall|k: int|
                0 <= k < i ==> gp_query_item_to_ast_rel(ctx.src(), doc.definitions@[k], #[trigger] definitions@[k]),
        decreases doc.definitions.len() - i,
    {
        let d = match &doc.definitions[i] {
            gp::QueryDefinition::Operation(op) => ast::Definition::OperationDefinition(gp_operation_to_ast(op, ctx)),
            gp::QueryDefinition::Fragment(frag) => ast::Definition::FragmentDefinition(
                gp_fragment_def_to_ast(frag, ctx),
            ),
        };
        definitions.push(d);
        i = i + 1;
    }
    ast::Document { definitions, span: ctx.zero_span(), syntax: None }
}

/// Converts a `graphql_parser` query document to an AST document. Every
/// node gets an empty span at its `graphql_parser` position (or at the
/// origin where it has none) with byte offset 0, and no syntax detail.
pub fn from_graphql_parser_query_ast(doc: &gp::QueryDocument) -> (a: ast::Document)
    ensures
        gp_query_doc_to_ast_rel(None, *doc, a),
{
    let ctx = FromGpContext::without_source();
    from_gp_query_impl(doc, &ctx)
}

/// Like [`from_graphql_parser_query_ast`], with byte offsets computed from
/// the source text the document was parsed from.
pub fn from_graphql_parser_query_ast_with_source(doc: &gp::QueryDocument, source: &str) -> (a: ast::Document)
    ensures
        gp_query_doc_to_ast_rel(Some(source.spec_bytes()), *doc, a),
{
    let ctx = FromGpContext::with_source(source);
    from_gp_query_impl(doc, &ctx)
}

} // verus!
