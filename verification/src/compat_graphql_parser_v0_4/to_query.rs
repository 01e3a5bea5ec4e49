//! Conversion of this crate's AST to a `graphql_parser` query document.

use crate::ast;
use crate::compat_graphql_parser_v0_4::gp;
use crate::compat_graphql_parser_v0_4::to_gp_helpers::arguments_to_gp;
use crate::compat_graphql_parser_v0_4::to_gp_helpers::args_to_gp_rel;
use crate::compat_graphql_parser_v0_4::to_gp_helpers::default_to_gp_rel;
use crate::compat_graphql_parser_v0_4::to_gp_helpers::directives_to_gp;
use crate::compat_graphql_parser_v0_4::to_gp_helpers::directives_to_gp_rel;
use crate::compat_graphql_parser_v0_4::to_gp_helpers::pos_from_position;
use crate::compat_graphql_parser_v0_4::to_gp_helpers::pos_from_span;
use crate::compat_graphql_parser_v0_4::to_gp_helpers::pos_is;
use crate::compat_graphql_parser_v0_4::to_gp_helpers::pos_of;
use crate::compat_graphql_parser_v0_4::to_gp_helpers::type_annotation_to_gp;
use crate::compat_graphql_parser_v0_4::to_gp_helpers::type_to_gp_rel;
use crate::compat_graphql_parser_v0_4::to_gp_helpers::value_to_gp;
use crate::compat_graphql_parser_v0_4::to_schema::has_empty_source_map;
use crate::compat_graphql_parser_v0_4::to_schema::unsupported_feature_error;
use crate::graphql_parse_error::GraphQLParseError;
use crate::graphql_parse_error_kind::GraphQLParseErrorKind;
use crate::graphql_source_span::GraphQLSourceSpan;
use crate::parse_result::ParseResult;
use crate::source_map::SourceMap;
use vstd::prelude::*;

verus! {

// ── Selections ──────────────────────────────────────────────────────

/// `g` holds the text of the name `n`, if any.
pub open spec fn opt_name_rel(n: Option<ast::Name>, g: Option<String>) -> bool {
    match n {
        None => g is None,
        Some(x) => g is Some && g->0@ == x.value@,
    }
}

/// `g` is the `graphql_parser` form of the selection set `ss`: its span runs
/// from the start to the end of `ss`, and its items are the forms of the
/// selections, in order.
pub open spec fn selection_set_to_gp_rel(ss: ast::SelectionSet, g: gp::SelectionSet) -> bool
    decreases ss,
{
    &&& pos_is(g.span.0, ss.span.start_inclusive)
    &&& pos_is(g.span.1, ss.span.end_exclusive)
    &&& g.items.len() == ss.selections.len()
    &&& forall|i: int|
        0 <= i < ss.selections.len() ==> selection_to_gp_rel(ss.selections@[i], #[trigger] g.items@[i])
}

/// `g` is the `graphql_parser` form of the selection `s`. A field without a
/// selection set gets an empty one positioned at the field.
pub open spec fn selection_to_gp_rel(s: ast::Selection, g: gp::Selection) -> bool
    decreases s,
{
    match s {
        ast::Selection::Field(f) => g matches gp::Selection::Field(x) && pos_of(x.position, f.span) && opt_name_rel(
            f.alias,
            x.alias,
        ) && x.name@ == f.name.value@ && args_to_gp_rel(f.arguments@, x.arguments@) && directives_to_gp_rel(
            f.directives@,
            x.directives@,
        ) && match f.selection_set {
            Some(ss) => selection_set_to_gp_rel(ss, x.selection_set),
            None => pos_of(x.selection_set.span.0, f.span) && pos_of(x.selection_set.span.1, f.span)
                && x.selection_set.items.len() == 0,
        },
        ast::Selection::FragmentSpread(fs) => g matches gp::Selection::FragmentSpread(x) && pos_of(
            x.position,
            fs.span,
        ) && x.fragment_name@ == fs.name.value@ && directives_to_gp_rel(fs.directives@, x.directives@),
        ast::Selection::InlineFragment(inf) => g matches gp::Selection::InlineFragment(x) && pos_of(
            x.position,
            inf.span,
        ) && type_condition_opt_rel(inf.type_condition, x.type_condition) && directives_to_gp_rel(
            inf.directives@,
            x.directives@,
        ) && selection_set_to_gp_rel(inf.selection_set, x.selection_set),
    }
}

/// `g` is the `graphql_parser` form of the type condition `tc`.
pub open spec fn type_condition_rel(tc: ast::TypeCondition, g: gp::TypeCondition) -> bool {
    g matches gp::TypeCondition::On(s) && s@ == tc.named_type.value@
}

/// `g` is the `graphql_parser` form of the type condition `tc`, if any.
pub open spec fn type_condition_opt_rel(tc: Option<ast::TypeCondition>, g: Option<gp::TypeCondition>) -> bool {
    match tc {
        None => g is None,
        Some(t) => g is Some && type_condition_rel(t, g->0),
    }
}

/// Converts a type condition.
pub fn type_condition_to_gp(tc: &ast::TypeCondition) -> (g: gp::TypeCondition)
    ensures
        type_condition_rel(*tc, g),
{
    gp::TypeCondition::On(tc.named_type.value.clone())
}

/// Converts a selection set.
pub fn selection_set_to_gp(ss: &ast::SelectionSet) -> (g: gp::SelectionSet)
    ensures
        selection_set_to_gp_rel(*ss, g),
    decreases ss,
{
    let mut items: Vec<gp::Selection> = Vec::new();
    let mut i: usize = 0;
    while i < ss.selections.len()
        invariant
            i <= ss.selections.len(),
            items.len() == i,
            forall|k: int| 0 <= k < i ==> selection_to_gp_rel(ss.selections@[k], #[trigger] items@[k]),
        decreases ss.selections.len() - i,
    {
        proof {
            assert(decreases_to!(*ss => ss.selections));
            assert(decreases_to!(ss.selections => ss.selections@));
            assert(decreases_to!(ss.selections@ => ss.selections@[i as int]));
        }
        items.push(selection_to_gp(&ss.selections[i]));
        i = i + 1;
    }
    gp::SelectionSet {
        span: (pos_from_span(&ss.span), pos_from_position(&ss.span.end_exclusive)),
        items,
    }
}

/// Converts a selection.
pub fn selection_to_gp(sel: &ast::Selection) -> (g: gp::Selection)
    ensures
        selection_to_gp_rel(*sel, g),
    decreases sel,
{
    match sel {
        ast::Selection::Field(field) => {
            proof {
                assert(decreases_to!(*sel => (*sel)->Field_0));
            }
            gp::Selection::Field(query_field_to_gp(field))
        },
        ast::Selection::FragmentSpread(frag_spread) => gp::Selection::FragmentSpread(
            fragment_spread_to_gp(frag_spread),
        ),
        ast::Selection::InlineFragment(inline_frag) => {
            proof {
                assert(decreases_to!(*sel => (*sel)->InlineFragment_0));
            }
            gp::Selection::InlineFragment(inline_fragment_to_gp(inline_frag))
        },
    }
}

/// Converts a field selection.
pub fn query_field_to_gp(field: &ast::Field) -> (g: gp::QueryField)
    ensures
        selection_to_gp_rel(ast::Selection::Field(*field), gp::Selection::Field(g)),
    decreases field,
{
    let alias = match &field.alias {
        Some(a) => Some(a.value.clone()),
        None => None,
    };
    let selection_set = match &field.selection_set {
        Some(ss) => {
            proof {
                assert(decreases_to!(*field => field.selection_set));
                assert(decreases_to!(field.selection_set => field.selection_set->Some_0));
            }
            selection_set_to_gp(ss)
        },
        None => gp::SelectionSet {
            span: (pos_from_span(&field.span), pos_from_span(&field.span)),
            items: Vec::new(),
        },
    };
    gp::QueryField {
        position: pos_from_span(&field.span),
        alias,
        name: field.name.value.clone(),
        arguments: arguments_to_gp(&field.arguments),
        directives: directives_to_gp(&field.directives),
        selection_set,
    }
}

/// Converts a fragment spread.
pub fn fragment_spread_to_gp(fs: &ast::FragmentSpread) -> (g: gp::FragmentSpread)
    ensures
        selection_to_gp_rel(ast::Selection::FragmentSpread(*fs), gp::Selection::FragmentSpread(g)),
{
    gp::FragmentSpread {
        position: pos_from_span(&fs.span),
        fragment_name: fs.name.value.clone(),
        directives: directives_to_gp(&fs.directives),
    }
}

/// Converts an inline fragment.
pub fn inline_fragment_to_gp(inf: &ast::InlineFragment) -> (g: gp::InlineFragment)
    ensures
        selection_to_gp_rel(ast::Selection::InlineFragment(*inf), gp::Selection::InlineFragment(g)),
    decreases inf,
{
    let type_condition = match &inf.type_condition {
        Some(tc) => Some(type_condition_to_gp(tc)),
        None => None,
    };
    proof {
        assert(decreases_to!(*inf => inf.selection_set));
    }
    gp::InlineFragment {
        position: pos_from_span(&inf.span),
        type_condition,
        directives: directives_to_gp(&inf.directives),
        selection_set: selection_set_to_gp(&inf.selection_set),
    }
}

// ── Variable, fragment and operation definitions ────────────────────

/// `g` is the `graphql_parser` form of the variable definition `vd` (which
/// has no place for directives).
pub open spec fn variable_def_to_gp_rel(vd: ast::VariableDefinition, g: gp::VariableDefinition) -> bool {
    &&& pos_of(g.position, vd.span)
    &&& g.name@ == vd.variable.value@
    &&& type_to_gp_rel(vd.var_type, g.var_type)
    &&& default_to_gp_rel(vd.default_value, g.default_value)
}

/// `gs` are the `graphql_parser` forms of the variable definitions `vds`.
pub open spec fn variable_defs_to_gp_rel(vds: Seq<ast::VariableDefinition>, gs: Seq<gp::VariableDefinition>) -> bool {
    &&& gs.len() == vds.len()
    &&& forall|i: int| 0 <= i < vds.len() ==> variable_def_to_gp_rel(vds[i], #[trigger] gs[i])
}

/// The spans of the variable definitions of `vds` that carry directives.
pub open spec fn variable_directive_spans(vds: Seq<ast::VariableDefinition>) -> Seq<GraphQLSourceSpan>
    decreases vds.len(),
{
    if vds.len() == 0 {
        Seq::empty()
    } else if vds.last().directives.len() > 0 {
        variable_directive_spans(vds.drop_last()).push(vds.last().span)
    } else {
        variable_directive_spans(vds.drop_last())
    }
}

/// The message of the error for a variable definition with directives.
pub open spec fn variable_directives_message() -> Seq<char> {
    "Variable directives cannot be represented in graphql_parser v0.4 AST"@
}

/// `es` are the errors for variable directives at `spans`, in order.
pub open spec fn variable_directive_errors(es: Seq<GraphQLParseError>, spans: Seq<GraphQLSourceSpan>) -> bool {
    &&& es.len() == spans.len()
    &&& forall|k: int|
        0 <= k < es.len() ==> unsupported_feature_error(
            #[trigger] es[k],
            variable_directives_message(),
            "variable directives"@,
            spans[k],
        )
}

/// Converts a variable definition. Its directives, which `graphql_parser`
/// cannot hold, are dropped and reported by an `UnsupportedFeature` error.
pub fn variable_def_to_gp(vd: &ast::VariableDefinition, errors: &mut Vec<GraphQLParseError>) -> (g:
    gp::VariableDefinition)
    ensures
        variable_def_to_gp_rel(*vd, g),
        vd.directives.len() == 0 ==> final(errors)@ == old(errors)@,
        vd.directives.len() > 0 ==> final(errors)@.len() == old(errors)@.len() + 1 && final(errors)@.drop_last()
            == old(errors)@ && unsupported_feature_error(
            final(errors)@.last(),
            variable_directives_message(),
            "variable directives"@,
            vd.span,
        ),
{
    if vd.directives.len() > 0 {
        errors.push(
            GraphQLParseError::new(
                "Variable directives cannot be represented in graphql_parser v0.4 AST".to_owned(),
                GraphQLParseErrorKind::UnsupportedFeature { feature: "variable directives".to_owned() },
                vd.span.to_source_span(),
            ),
        );
        proof {
            assert(errors@.drop_last() =~= old(errors)@);
        }
    }
    let default_value = match &vd.default_value {
        Some(v) => Some(value_to_gp(v)),
        None => None,
    };
    gp::VariableDefinition {
        position: pos_from_span(&vd.span),
        name: vd.variable.value.clone(),
        var_type: type_annotation_to_gp(&vd.var_type),
        default_value,
    }
}

/// `g` is the `graphql_parser` form of the fragment definition `fd`.
pub open spec fn fragment_def_to_gp_rel(fd: ast::FragmentDefinition, g: gp::FragmentDefinition) -> bool {
    &&& pos_of(g.position, fd.span)
    &&& g.name@ == fd.name.value@
    &&& type_condition_rel(fd.type_condition, g.type_condition)
    &&& directives_to_gp_rel(fd.directives@, g.directives@)
    &&& selection_set_to_gp_rel(fd.selection_set, g.selection_set)
}

/// Converts a fragment definition.
pub fn fragment_def_to_gp(fd: &ast::FragmentDefinition) -> (g: gp::FragmentDefinition)
    ensures
        fragment_def_to_gp_rel(*fd, g),
{
    gp::FragmentDefinition {
        position: pos_from_span(&fd.span),
        name: fd.name.value.clone(),
        type_condition: type_condition_to_gp(&fd.type_condition),
        directives: directives_to_gp(&fd.directives),
        selection_set: selection_set_to_gp(&fd.selection_set),
    }
}

/// A query with no name, variables or directives, which `graphql_parser`
/// writes as a bare selection set.
pub open spec fn is_shorthand(op: ast::OperationDefinition) -> bool {
    &&& op.operation_kind == ast::OperationKind::Query
    &&& op.name is None
    &&& op.variable_definitions.len() == 0
    &&& op.directives.len() == 0
}

/// The parts of a named operation are the forms of those of `op`.
pub open spec fn operation_parts_rel(
    op: ast::OperationDefinition,
    position: gp::Pos,
    name: Option<String>,
    vds: Seq<gp::VariableDefinition>,
    dirs: Seq<gp::Directive>,
    ss: gp::SelectionSet,
) -> bool {
    &&& pos_of(position, op.span)
    &&& opt_name_rel(op.name, name)
    &&& variable_defs_to_gp_rel(op.variable_definitions@, vds)
    &&& directives_to_gp_rel(op.directives@, dirs)
    &&& selection_set_to_gp_rel(op.selection_set, ss)
}

/// `g` is the `graphql_parser` form of the operation `op`: a shorthand
/// query becomes a bare selection set, any other operation the variant of
/// its kind.
pub open spec fn operation_to_gp_rel(op: ast::OperationDefinition, g: gp::OperationDefinition) -> bool {
    if is_shorthand(op) {
        g matches gp::OperationDefinition::SelectionSet(ss) && selection_set_to_gp_rel(op.selection_set, ss)
    } else {
        match op.operation_kind {
            ast::OperationKind::Query => g matches gp::OperationDefinition::Query(q) && operation_parts_rel(
                op,
                q.position,
                q.name,
                q.variable_definitions@,
                q.directives@,
                q.selection_set,
            ),
            ast::OperationKind::Mutation => g matches gp::OperationDefinition::Mutation(q)
                && operation_parts_rel(
                op,
                q.position,
                q.name,
                q.variable_definitions@,
                q.directives@,
                q.selection_set,
            ),
            ast::OperationKind::Subscription => g matches gp::OperationDefinition::Subscription(q)
                && operation_parts_rel(
                op,
                q.position,
                q.name,
                q.variable_definitions@,
                q.directives@,
                q.selection_set,
            ),
        }
    }
}

proof fn lemma_variable_spans_step(vds: Seq<ast::VariableDefinition>, i: int)
    requires
        0 <= i < vds.len(),
    ensures
        variable_directive_spans(vds.take(i + 1)) == if vds[i].directives.len() > 0 {
            variable_directive_spans(vds.take(i)).push(vds[i].span)
        } else {
            variable_directive_spans(vds.take(i))
        },
{
    assert(vds.take(i + 1).drop_last() =~= vds.take(i));
    assert(vds.take(i + 1).last() == vds[i]);
}

/// Converts an operation definition; errors for variable directives are
/// appended to `errors`, in the order of the variable definitions.
pub fn operation_def_to_gp(op: &ast::OperationDefinition, errors: &mut Vec<GraphQLParseError>) -> (g:
    gp::OperationDefinition)
    ensures
        operation_to_gp_rel(*op, g),
        final(errors)@.len() >= old(errors)@.len(),
        final(errors)@.take(old(errors)@.len() as int) == old(errors)@,
        variable_directive_errors(
            final(errors)@.skip(old(errors)@.len() as int),
            variable_directive_spans(op.variable_definitions@),
        ),
{
    let ghost e0 = errors@;
    let vds = &op.variable_definitions;
    let mut var_defs: Vec<gp::VariableDefinition> = Vec::new();
    let mut i: usize = 0;
    proof {
        assert(errors@.skip(e0.len() as int) =~= Seq::<GraphQLParseError>::empty());
        assert(errors@.take(e0.len() as int) =~= e0);
    }
    while i < vds.len()
        invariant
            i <= vds.len(),
            var_defs.len() == i,
            forall|k: int| 0 <= k < i ==> variable_def_to_gp_rel(vds@[k], #[trigger] var_defs@[k]),
            errors@.len() >= e0.len(),
            errors@.take(e0.len() as int) == e0,
            variable_directive_errors(
                errors@.skip(e0.len() as int),
                variable_directive_spans(vds@.take(i as int)),
            ),
        decreases vds.len() - i,
    {
        proof {
            lemma_variable_spans_step(vds@, i as int);
        }
        let ghost before = errors@;
        let g = variable_def_to_gp(&vds[i], errors);
        proof {
            if vds@[i as int].directives.len() > 0 {
                assert(errors@.skip(e0.len() as int) =~= before.skip(e0.len() as int).push(errors@.last()));
                assert(errors@.take(e0.len() as int) =~= before.take(e0.len() as int));
            }
        }
        var_defs.push(g);
        i = i + 1;
    }
    proof {
        assert(vds@.take(vds@.len() as int) =~= vds@);
    }
    let sel_set = selection_set_to_gp(&op.selection_set);
    let dirs = directives_to_gp(&op.directives);
    let pos = pos_from_span(&op.span);
    let name = match &op.name {
        Some(n) => Some(n.value.clone()),
        None => None,
    };
    let shorthand = match op.operation_kind {
        ast::OperationKind::Query => true,
        _ => false,
    } && name.is_none() && op.variable_definitions.len() == 0 && op.directives.len() == 0;
    if shorthand {
        return gp::OperationDefinition::SelectionSet(sel_set);
    }
    match op.operation_kind {
        ast::OperationKind::Query => gp::OperationDefinition::Query(
            gp::Query {
                position: pos,
                name,
                variable_definitions: var_defs,
                directives: dirs,
                selection_set: sel_set,
            },
        ),
        ast::OperationKind::Mutation => gp::OperationDefinition::Mutation(
            gp::Mutation {
                position: pos,
                name,
                variable_definitions: var_defs,
                directives: dirs,
                selection_set: sel_set,
            },
        ),
        ast::OperationKind::Subscription => gp::OperationDefinition::Subscription(
            gp::Subscription {
                position: pos,
                name,
                variable_definitions: var_defs,
                directives: dirs,
                selection_set: sel_set,
            },
        ),
    }
}

// ── Documents ───────────────────────────────────────────────────────

/// A definition that a `graphql_parser` query document can hold.
pub open spec fn is_query_item(d: ast::Definition) -> bool {
    d is FragmentDefinition || d is OperationDefinition
}

/// The definitions of `defs` that a query document can hold, in order.
pub open spec fn query_items(defs: Seq<ast::Definition>) -> Seq<ast::Definition>
    decreases defs.len(),
{
    if defs.len() == 0 {
        Seq::empty()
    } else if is_query_item(defs.last()) {
        query_items(defs.drop_last()).push(defs.last())
    } else {
        query_items(defs.drop_last())
    }
}

/// The spans of the variable definitions with directives in the operations
/// of `defs`, in order.
pub open spec fn query_error_spans(defs: Seq<ast::Definition>) -> Seq<GraphQLSourceSpan>
    decreases defs.len(),
{
    if defs.len() == 0 {
        Seq::empty()
    } else {
        match defs.last() {
            ast::Definition::OperationDefinition(op) => query_error_spans(defs.drop_last())
                + variable_directive_spans(op.variable_definitions@),
            _ => query_error_spans(defs.drop_last()),
        }
    }
}

/// `g` is the `graphql_parser` form of the definition `d`.
pub open spec fn query_item_to_gp_rel(d: ast::Definition, g: gp::QueryDefinition) -> bool {
    match d {
        ast::Definition::FragmentDefinition(fd) => g matches gp::QueryDefinition::Fragment(x)
            && fragment_def_to_gp_rel(fd, x),
        ast::Definition::OperationDefinition(op) => g matches gp::QueryDefinition::Operation(x)
            && operation_to_gp_rel(op, x),
        _ => false,
    }
}

/// `gs` are the `graphql_parser` forms of the definitions `ds`, in order.
pub open spec fn query_items_to_gp_rel(ds: Seq<ast::Definition>, gs: Seq<gp::QueryDefinition>) -> bool {
    &&& gs.len() == ds.len()
    &&& forall|i: int| 0 <= i < ds.len() ==> query_item_to_gp_rel(ds[i], #[trigger] gs[i])
}

proof fn lemma_query_step(defs: Seq<ast::Definition>, i: int)
    requires
        0 <= i < defs.len(),
    ensures
        query_items(defs.take(i + 1)) == if is_query_item(defs[i]) {
            query_items(defs.take(i)).push(defs[i])
        } else {
            query_items(defs.take(i))
        },
        query_error_spans(defs.take(i + 1)) == match defs[i] {
            ast::Definition::OperationDefinition(op) => query_error_spans(defs.take(i))
                + variable_directive_spans(op.variable_definitions@),
            _ => query_error_spans(defs.take(i)),
        },
{
    assert(defs.take(i + 1).drop_last() =~= defs.take(i));
    assert(defs.take(i + 1).last() == defs[i]);
}

/// Converts a document to a `graphql_parser` query document.
///
/// Operations and fragments are converted in order; type system
/// definitions are skipped; each variable definition with directives,
/// which `graphql_parser` cannot hold, loses them and is reported by an
/// `UnsupportedFeature` error. The result is successful exactly when no
/// variable definition of an operation carries directives.
pub fn to_graphql_parser_query_ast(doc: &ast::Document) -> (r: ParseResult<'static, gp::QueryDocument>)
    ensures
        r.wf(),
        has_empty_source_map(r),
        query_items_to_gp_rel(query_items(doc.definitions@), r.spec_ast().definitions@),
        variable_directive_errors(r.spec_errors(), query_error_spans(doc.definitions@)),
        r is Success <==> query_error_spans(doc.definitions@).len() == 0,
{
    let mut errors: Vec<GraphQLParseError> = Vec::new();
    let mut definitions: Vec<gp::QueryDefinition> = Vec::new();
    let defs = &doc.definitions;
    let mut i: usize = 0;
    while i < defs.len()
        invariant
            i <= defs.len(),
            query_items_to_gp_rel(query_items(defs@.take(i as int)), definitions@),
            variable_directive_errors(errors@, query_error_spans(defs@.take(i as int))),
        decreases defs.len() - i,
    {
        proof {
            lemma_query_step(defs@, i as int);
        }
        match &defs[i] {
            ast::Definition::FragmentDefinition(fd) => {
                definitions.push(gp::QueryDefinition::Fragment(fragment_def_to_gp(fd)));
            },
            ast::Definition::OperationDefinition(op) => {
                let ghost before = errors@;
                let g = operation_def_to_gp(op, &mut errors);
                proof {
                    let spans0 = query_error_spans(defs@.take(i as int));
                    let extra = variable_directive_spans(op.variable_definitions@);
                    assert(errors@ =~= before + errors@.skip(before.len() as int));
                    assert forall|k: int| 0 <= k < errors@.len() implies unsupported_feature_error(
                        #[trigger] errors@[k],
                        variable_directives_message(),
                        "variable directives"@,
                        (spans0 + extra)[k],
                    ) by {
                        if k < before.len() {
                            assert(errors@[k] == errors@.take(before.len() as int)[k]);
                        } else {
                            assert(errors@[k] == errors@.skip(before.len() as int)[k - before.len()]);
                        }
                    }
                }
                definitions.push(gp::QueryDefinition::Operation(g));
            },
            _ => {},
        }
        i = i + 1;
    }
    proof {
        assert(defs@.take(defs@.len() as int) =~= defs@);
    }
    let gp_doc = gp::QueryDocument { definitions };
    if errors.len() == 0 {
        ParseResult::new_ok(gp_doc, SourceMap::new_precomputed(None))
    } else {
        ParseResult::new_recovered(gp_doc, errors, SourceMap::new_precomputed(None))
    }
}

} // verus!
