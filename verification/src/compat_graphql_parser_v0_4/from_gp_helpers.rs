//! Conversions of shared sub-nodes from `graphql_parser` data to this
//! crate's AST: positions, values, type annotations, directives,
//! descriptions, input values, fields, enum values and directive locations.

use crate::ast;
use crate::compat_graphql_parser_v0_4::gp;
use crate::graphql_parser::directive_defs::directive_location_name;
use crate::compat_graphql_parser_v0_4::round_trip::gp_value_wf;
use crate::compat_graphql_parser_v0_4::to_gp_helpers::key_lt;
use crate::graphql_source_span::GraphQLSourceSpan;
use crate::source_map::is_continuation_byte;
use crate::source_position::SourcePosition;
use crate::source_position::SourcePositionView;
use vstd::prelude::*;
use vstd::string::StringSliceAdditionalSpecFns;

verus! {

// ── Positions ───────────────────────────────────────────────────────

/// The starts of the lines of `b`, where only `\n` ends a line: 0, then the
/// offset after each `\n`.
pub open spec fn lf_line_starts(b: Seq<u8>) -> Seq<usize>
    decreases b.len(),
{
    if b.len() == 0 {
        seq![0usize]
    } else if b.last() == 10 {
        lf_line_starts(b.drop_last()).push(b.len() as usize)
    } else {
        lf_line_starts(b.drop_last())
    }
}

/// The offset of the start of the `n`-th character of `b` at or after
/// offset `i` (continuation bytes are not character starts), if there is
/// one.
pub open spec fn char_offset_from(b: Seq<u8>, i: int, n: nat) -> Option<int>
    decreases b.len() - i,
{
    if i < 0 || i >= b.len() {
        None
    } else if is_continuation_byte(b[i]) {
        char_offset_from(b, i + 1, n)
    } else if n == 0 {
        Some(i)
    } else {
        char_offset_from(b, i + 1, (n - 1) as nat)
    }
}

/// The byte offset of the 0-based `(line, col)` in the source `src`: the
/// start of the `col`-th character from the start of that line (or the line
/// start if the source has fewer characters after it); 0 without a source
/// or past its last line.
pub open spec fn gp_byte_offset(src: Option<Seq<u8>>, line: nat, col: nat) -> nat {
    match src {
        None => 0,
        Some(b) => {
            let ls = lf_line_starts(b);
            if line < ls.len() {
                match char_offset_from(b, ls[line as int] as int, col) {
                    Some(o) => o as nat,
                    None => ls[line as int] as nat,
                }
            } else {
                0
            }
        },
    }
}

/// `n - 1`, or 0 for 0.
pub open spec fn minus_one(n: nat) -> nat {
    if n == 0 {
        0
    } else {
        (n - 1) as nat
    }
}

/// The 0-based source position of the 1-based `graphql_parser` position `p`.
pub open spec fn source_pos_of(src: Option<Seq<u8>>, p: gp::Pos) -> SourcePositionView {
    SourcePositionView {
        line: minus_one(p.line as nat),
        col_utf8: minus_one(p.column as nat),
        col_utf16: None,
        byte_offset: gp_byte_offset(src, minus_one(p.line as nat), minus_one(p.column as nat)),
    }
}

/// `span` is the empty span at the position `p`, with no file path.
pub open spec fn span_at(src: Option<Seq<u8>>, span: GraphQLSourceSpan, p: gp::Pos) -> bool {
    &&& span.start_inclusive@ == source_pos_of(src, p)
    &&& span.end_exclusive == span.start_inclusive
    &&& span.file_path is None
}

/// `span` runs from the position `p` to the position `q`, with no file path.
pub open spec fn span_between(src: Option<Seq<u8>>, span: GraphQLSourceSpan, p: gp::Pos, q: gp::Pos) -> bool {
    &&& span.start_inclusive@ == source_pos_of(src, p)
    &&& span.end_exclusive@ == source_pos_of(src, q)
    &&& span.file_path is None
}

/// `span` is the empty span at the origin (line 0, column 0, byte 0).
pub open spec fn is_zero_span(span: GraphQLSourceSpan) -> bool {
    &&& span.start_inclusive@ == SourcePositionView { line: 0, col_utf8: 0, col_utf16: None, byte_offset: 0 }
    &&& span.end_exclusive == span.start_inclusive
    &&& span.file_path is None
}

/// `n` is the name `s` with the empty span at the origin.
pub open spec fn name_zero(n: ast::Name, s: String) -> bool {
    n.value@ == s@ && is_zero_span(n.span)
}

/// `n` is the name `s` with the empty span at `p`.
pub open spec fn name_at(src: Option<Seq<u8>>, n: ast::Name, s: String, p: gp::Pos) -> bool {
    n.value@ == s@ && span_at(src, n.span, p)
}

/// The context of a conversion from `graphql_parser` data: the source text,
/// when known, from which byte offsets are computed.
pub struct FromGpContext<'src> {
    source: Option<&'src str>,
    line_starts: Vec<usize>,
}

impl<'src> FromGpContext<'src> {
    /// The bytes of the source text, if known.
    pub closed spec fn src(&self) -> Option<Seq<u8>> {
        match self.source {
            Some(s) => Some(s.spec_bytes()),
            None => None,
        }
    }

    /// The line starts are those of the source text.
    pub closed spec fn wf(&self) -> bool {
        match self.source {
            Some(s) => self.line_starts@ == lf_line_starts(s.spec_bytes()),
            None => true,
        }
    }

    /// A context without source text: all byte offsets are 0.
    pub fn without_source() -> (ctx: FromGpContext<'static>)
        ensures
            ctx.wf(),
            ctx.src() is None,
    {
        FromGpContext { source: None, line_starts: Vec::new() }
    }

    /// A context with source text: byte offsets are computed from line and
    /// column.
    pub fn with_source(source: &'src str) -> (ctx: FromGpContext<'src>)
        ensures
            ctx.wf(),
            ctx.src() == Some(source.spec_bytes()),
    {
        let bytes = source.as_bytes();
        let mut line_starts: Vec<usize> = Vec::new();
        line_starts.push(0);
        let mut i: usize = 0;
        proof {
            assert(bytes@.take(0) =~= Seq::<u8>::empty());
        }
        while i < bytes.len()
            invariant
                bytes@ == source.spec_bytes(),
                i <= bytes.len(),
                line_starts@ == lf_line_starts(bytes@.take(i as int)),
            decreases bytes.len() - i,
        {
            proof {
                assert(bytes@.take(i + 1).drop_last() =~= bytes@.take(i as int));
                assert(bytes@.take(i + 1).last() == bytes@[i as int]);
            }
            if bytes[i] == 10 {
                line_starts.push(i + 1);
            }
            i = i + 1;
        }
        proof {
            assert(bytes@.take(bytes@.len() as int) =~= bytes@);
        }
        FromGpContext { source: Some(source), line_starts }
    }

    /// The byte offset of the 0-based `(line, col_utf8)`.
    fn byte_offset_for(&self, line: usize, col_utf8: usize) -> (r: usize)
        requires
            self.wf(),
        ensures
            r == gp_byte_offset(self.src(), line as nat, col_utf8 as nat),
    {
        match self.source {
            Some(src) => {
                if line < self.line_starts.len() {
                    let bytes = src.as_bytes();
                    let line_start = self.line_starts[line];
                    proof {
                        lemma_line_starts_bounded(bytes@, line as int);
                    }
                    let mut i: usize = line_start;
                    let mut n: usize = col_utf8;
                    while i < bytes.len()
                        invariant
                            bytes@ == src.spec_bytes(),
                            line_start <= i <= bytes.len(),
                            line < lf_line_starts(bytes@).len(),
                            self.src() == Some(bytes@),
                            line_start == lf_line_starts(bytes@)[line as int],
                            char_offset_from(bytes@, line_start as int, col_utf8 as nat)
                                == char_offset_from(bytes@, i as int, n as nat),
                        decreases bytes.len() - i,
                    {
                        if 0x80 <= bytes[i] && bytes[i] < 0xC0 {
                            i = i + 1;
                        } else if n == 0 {
                            assert(char_offset_from(bytes@, i as int, n as nat) == Some(i as int));
                            assert(lf_line_starts(bytes@)[line as int] == line_start);
                            return i;
                        } else {
                            n = n - 1;
                            i = i + 1;
                        }
                    }
                    assert(lf_line_starts(bytes@)[line as int] == line_start);
                    line_start
                } else {
                    0
                }
            },
            None => 0,
        }
    }

    /// The 0-based source position of a 1-based `graphql_parser` position.
    pub fn source_pos_from_gp(&self, pos: gp::Pos) -> (sp: SourcePosition)
        requires
            self.wf(),
        ensures
            sp@ == source_pos_of(self.src(), pos),
    {
        let line = pos.line.saturating_sub(1);
        let col = pos.column.saturating_sub(1);
        let byte_off = self.byte_offset_for(line, col);
        SourcePosition::new(line, col, None, byte_off)
    }

    /// The empty span at a `graphql_parser` position.
    pub fn span_from_pos(&self, pos: gp::Pos) -> (span: GraphQLSourceSpan)
        requires
            self.wf(),
        ensures
            span_at(self.src(), span, pos),
    {
        let sp = self.source_pos_from_gp(pos);
        GraphQLSourceSpan::new(sp, sp)
    }

    /// The span between two `graphql_parser` positions.
    pub fn span_from_pos_pair(&self, start: gp::Pos, end: gp::Pos) -> (span: GraphQLSourceSpan)
        requires
            self.wf(),
        ensures
            span_between(self.src(), span, start, end),
    {
        GraphQLSourceSpan::new(self.source_pos_from_gp(start), self.source_pos_from_gp(end))
    }

    /// The empty span at the origin, for nodes that have no position in
    /// `graphql_parser` data.
    pub fn zero_span(&self) -> (span: GraphQLSourceSpan)
        ensures
            is_zero_span(span),
    {
        let sp = SourcePosition::new(0, 0, None, 0);
        GraphQLSourceSpan::new(sp, sp)
    }

    /// A name with the empty span at the origin.
    pub fn string_to_name(&self, value: &String) -> (n: ast::Name)
        ensures
            name_zero(n, *value),
    {
        ast::Name { value: value.clone(), span: self.zero_span() }
    }

    /// A name with the empty span at a `graphql_parser` position.
    pub fn string_to_name_at(&self, value: &String, pos: gp::Pos) -> (n: ast::Name)
        requires
            self.wf(),
        ensures
            name_at(self.src(), n, *value, pos),
    {
        ast::Name { value: value.clone(), span: self.span_from_pos(pos) }
    }
}

/// Each line start is at most the length of the text.
proof fn lemma_line_starts_bounded(b: Seq<u8>, k: int)
    requires
        0 <= k < lf_line_starts(b).len(),
    ensures
        lf_line_starts(b)[k] <= b.len(),
    decreases b.len(),
{
    if b.len() > 0 {
        if k < lf_line_starts(b.drop_last()).len() {
            lemma_line_starts_bounded(b.drop_last(), k);
        }
    }
}

// ── Values and type annotations ─────────────────────────────────────

/// `a` is the AST form of the `graphql_parser` value `g`: every node has the
/// empty span at the origin and no syntax detail, integers are cut to 32
/// bits, strings are not block strings, and object fields come in the order
/// of the entries.
pub open spec fn gp_value_to_ast_rel(g: gp::Value, a: ast::Value) -> bool
    decreases g,
{
    match g {
        gp::Value::Boolean(b) => a matches ast::Value::Boolean(x) && x.value == b && is_zero_span(x.span)
            && x.syntax is None,
        gp::Value::Enum(e) => a matches ast::Value::Enum(x) && x.value@ == e@ && is_zero_span(x.span)
            && x.syntax is None,
        gp::Value::Float(f) => a matches ast::Value::Float(x) && x.value@ == f@ && is_zero_span(x.span)
            && x.syntax is None,
        gp::Value::Int(n) => a matches ast::Value::Int(x) && x.value == n as i32 && is_zero_span(x.span)
            && x.syntax is None,
        gp::Value::List(items) => a matches ast::Value::List(x) && is_zero_span(x.span) && x.syntax is None
            && x.values.len() == items.len() && forall|i: int|
            0 <= i < items.len() ==> gp_value_to_ast_rel(items@[i], #[trigger] x.values@[i]),
        gp::Value::Null => a matches ast::Value::Null(x) && is_zero_span(x.span) && x.syntax is None,
        gp::Value::Object(es) => a matches ast::Value::Object(x) && is_zero_span(x.span) && x.syntax is None
            && x.fields.len() == es.len() && forall|i: int|
            0 <= i < es.len() ==> name_zero((#[trigger] x.fields@[i]).name, es@[i].0) && is_zero_span(
                x.fields@[i].span,
            ) && x.fields@[i].syntax is None && gp_value_to_ast_rel(es@[i].1, x.fields@[i].value),
        gp::Value::String(t) => a matches ast::Value::String(x) && x.value@ == t@ && !x.is_block && is_zero_span(
            x.span,
        ) && x.syntax is None,
        gp::Value::Variable(v) => a matches ast::Value::Variable(x) && name_zero(x.name, v) && is_zero_span(
            x.span,
        ) && x.syntax is None,
    }
}

/// The object values in `v`, at any depth, list their fields in strictly
/// increasing key order.
pub open spec fn fields_ascending(v: ast::Value) -> bool
    decreases v,
{
    match v {
        ast::Value::List(l) => forall|i: int|
            0 <= i < l.values.len() ==> fields_ascending(#[trigger] l.values@[i]),
        ast::Value::Object(o) => {
            &&& forall|i: int, j: int|
                0 <= i < j < o.fields.len() ==> key_lt(
                    (#[trigger] o.fields@[i]).name.value@,
                    (#[trigger] o.fields@[j]).name.value@,
                )
            &&& forall|i: int| 0 <= i < o.fields.len() ==> fields_ascending((#[trigger] o.fields@[i]).value)
        },
        _ => true,
    }
}

/// Converts a `graphql_parser` value to an AST value; an object whose
/// entries come in strictly increasing key order (as a `BTreeMap` yields
/// them) gives its fields in that order.
pub fn gp_value_to_ast(val: &gp::Value, ctx: &FromGpContext) -> (a: ast::Value)
    ensures
        gp_value_to_ast_rel(*val, a),
        gp_value_wf(*val) ==> fields_ascending(a),
    decreases val,
{
    let zs = ctx.zero_span();
    match val {
        gp::Value::Boolean(b) => ast::Value::Boolean(ast::BooleanValue { value: *b, span: zs, syntax: None }),
        gp::Value::Enum(e) => ast::Value::Enum(ast::EnumValue { value: e.clone(), span: zs, syntax: None }),
        gp::Value::Float(f) => ast::Value::Float(ast::FloatValue { value: f.clone(), span: zs, syntax: None }),
        gp::Value::Int(n) => ast::Value::Int(ast::IntValue { value: *n as i32, span: zs, syntax: None }),
        gp::Value::List(items) => {
            let mut values: Vec<ast::Value> = Vec::new();
            let mut i: usize = 0;
            while i < items.len()
                invariant
                    *val == gp::Value::List(*items),
                    i <= items.len(),
                    values.len() == i,
                    forall|k: int| 0 <= k < i ==> gp_value_to_ast_rel(items@[k], #[trigger] values@[k]),
                    gp_value_wf(*val) ==> forall|k: int| 0 <= k < i ==> fields_ascending(#[trigger] values@[k]),
                decreases items.len() - i,
            {
                proof {
                    assert(decreases_to!(*val => (*val)->List_0));
                    assert(decreases_to!((*val)->List_0 => (*val)->List_0@));
                    assert(decreases_to!((*val)->List_0@ => (*val)->List_0@[i as int]));
                }
                values.push(gp_value_to_ast(&items[i], ctx));
                i = i + 1;
            }
            ast::Value::List(ast::ListValue { values, span: zs, syntax: None })
        },
        gp::Value::Null => ast::Value::Null(ast::NullValue { span: zs, syntax: None }),
        gp::Value::Object(es) => {
            let mut fields: Vec<ast::ObjectField> = Vec::new();
            let mut i: usize = 0;
            while i < es.len()
                invariant
                    *val == gp::Value::Object(*es),
                    i <= es.len(),
                    fields.len() == i,
                    forall|k: int|
                        0 <= k < i ==> name_zero((#[trigger] fields@[k]).name, es@[k].0) && is_zero_span(
                            fields@[k].span,
                        ) && fields@[k].syntax is None && gp_value_to_ast_rel(es@[k].1, fields@[k].value),
                    gp_value_wf(*val) ==> forall|k: int| 0 <= k < i ==> fields_ascending((#[trigger] fields@[k]).value),
                decreases es.len() - i,
            {
                proof {
                    assert(decreases_to!(*val => (*val)->Object_0));
                    assert(decreases_to!((*val)->Object_0 => (*val)->Object_0@));
                    assert(decreases_to!((*val)->Object_0@ => (*val)->Object_0@[i as int]));
                    assert(decreases_to!((*val)->Object_0@[i as int] => (*val)->Object_0@[i as int].1));
                }
                let value = gp_value_to_ast(&es[i].1, ctx);
                fields.push(
                    ast::ObjectField {
                        name: ctx.string_to_name(&es[i].0),
                        value,
                        span: ctx.zero_span(),
                        syntax: None,
                    },
                );
                i = i + 1;
            }
            ast::Value::Object(ast::ObjectValue { fields, span: zs, syntax: None })
        },
        gp::Value::String(t) => ast::Value::String(
            ast::StringValue { is_block: false, value: t.clone(), span: zs, syntax: None },
        ),
        gp::Value::Variable(v) => ast::Value::Variable(
            ast::VariableValue { name: ctx.string_to_name(v), span: zs, syntax: None },
        ),
    }
}

/// `a` is the AST form of the `graphql_parser` type `g`: a `NonNullType`
/// becomes a non-null annotation of its inner type (a doubly non-null type,
/// which GraphQL does not allow, is read as its inner type), and every node
/// has the empty span at the origin.
pub open spec fn gp_type_to_ast_rel(g: gp::Type, a: ast::TypeAnnotation) -> bool
    decreases g,
{
    match g {
        gp::Type::NamedType(s) => a matches ast::TypeAnnotation::Named(n) && name_zero(n.name, s)
            && n.nullability == ast::Nullability::Nullable && is_zero_span(n.span),
        gp::Type::ListType(b) => a matches ast::TypeAnnotation::List(l) && l.nullability
            == ast::Nullability::Nullable && is_zero_span(l.span) && gp_type_to_ast_rel(*b, *l.element_type),
        gp::Type::NonNullType(b) => match *b {
            gp::Type::NamedType(s) => a matches ast::TypeAnnotation::Named(n) && name_zero(n.name, s)
                && n.nullability == (ast::Nullability::NonNull { syntax: None }) && is_zero_span(n.span),
            gp::Type::ListType(e) => a matches ast::TypeAnnotation::List(l) && l.nullability == (
            ast::Nullability::NonNull { syntax: None }) && is_zero_span(l.span) && gp_type_to_ast_rel(
                *e,
                *l.element_type,
            ),
            gp::Type::NonNullType(_) => gp_type_to_ast_rel(*b, a),
        },
    }
}

/// Converts a `graphql_parser` type to an AST type annotation.
pub fn gp_type_to_ast(ty: &gp::Type, ctx: &FromGpContext) -> (a: ast::TypeAnnotation)
    ensures
        gp_type_to_ast_rel(*ty, a),
    decreases ty,
{
    let zs = ctx.zero_span();
    match ty {
        gp::Type::NamedType(name) => ast::TypeAnnotation::Named(
            ast::NamedTypeAnnotation {
                name: ctx.string_to_name(name),
                nullability: ast::Nullability::Nullable,
                span: zs,
            },
        ),
        gp::Type::ListType(inner) => ast::TypeAnnotation::List(
            ast::ListTypeAnnotation {
                element_type: Box::new(gp_type_to_ast(inner, ctx)),
                nullability: ast::Nullability::Nullable,
                span: zs,
            },
        ),
        gp::Type::NonNullType(inner) => match &**inner {
            gp::Type::NamedType(name) => ast::TypeAnnotation::Named(
                ast::NamedTypeAnnotation {
                    name: ctx.string_to_name(name),
                    nullability: ast::Nullability::NonNull { syntax: None },
                    span: zs,
                },
            ),
            gp::Type::ListType(elem) => {
                proof {
                    assert(decreases_to!(*ty => (*ty)->NonNullType_0));
                    assert(decreases_to!((*ty)->NonNullType_0 => (*(*ty)->NonNullType_0)->ListType_0));
                }
                ast::TypeAnnotation::List(
                    ast::ListTypeAnnotation {
                        element_type: Box::new(gp_type_to_ast(elem, ctx)),
                        nullability: ast::Nullability::NonNull { syntax: None },
                        span: zs,
                    },
                )
            },
            gp::Type::NonNullType(_) => gp_type_to_ast(inner, ctx),
        },
    }
}

// ── Directives, descriptions, input values, fields, enum values ─────

/// `a` is the AST form of the `graphql_parser` directive `g`: named and
/// placed at its position, with arguments at the origin.
pub open spec fn gp_directive_to_ast_rel(src: Option<Seq<u8>>, g: gp::Directive, a: ast::DirectiveAnnotation) -> bool {
    &&& name_at(src, a.name, g.name, g.position)
    &&& span_at(src, a.span, g.position)
    &&& gp_args_to_ast_rel(g.arguments@, a.arguments@)
}

/// `as_` are the AST forms of the `graphql_parser` arguments `gs`.
pub open spec fn gp_args_to_ast_rel(gs: Seq<(String, gp::Value)>, as_: Seq<ast::Argument>) -> bool {
    &&& as_.len() == gs.len()
    &&& forall|i: int|
        0 <= i < gs.len() ==> name_zero((#[trigger] as_[i]).name, gs[i].0) && is_zero_span(as_[i].span)
            && gp_value_to_ast_rel(gs[i].1, as_[i].value)
}

/// `as_` are the AST forms of the `graphql_parser` directives `gs`.
pub open spec fn gp_directives_to_ast_rel(src: Option<Seq<u8>>, gs: Seq<gp::Directive>, as_: Seq<ast::DirectiveAnnotation>) -> bool {
    &&& as_.len() == gs.len()
    &&& forall|i: int| 0 <= i < gs.len() ==> gp_directive_to_ast_rel(src, gs[i], #[trigger] as_[i])
}

/// `a` is the description `g`, as a non-block string at the origin.
pub open spec fn gp_description_to_ast_rel(g: Option<String>, a: Option<ast::StringValue>) -> bool {
    match g {
        None => a is None,
        Some(s) => a is Some && a->0.value@ == s@ && !a->0.is_block && is_zero_span(a->0.span)
            && a->0.syntax is None,
    }
}

/// Converts `graphql_parser` arguments to AST arguments at the origin.
pub fn gp_arguments_to_ast(args: &Vec<(String, gp::Value)>, ctx: &FromGpContext) -> (as_: Vec<ast::Argument>)
    ensures
        gp_args_to_ast_rel(args@, as_@),
{
    let mut out: Vec<ast::Argument> = Vec::new();
    let mut i: usize = 0;
    while i < args.len()
        invariant
            i <= args.len(),
            out.len() == i,
            forall|k: int|
                0 <= k < i ==> name_zero((#[trigger] out@[k]).name, args@[k].0) && is_zero_span(out@[k].span)
                    && gp_value_to_ast_rel(args@[k].1, out@[k].value),
        decreases args.len() - i,
    {
        let value = gp_value_to_ast(&args[i].1, ctx);
        out.push(ast::Argument { name: ctx.string_to_name(&args[i].0), value, span: ctx.zero_span() });
        i = i + 1;
    }
    out
}

/// Converts a `graphql_parser` directive to an AST directive annotation.
pub fn gp_directive_to_ast(dir: &gp::Directive, ctx: &FromGpContext) -> (a: ast::DirectiveAnnotation)
    requires
        ctx.wf(),
    ensures
        gp_directive_to_ast_rel(ctx.src(), *dir, a),
{
    ast::DirectiveAnnotation {
        name: ctx.string_to_name_at(&dir.name, dir.position),
        arguments: gp_arguments_to_ast(&dir.arguments, ctx),
        span: ctx.span_from_pos(dir.position),
    }
}

/// Converts `graphql_parser` directives, in order.
pub fn gp_directives_to_ast(dirs: &Vec<gp::Directive>, ctx: &FromGpContext) -> (as_: Vec<ast::DirectiveAnnotation>)
    requires
        ctx.wf(),
    ensures
        gp_directives_to_ast_rel(ctx.src(), dirs@, as_@),
{
    let mut out: Vec<ast::DirectiveAnnotation> = Vec::new();
    let mut i: usize = 0;
    while i < dirs.len()
        invariant
            ctx.wf(),
            i <= dirs.len(),
            out.len() == i,
            forall|k: int| 0 <= k < i ==> gp_directive_to_ast_rel(ctx.src(), dirs@[k], #[trigger] out@[k]),
        decreases dirs.len() - i,
    {
        out.push(gp_directive_to_ast(&dirs[i], ctx));
        i = i + 1;
    }
    out
}

/// Converts a description to a non-block string at the origin.
pub fn gp_description_to_ast(desc: &Option<String>, ctx: &FromGpContext) -> (a: Option<ast::StringValue>)
    ensures
        gp_description_to_ast_rel(*desc, a),
{
    match desc {
        Some(s) => Some(ast::StringValue { is_block: false, value: s.clone(), span: ctx.zero_span(), syntax: None }),
        None => None,
    }
}

/// `a` is the AST form of the default value `g`, if any.
pub open spec fn gp_default_to_ast_rel(g: Option<gp::Value>, a: Option<ast::Value>) -> bool {
    match g {
        None => a is None,
        Some(v) => a is Some && gp_value_to_ast_rel(v, a->0),
    }
}

/// `a` is the AST form of the `graphql_parser` input value `g`.
pub open spec fn gp_input_value_to_ast_rel(src: Option<Seq<u8>>, g: gp::InputValue, a: ast::InputValueDefinition) -> bool {
    &&& gp_default_to_ast_rel(g.default_value, a.default_value)
    &&& gp_description_to_ast_rel(g.description, a.description)
    &&& gp_directives_to_ast_rel(src, g.directives@, a.directives@)
    &&& name_at(src, a.name, g.name, g.position)
    &&& span_at(src, a.span, g.position)
    &&& gp_type_to_ast_rel(g.value_type, a.value_type)
}

/// `as_` are the AST forms of the `graphql_parser` input values `gs`.
pub open spec fn gp_input_values_to_ast_rel(src: Option<Seq<u8>>, gs: Seq<gp::InputValue>, as_: Seq<ast::InputValueDefinition>) -> bool {
    &&& as_.len() == gs.len()
    &&& forall|i: int| 0 <= i < gs.len() ==> gp_input_value_to_ast_rel(src, gs[i], #[trigger] as_[i])
}

/// `a` is the AST form of the `graphql_parser` field `g`.
pub open spec fn gp_field_def_to_ast_rel(src: Option<Seq<u8>>, g: gp::Field, a: ast::FieldDefinition) -> bool {
    &&& gp_input_values_to_ast_rel(src, g.arguments@, a.arguments@)
    &&& gp_description_to_ast_rel(g.description, a.description)
    &&& gp_directives_to_ast_rel(src, g.directives@, a.directives@)
    &&& gp_type_to_ast_rel(g.field_type, a.field_type)
    &&& name_at(src, a.name, g.name, g.position)
    &&& span_at(src, a.span, g.position)
}

/// `as_` are the AST forms of the `graphql_parser` fields `gs`.
pub open spec fn gp_field_defs_to_ast_rel(src: Option<Seq<u8>>, gs: Seq<gp::Field>, as_: Seq<ast::FieldDefinition>) -> bool {
    &&& as_.len() == gs.len()
    &&& forall|i: int| 0 <= i < gs.len() ==> gp_field_def_to_ast_rel(src, gs[i], #[trigger] as_[i])
}

/// `a` is the AST form of the `graphql_parser` enum value `g`.
pub open spec fn gp_enum_value_to_ast_rel(src: Option<Seq<u8>>, g: gp::EnumValue, a: ast::EnumValueDefinition) -> bool {
    &&& gp_description_to_ast_rel(g.description, a.description)
    &&& gp_directives_to_ast_rel(src, g.directives@, a.directives@)
    &&& name_at(src, a.name, g.name, g.position)
    &&& span_at(src, a.span, g.position)
}

/// `as_` are the AST forms of the `graphql_parser` enum values `gs`.
pub open spec fn gp_enum_values_to_ast_rel(src: Option<Seq<u8>>, gs: Seq<gp::EnumValue>, as_: Seq<ast::EnumValueDefinition>) -> bool {
    &&& as_.len() == gs.len()
    &&& forall|i: int| 0 <= i < gs.len() ==> gp_enum_value_to_ast_rel(src, gs[i], #[trigger] as_[i])
}

/// `as_` are the names `gs`, at the origin.
pub open spec fn gp_names_to_ast_rel(gs: Seq<String>, as_: Seq<ast::Name>) -> bool {
    &&& as_.len() == gs.len()
    &&& forall|i: int| 0 <= i < gs.len() ==> name_zero(#[trigger] as_[i], gs[i])
}

/// Converts a `graphql_parser` input value to an AST input value definition.
pub fn gp_input_value_to_ast(iv: &gp::InputValue, ctx: &FromGpContext) -> (a: ast::InputValueDefinition)
    requires
        ctx.wf(),
    ensures
        gp_input_value_to_ast_rel(ctx.src(), *iv, a),
{
    let default_value = match &iv.default_value {
        Some(v) => Some(gp_value_to_ast(v, ctx)),
        None => None,
    };
    ast::InputValueDefinition {
        default_value,
        description: gp_description_to_ast(&iv.description, ctx),
        directives: gp_directives_to_ast(&iv.directives, ctx),
        name: ctx.string_to_name_at(&iv.name, iv.position),
        span: ctx.span_from_pos(iv.position),
        value_type: gp_type_to_ast(&iv.value_type, ctx),
    }
}

/// Converts `graphql_parser` input values, in order.
pub fn gp_input_values_to_ast(ivs: &Vec<gp::InputValue>, ctx: &FromGpContext) -> (as_: Vec<ast::InputValueDefinition>)
    requires
        ctx.wf(),
    ensures
        gp_input_values_to_ast_rel(ctx.src(), ivs@, as_@),
{
    let mut out: Vec<ast::InputValueDefinition> = Vec::new();
    let mut i: usize = 0;
    while i < ivs.len()
        invariant
            ctx.wf(),
            i <= ivs.len(),
            out.len() == i,
            forall|k: int| 0 <= k < i ==> gp_input_value_to_ast_rel(ctx.src(), ivs@[k], #[trigger] out@[k]),
        decreases ivs.len() - i,
    {
        out.push(gp_input_value_to_ast(&ivs[i], ctx));
        i = i + 1;
    }
    out
}

/// Converts a `graphql_parser` field to an AST field definition.
pub fn gp_field_def_to_ast(field: &gp::Field, ctx: &FromGpContext) -> (a: ast::FieldDefinition)
    requires
        ctx.wf(),
    ensures
        gp_field_def_to_ast_rel(ctx.src(), *field, a),
{
    ast::FieldDefinition {
        arguments: gp_input_values_to_ast(&field.arguments, ctx),
        description: gp_description_to_ast(&field.description, ctx),
        directives: gp_directives_to_ast(&field.directives, ctx),
        field_type: gp_type_to_ast(&field.field_type, ctx),
        name: ctx.string_to_name_at(&field.name, field.position),
        span: ctx.span_from_pos(field.position),
    }
}

/// Converts `graphql_parser` fields, in order.
pub fn gp_field_defs_to_ast(fields: &Vec<gp::Field>, ctx: &FromGpContext) -> (as_: Vec<ast::FieldDefinition>)
    requires
        ctx.wf(),
    ensures
        gp_field_defs_to_ast_rel(ctx.src(), fields@, as_@),
{
    let mut out: Vec<ast::FieldDefinition> = Vec::new();
    let mut i: usize = 0;
    while i < fields.len()
        invariant
            ctx.wf(),
            i <= fields.len(),
            out.len() == i,
            forall|k: int| 0 <= k < i ==> gp_field_def_to_ast_rel(ctx.src(), fields@[k], #[trigger] out@[k]),
        decreases fields.len() - i,
    {
        out.push(gp_field_def_to_ast(&fields[i], ctx));
        i = i + 1;
    }
    out
}

/// Converts a `graphql_parser` enum value to an AST enum value definition.
pub fn gp_enum_value_to_ast(ev: &gp::EnumValue, ctx: &FromGpContext) -> (a: ast::EnumValueDefinition)
    requires
        ctx.wf(),
    ensures
        gp_enum_value_to_ast_rel(ctx.src(), *ev, a),
{
    ast::EnumValueDefinition {
        description: gp_description_to_ast(&ev.description, ctx),
        directives: gp_directives_to_ast(&ev.directives, ctx),
        name: ctx.string_to_name_at(&ev.name, ev.position),
        span: ctx.span_from_pos(ev.position),
    }
}

/// Converts `graphql_parser` enum values, in order.
pub fn gp_enum_values_to_ast(evs: &Vec<gp::EnumValue>, ctx: &FromGpContext) -> (as_: Vec<ast::EnumValueDefinition>)
    requires
        ctx.wf(),
    ensures
        gp_enum_values_to_ast_rel(ctx.src(), evs@, as_@),
{
    let mut out: Vec<ast::EnumValueDefinition> = Vec::new();
    let mut i: usize = 0;
    while i < evs.len()
        invariant
            ctx.wf(),
            i <= evs.len(),
            out.len() == i,
            forall|k: int| 0 <= k < i ==> gp_enum_value_to_ast_rel(ctx.src(), evs@[k], #[trigger] out@[k]),
        decreases evs.len() - i,
    {
        out.push(gp_enum_value_to_ast(&evs[i], ctx));
        i = i + 1;
    }
    out
}

/// Converts names to AST names at the origin, in order.
pub fn gp_names_to_ast(names: &Vec<String>, ctx: &FromGpContext) -> (as_: Vec<ast::Name>)
    ensures
        gp_names_to_ast_rel(names@, as_@),
{
    let mut out: Vec<ast::Name> = Vec::new();
    let mut i: usize = 0;
    while i < names.len()
        invariant
            i <= names.len(),
            out.len() == i,
            forall|k: int| 0 <= k < i ==> name_zero(#[trigger] out@[k], names@[k]),
        decreases names.len() - i,
    {
        out.push(ctx.string_to_name(&names[i]));
        i = i + 1;
    }
    out
}

/// The location kind of a `graphql_parser` directive location.
pub open spec fn location_from_gp(loc: gp::DirectiveLocation) -> ast::DirectiveLocationKind {
    match loc {
        gp::DirectiveLocation::ArgumentDefinition => ast::DirectiveLocationKind::ArgumentDefinition,
        gp::DirectiveLocation::Enum => ast::DirectiveLocationKind::Enum,
        gp::DirectiveLocation::EnumValue => ast::DirectiveLocationKind::EnumValue,
        gp::DirectiveLocation::Field => ast::DirectiveLocationKind::Field,
        gp::DirectiveLocation::FieldDefinition => ast::DirectiveLocationKind::FieldDefinition,
        gp::DirectiveLocation::FragmentDefinition => ast::DirectiveLocationKind::FragmentDefinition,
        gp::DirectiveLocation::FragmentSpread => ast::DirectiveLocationKind::FragmentSpread,
        gp::DirectiveLocation::InlineFragment => ast::DirectiveLocationKind::InlineFragment,
        gp::DirectiveLocation::InputFieldDefinition => ast::DirectiveLocationKind::InputFieldDefinition,
        gp::DirectiveLocation::InputObject => ast::DirectiveLocationKind::InputObject,
        gp::DirectiveLocation::Interface => ast::DirectiveLocationKind::Interface,
        gp::DirectiveLocation::Mutation => ast::DirectiveLocationKind::Mutation,
        gp::DirectiveLocation::Object => ast::DirectiveLocationKind::Object,
        gp::DirectiveLocation::Query => ast::DirectiveLocationKind::Query,
        gp::DirectiveLocation::Scalar => ast::DirectiveLocationKind::Scalar,
        gp::DirectiveLocation::Schema => ast::DirectiveLocationKind::Schema,
        gp::DirectiveLocation::Subscription => ast::DirectiveLocationKind::Subscription,
        gp::DirectiveLocation::Union => ast::DirectiveLocationKind::Union,
        gp::DirectiveLocation::VariableDefinition => ast::DirectiveLocationKind::VariableDefinition,
    }
}

/// Converts a `graphql_parser` directive location to a location kind.
pub fn gp_directive_location_to_ast(loc: &gp::DirectiveLocation) -> (k: ast::DirectiveLocationKind)
    ensures
        k == location_from_gp(*loc),
{
    match loc {
        gp::DirectiveLocation::ArgumentDefinition => ast::DirectiveLocationKind::ArgumentDefinition,
        gp::DirectiveLocation::Enum => ast::DirectiveLocationKind::Enum,
        gp::DirectiveLocation::EnumValue => ast::DirectiveLocationKind::EnumValue,
        gp::DirectiveLocation::Field => ast::DirectiveLocationKind::Field,
        gp::DirectiveLocation::FieldDefinition => ast::DirectiveLocationKind::FieldDefinition,
        gp::DirectiveLocation::FragmentDefinition => ast::DirectiveLocationKind::FragmentDefinition,
        gp::DirectiveLocation::FragmentSpread => ast::DirectiveLocationKind::FragmentSpread,
        gp::DirectiveLocation::InlineFragment => ast::DirectiveLocationKind::InlineFragment,
        gp::DirectiveLocation::InputFieldDefinition => ast::DirectiveLocationKind::InputFieldDefinition,
        gp::DirectiveLocation::InputObject => ast::DirectiveLocationKind::InputObject,
        gp::DirectiveLocation::Interface => ast::DirectiveLocationKind::Interface,
        gp::DirectiveLocation::Mutation => ast::DirectiveLocationKind::Mutation,
        gp::DirectiveLocation::Object => ast::DirectiveLocationKind::Object,
        gp::DirectiveLocation::Query => ast::DirectiveLocationKind::Query,
        gp::DirectiveLocation::Scalar => ast::DirectiveLocationKind::Scalar,
        gp::DirectiveLocation::Schema => ast::DirectiveLocationKind::Schema,
        gp::DirectiveLocation::Subscription => ast::DirectiveLocationKind::Subscription,
        gp::DirectiveLocation::Union => ast::DirectiveLocationKind::Union,
        gp::DirectiveLocation::VariableDefinition => ast::DirectiveLocationKind::VariableDefinition,
    }
}

/// Converting a `graphql_parser` directive location keeps its name: the
/// location kind is the one whose GraphQL name is the name of the location
/// converted.
pub proof fn law_location_from_gp_keeps_name(l: gp::DirectiveLocation)
    ensures
        directive_location_name(location_from_gp(l)) == gp::gp_location_name(l),
{
}

} // verus!
