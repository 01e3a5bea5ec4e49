//! Parsing of input values: scalars, variables, lists and objects.

use crate::ast;
use crate::graphql_parse_error::GraphQLParseError;
use crate::graphql_parse_error_kind::GraphQLParseErrorKind;
use crate::graphql_parser::advanced;
use crate::graphql_parser::is_name_token;
use crate::graphql_parser::kinds_match;
use crate::graphql_parser::name_of;
use crate::graphql_parser::progressed;
use crate::graphql_parser::spanned;
use crate::graphql_parser::consumed;
use crate::graphql_parser::ConstContext;
use crate::graphql_parser::DelimiterContext;
use crate::graphql_parser::GraphQLParser;
use crate::graphql_parser::MAX_RECURSION_DEPTH;
use crate::graphql_source_span::GraphQLSourceSpan;
use crate::graphql_string_parsing_error::ValueParsingError;
use crate::source_position::SourcePosition;
use crate::token::GraphQLToken;
use crate::token::GraphQLTokenKind;
use vstd::prelude::*;
use vstd::string::StringExecFns;
use vstd::string::StrSliceExecFns;

verus! {

/// Whether `c` is an ASCII decimal digit.
pub open spec fn is_digit_char(c: char) -> bool {
    '0' <= c && c <= '9'
}

/// The number that the decimal digits `s` denote.
pub open spec fn digits_value(s: Seq<char>) -> nat
    decreases s.len(),
{
    if s.len() == 0 {
        0
    } else {
        digits_value(s.drop_last()) * 10 + (s.last() as nat - 48) as nat
    }
}

/// The length of the leading sign of `s`, if any.
pub open spec fn sign_len(s: Seq<char>) -> int {
    if s.len() > 0 && (s[0] == '-' || s[0] == '+') {
        1
    } else {
        0
    }
}

/// The integer that the text `s` denotes as a 64-bit signed integer: an
/// optional sign and at least one decimal digit, within range.
pub open spec fn i64_literal(s: Seq<char>) -> Option<int> {
    let d = s.subrange(sign_len(s), s.len() as int);
    let v: int = if s.len() > 0 && s[0] == '-' {
        -(digits_value(d) as int)
    } else {
        digits_value(d) as int
    };
    if d.len() > 0 && (forall|i: int| 0 <= i < d.len() ==> is_digit_char(#[trigger] d[i])) && i64::MIN
        <= v <= i64::MAX {
        Some(v)
    } else {
        None
    }
}

/// Whether `v` fits in a 32-bit signed integer.
pub open spec fn fits_i32(v: int) -> bool {
    i32::MIN <= v <= i32::MAX
}

/// Whether `t` is an integer token whose text is not a 32-bit integer.
pub open spec fn is_bad_int(t: GraphQLToken) -> bool {
    t.kind matches GraphQLTokenKind::IntValue(raw) && (i64_literal(raw@) is None || !fits_i32(
        i64_literal(raw@)->0,
    ))
}

/// `after` is `before` with one more error: the report that the integer
/// token `t` is out of the 32-bit range, carrying its text.
pub open spec fn bad_int_reported(
    t: GraphQLToken,
    before: Seq<GraphQLParseError>,
    after: Seq<GraphQLParseError>,
) -> bool {
    &&& after.len() == before.len() + 1
    &&& after.subrange(0, before.len() as int) == before
    &&& after.last().spec_kind() matches GraphQLParseErrorKind::InvalidValue(ValueParsingError::Int(x))
        && t.kind == GraphQLTokenKind::IntValue(x)
}

/// The 32-bit value of an integer literal's text `s`: the number itself
/// when it fits, else clamped to `i32::MAX` (positive) or `i32::MIN`
/// (negative).
pub open spec fn clamped_int(s: Seq<char>) -> i32 {
    match i64_literal(s) {
        Some(v) => if fits_i32(v) {
            v as i32
        } else if v > 0 {
            i32::MAX
        } else {
            i32::MIN
        },
        None => if s.len() > 0 && s[0] == '-' {
            i32::MIN
        } else {
            i32::MAX
        },
    }
}

/// The value that the scalar token `t` denotes, when it denotes one;
/// `retain` decides whether the token is kept as syntax. An integer out of
/// the 32-bit range denotes its clamped value (and is reported besides).
pub open spec fn scalar_value(t: GraphQLToken, retain: bool) -> Option<ast::Value> {
    match t.kind {
        GraphQLTokenKind::IntValue(s) => Some(
            ast::Value::Int(
                ast::IntValue {
                    value: clamped_int(s@),
                    span: t.span,
                    syntax: if retain {
                        Some(ast::IntValueSyntax { token: t })
                    } else {
                        None
                    },
                },
            ),
        ),
        GraphQLTokenKind::FloatValue(s) => Some(
            ast::Value::Float(
                ast::FloatValue {
                    value: s,
                    span: t.span,
                    syntax: if retain {
                        Some(ast::FloatValueSyntax { token: t })
                    } else {
                        None
                    },
                },
            ),
        ),
        GraphQLTokenKind::StringValue { value, is_block } => Some(
            ast::Value::String(
                ast::StringValue {
                    is_block,
                    value,
                    span: t.span,
                    syntax: if retain {
                        Some(ast::StringValueSyntax { token: t })
                    } else {
                        None
                    },
                },
            ),
        ),
        GraphQLTokenKind::True => Some(
            ast::Value::Boolean(
                ast::BooleanValue {
                    value: true,
                    span: t.span,
                    syntax: if retain {
                        Some(ast::BooleanValueSyntax { token: t })
                    } else {
                        None
                    },
                },
            ),
        ),
        GraphQLTokenKind::False => Some(
            ast::Value::Boolean(
                ast::BooleanValue {
                    value: false,
                    span: t.span,
                    syntax: if retain {
                        Some(ast::BooleanValueSyntax { token: t })
                    } else {
                        None
                    },
                },
            ),
        ),
        GraphQLTokenKind::Null => Some(
            ast::Value::Null(
                ast::NullValue {
                    span: t.span,
                    syntax: if retain {
                        Some(ast::NullValueSyntax { token: t })
                    } else {
                        None
                    },
                },
            ),
        ),
        GraphQLTokenKind::Name(s) => Some(
            ast::Value::Enum(
                ast::EnumValue {
                    value: s,
                    span: t.span,
                    syntax: if retain {
                        Some(ast::EnumValueSyntax { token: t })
                    } else {
                        None
                    },
                },
            ),
        ),
        _ => None,
    }
}

/// Whether a token of kind `k` can start a value (a lexer error counts: it
/// is consumed where a value is expected).
pub open spec fn is_value_start(k: GraphQLTokenKind) -> bool {
    ||| k is Dollar
    ||| k is IntValue
    ||| k is FloatValue
    ||| k is StringValue
    ||| k is True
    ||| k is False
    ||| k is Null
    ||| k is SquareBracketOpen
    ||| k is CurlyBraceOpen
    ||| k is Name
    ||| k is Error
}

/// Whether skipping inside a list value stops at a token of kind `k`.
pub open spec fn is_list_recovery_point(k: GraphQLTokenKind) -> bool {
    ||| k is SquareBracketClose
    ||| k is Eof
    ||| (is_value_start(k) && !(k is Error))
}

/// The span of a value.
pub open spec fn value_span(v: ast::Value) -> GraphQLSourceSpan {
    match v {
        ast::Value::Boolean(x) => x.span,
        ast::Value::Enum(x) => x.span,
        ast::Value::Float(x) => x.span,
        ast::Value::Int(x) => x.span,
        ast::Value::List(x) => x.span,
        ast::Value::Null(x) => x.span,
        ast::Value::Object(x) => x.span,
        ast::Value::String(x) => x.span,
        ast::Value::Variable(x) => x.span,
    }
}

/// Whether `v` holds no variable reference, at any depth.
pub open spec fn value_is_const(v: ast::Value) -> bool
    decreases v,
{
    match v {
        ast::Value::Variable(_) => false,
        ast::Value::List(l) => forall|i: int| 0 <= i < l.values.len() ==> value_is_const(#[trigger] l.values@[i]),
        ast::Value::Object(o) => forall|i: int|
            0 <= i < o.fields.len() ==> value_is_const(#[trigger] o.fields@[i].value),
        _ => true,
    }
}

/// The number of tokens a value is written with.
pub open spec fn value_len(v: ast::Value) -> nat
    decreases v, 1nat,
{
    match v {
        ast::Value::Variable(_) => 2,
        ast::Value::List(l) => 2 + values_len(l.values@),
        ast::Value::Object(o) => 2 + fields_len(o.fields@),
        _ => 1,
    }
}

/// The number of tokens the values `vs` are written with, one after the
/// other.
pub open spec fn values_len(vs: Seq<ast::Value>) -> nat
    decreases vs, 0nat,
{
    if vs.len() == 0 {
        0
    } else {
        values_len(vs.drop_last()) + value_len(vs.last())
    }
}

/// The number of tokens the object fields `fs` are written with: each a
/// name, a colon and its value.
pub open spec fn fields_len(fs: Seq<ast::ObjectField>) -> nat
    decreases fs, 0nat,
{
    if fs.len() == 0 {
        0
    } else {
        fields_len(fs.drop_last()) + 2 + value_len(fs.last().value)
    }
}

/// The span from the start of token `a` to the end of token `b`.
pub open spec fn tokens_span(a: GraphQLToken, b: GraphQLToken) -> GraphQLSourceSpan {
    spanned(a.span.start_inclusive, Some(b.span.end_exclusive))
}

/// The value `v` is written with exactly the tokens `ts`, and carries the
/// spans and (when `retain`) the syntax tokens they give: a scalar token;
/// `$` and a name; `[`, the values and `]`; `{`, the fields and `}`.
pub open spec fn value_written(v: ast::Value, ts: Seq<GraphQLToken>, retain: bool) -> bool
    decreases v, 1nat,
{
    &&& ts.len() == value_len(v)
    &&& match v {
        ast::Value::Variable(x) => {
            &&& ts[0].kind is Dollar
            &&& is_name_token(ts[1])
            &&& name_of(x.name, ts[1])
            &&& x.span == tokens_span(ts[0], ts[1])
            &&& x.syntax == (if retain {
                Some(ast::VariableValueSyntax { dollar: ts[0] })
            } else {
                None
            })
        },
        ast::Value::List(l) => {
            &&& ts[0].kind is SquareBracketOpen
            &&& ts.last().kind is SquareBracketClose
            &&& values_written(l.values@, ts.subrange(1, ts.len() - 1), retain)
            &&& l.span == tokens_span(ts[0], ts.last())
            &&& l.syntax == (if retain {
                Some(ast::ListValueSyntax { brackets: ast::DelimiterPair { open: ts[0], close: ts.last() } })
            } else {
                None
            })
        },
        ast::Value::Object(o) => {
            &&& ts[0].kind is CurlyBraceOpen
            &&& ts.last().kind is CurlyBraceClose
            &&& fields_written(o.fields@, ts.subrange(1, ts.len() - 1), retain)
            &&& o.span == tokens_span(ts[0], ts.last())
            &&& o.syntax == (if retain {
                Some(ast::ObjectValueSyntax { braces: ast::DelimiterPair { open: ts[0], close: ts.last() } })
            } else {
                None
            })
        },
        _ => scalar_value(ts[0], retain) == Some(v) && !is_bad_int(ts[0]),
    }
}

/// The values `vs` are written with exactly the tokens `ts`, one after the
/// other.
pub open spec fn values_written(vs: Seq<ast::Value>, ts: Seq<GraphQLToken>, retain: bool) -> bool
    decreases vs, 0nat,
{
    if vs.len() == 0 {
        ts.len() == 0
    } else {
        let k = ts.len() - value_len(vs.last());
        &&& 0 <= k
        &&& values_written(vs.drop_last(), ts.subrange(0, k), retain)
        &&& value_written(vs.last(), ts.subrange(k, ts.len() as int), retain)
    }
}

/// The object fields `fs` are written with exactly the tokens `ts`, one
/// after the other: each a name, a colon and its value.
pub open spec fn fields_written(fs: Seq<ast::ObjectField>, ts: Seq<GraphQLToken>, retain: bool) -> bool
    decreases fs, 0nat,
{
    if fs.len() == 0 {
        ts.len() == 0
    } else {
        let f = fs.last();
        let k = ts.len() - 2 - value_len(f.value);
        &&& 0 <= k
        &&& fields_written(fs.drop_last(), ts.subrange(0, k), retain)
        &&& is_name_token(ts[k])
        &&& name_of(f.name, ts[k])
        &&& ts[k + 1].kind is Colon
        &&& value_written(f.value, ts.subrange(k + 2, ts.len() as int), retain)
        &&& f.span == tokens_span(ts[k], ts.last())
        &&& f.syntax == (if retain {
            Some(ast::ObjectFieldSyntax { colon: ts[k + 1] })
        } else {
            None
        })
    }
}

/// Values written with some tokens take as many tokens as their length.
proof fn lemma_values_written_len(vs: Seq<ast::Value>, ts: Seq<GraphQLToken>, retain: bool)
    requires
        values_written(vs, ts, retain),
    ensures
        ts.len() == values_len(vs),
    decreases vs.len(),
{
    if vs.len() > 0 {
        let k = ts.len() - value_len(vs.last());
        lemma_values_written_len(vs.drop_last(), ts.subrange(0, k), retain);
    }
}

/// Fields written with some tokens take as many tokens as their length.
proof fn lemma_fields_written_len(fs: Seq<ast::ObjectField>, ts: Seq<GraphQLToken>, retain: bool)
    requires
        fields_written(fs, ts, retain),
    ensures
        ts.len() == fields_len(fs),
    decreases fs.len(),
{
    if fs.len() > 0 {
        let k = ts.len() - 2 - value_len(fs.last().value);
        lemma_fields_written_len(fs.drop_last(), ts.subrange(0, k), retain);
    }
}

/// One more list value parsed after those from the `[` at `base` extends
/// the written values.
#[verifier::spinoff_prover]
proof fn lemma_values_step<'src>(
    vs0: Seq<ast::Value>,
    v: ast::Value,
    base: GraphQLParser<'src>,
    before: GraphQLParser<'src>,
    after: GraphQLParser<'src>,
)
    requires
        base.inv(),
        advanced(base, before),
        advanced(before, after),
        before.pos() >= base.pos() + 1,
        values_written(vs0, base.rest().subrange(1, before.pos() - base.pos()), base.spec_config().retain_syntax),
        value_written(v, before.rest().subrange(0, after.pos() - before.pos()), base.spec_config().retain_syntax),
    ensures
        values_written(vs0.push(v), base.rest().subrange(1, after.pos() - base.pos()), base.spec_config().retain_syntax),
{
    GraphQLParser::lemma_advanced(base, before);
    GraphQLParser::lemma_advanced(base, after);
    let ts = base.rest().subrange(1, after.pos() - base.pos());
    let k = before.pos() - base.pos() - 1;
    assert(vs0.push(v).drop_last() =~= vs0);
    assert(ts.subrange(0, k) =~= base.rest().subrange(1, before.pos() - base.pos()));
    assert(ts.subrange(k, ts.len() as int) =~= before.rest().subrange(0, after.pos() - before.pos()));
}

/// One more object field parsed after those from the `{` at `base`
/// extends the written fields.
#[verifier::spinoff_prover]
proof fn lemma_fields_step<'src>(
    fs0: Seq<ast::ObjectField>,
    f: ast::ObjectField,
    base: GraphQLParser<'src>,
    before: GraphQLParser<'src>,
    mid: GraphQLParser<'src>,
    after: GraphQLParser<'src>,
)
    requires
        base.inv(),
        advanced(base, before),
        advanced(before, mid),
        advanced(mid, after),
        before.pos() >= base.pos() + 1,
        mid.pos() == before.pos() + 2,
        before.rest().len() > 1,
        is_name_token(before.rest()[0]),
        name_of(f.name, before.rest()[0]),
        before.rest()[1].kind is Colon,
        fields_written(fs0, base.rest().subrange(1, before.pos() - base.pos()), base.spec_config().retain_syntax),
        value_written(f.value, mid.rest().subrange(0, after.pos() - mid.pos()), base.spec_config().retain_syntax),
        f.span == spanned(before.rest()[0].span.start_inclusive, after.last_end()),
        f.syntax == (if base.spec_config().retain_syntax {
            Some(ast::ObjectFieldSyntax { colon: before.rest()[1] })
        } else {
            None
        }),
    ensures
        fields_written(fs0.push(f), base.rest().subrange(1, after.pos() - base.pos()), base.spec_config().retain_syntax),
{
    GraphQLParser::lemma_advanced(base, before);
    GraphQLParser::lemma_advanced(base, after);
    GraphQLParser::lemma_advanced(before, after);
    GraphQLParser::lemma_advanced(mid, after);
    GraphQLParser::lemma_last_end(before, after);
    let ts = base.rest().subrange(1, after.pos() - base.pos());
    let k = before.pos() - base.pos() - 1;
    assert(fs0.push(f).drop_last() =~= fs0);
    assert(ts.subrange(0, k) =~= base.rest().subrange(1, before.pos() - base.pos()));
    assert(ts[k] == before.rest()[0]);
    assert(ts[k + 1] == before.rest()[1]);
    assert(ts.subrange(k + 2, ts.len() as int) =~= mid.rest().subrange(0, after.pos() - mid.pos()));
    assert(ts.last() == before.rest().subrange(0, after.pos() - before.pos()).last());
}

/// Whether values parsed in `context` may hold variables.
pub open spec fn allows_variables(context: ConstContext) -> bool {
    context is AllowVariables
}

/// How deeply the value `v` nests: 1 for a scalar or a variable, one more
/// than its deepest element or field value for a list or an object.
pub open spec fn value_nesting(v: ast::Value) -> nat
    decreases v, 1nat,
{
    match v {
        ast::Value::List(l) => 1 + values_nesting(l.values@),
        ast::Value::Object(o) => 1 + fields_nesting(o.fields@),
        _ => 1,
    }
}

/// The deepest nesting among the values `vs` (0 when there are none).
pub open spec fn values_nesting(vs: Seq<ast::Value>) -> nat
    decreases vs, 0nat,
{
    if vs.len() == 0 {
        0
    } else {
        let a = values_nesting(vs.drop_last());
        let b = value_nesting(vs.last());
        if a >= b {
            a
        } else {
            b
        }
    }
}

/// The deepest nesting among the values of the fields `fs` (0 when there
/// are none).
pub open spec fn fields_nesting(fs: Seq<ast::ObjectField>) -> nat
    decreases fs, 0nat,
{
    if fs.len() == 0 {
        0
    } else {
        let a = fields_nesting(fs.drop_last());
        let b = value_nesting(fs.last().value);
        if a >= b {
            a
        } else {
            b
        }
    }
}

/// The value `v` is written with the first `n` tokens of `ts`, holds
/// variables only where `context` allows them, and nests at most `room`
/// deep.
pub open spec fn value_at(
    ts: Seq<GraphQLToken>,
    retain: bool,
    context: ConstContext,
    room: int,
    v: ast::Value,
    n: int,
) -> bool {
    &&& 0 < n <= ts.len()
    &&& value_written(v, ts.subrange(0, n), retain)
    &&& allows_variables(context) || value_is_const(v)
    &&& value_nesting(v) <= room
}

/// The tokens `ts` begin with a well-formed value that parsing in
/// `context` with `room` levels of nesting left accepts.
pub open spec fn starts_with_value(ts: Seq<GraphQLToken>, retain: bool, context: ConstContext, room: int) -> bool {
    exists|v: ast::Value, n: int| #[trigger] value_at(ts, retain, context, room, v, n)
}

/// A written value starts with a token that can start one (never a closing
/// bracket or brace, never `Eof`), and that token tells its variant.
pub proof fn lemma_value_written_first(v: ast::Value, ts: Seq<GraphQLToken>, retain: bool)
    requires
        value_written(v, ts, retain),
    ensures
        ts.len() >= 1,
        ts.len() == value_len(v),
        is_value_start(ts[0].kind),
        !(ts[0].kind is Error),
        ts[0].kind is SquareBracketOpen <==> v is List,
        ts[0].kind is CurlyBraceOpen <==> v is Object,
        ts[0].kind is Dollar <==> v is Variable,
{
}

/// The first of several written values is written with their first tokens,
/// and the others with the tokens after those.
proof fn lemma_values_written_front(vs: Seq<ast::Value>, ts: Seq<GraphQLToken>, retain: bool)
    requires
        values_written(vs, ts, retain),
        vs.len() > 0,
    ensures
        value_len(vs[0]) <= ts.len(),
        value_written(vs[0], ts.subrange(0, value_len(vs[0]) as int), retain),
        values_written(vs.drop_first(), ts.subrange(value_len(vs[0]) as int, ts.len() as int), retain),
    decreases vs.len(),
{
    let k = ts.len() - value_len(vs.last());
    if vs.len() == 1 {
        assert(vs.drop_last().len() == 0);
        reveal_with_fuel(values_written, 2);
        assert(k == 0);
        assert(ts.subrange(k, ts.len() as int) =~= ts.subrange(0, value_len(vs[0]) as int));
        assert(vs.drop_first() =~= Seq::<ast::Value>::empty());
    } else {
        let dl = vs.drop_last();
        let t0 = ts.subrange(0, k);
        lemma_values_written_front(dl, t0, retain);
        let a = value_len(vs[0]) as int;
        assert(dl[0] == vs[0]);
        assert(t0.subrange(0, a) =~= ts.subrange(0, a));
        let rest = vs.drop_first();
        let tr = ts.subrange(a, ts.len() as int);
        assert(rest.last() == vs.last());
        assert(rest.drop_last() =~= dl.drop_first());
        assert(tr.subrange(0, k - a) =~= t0.subrange(a, t0.len() as int));
        assert(tr.subrange(k - a, tr.len() as int) =~= ts.subrange(k, ts.len() as int));
    }
}

/// The first of several written fields is written with their first tokens
/// (a name, a colon and its value), and the others with the tokens after
/// those.
proof fn lemma_fields_written_front(fs: Seq<ast::ObjectField>, ts: Seq<GraphQLToken>, retain: bool)
    requires
        fields_written(fs, ts, retain),
        fs.len() > 0,
    ensures
        2 + value_len(fs[0].value) <= ts.len(),
        is_name_token(ts[0]),
        ts[1].kind is Colon,
        value_written(fs[0].value, ts.subrange(2, 2 + value_len(fs[0].value) as int), retain),
        fields_written(fs.drop_first(), ts.subrange(2 + value_len(fs[0].value) as int, ts.len() as int), retain),
    decreases fs.len(),
{
    let k = ts.len() - 2 - value_len(fs.last().value);
    if fs.len() == 1 {
        assert(fs.drop_last().len() == 0);
        reveal_with_fuel(fields_written, 2);
        assert(k == 0);
        assert(ts.subrange(k + 2, ts.len() as int) =~= ts.subrange(2, 2 + value_len(fs[0].value) as int));
        assert(fs.drop_first() =~= Seq::<ast::ObjectField>::empty());
    } else {
        let dl = fs.drop_last();
        let t0 = ts.subrange(0, k);
        lemma_fields_written_front(dl, t0, retain);
        let a: int = 2 + value_len(fs[0].value) as int;
        assert(dl[0] == fs[0]);
        assert(t0.subrange(2, a) =~= ts.subrange(2, a));
        assert(t0[0] == ts[0] && t0[1] == ts[1]);
        let rest = fs.drop_first();
        let tr = ts.subrange(a, ts.len() as int);
        assert(rest.last() == fs.last());
        assert(rest.drop_last() =~= dl.drop_first());
        assert(tr.subrange(0, k - a) =~= t0.subrange(a, t0.len() as int));
        assert(tr[k - a] == ts[k] && tr[k - a + 1] == ts[k + 1]);
        assert(tr.subrange(k - a + 2, tr.len() as int) =~= ts.subrange(k + 2, ts.len() as int));
        assert(tr.last() == ts.last());
    }
}

/// No written value is a proper prefix of another: two values written
/// with prefixes of the same tokens are written with equally many of them.
pub proof fn lemma_value_written_unique_len(
    v1: ast::Value,
    v2: ast::Value,
    s: Seq<GraphQLToken>,
    n1: int,
    n2: int,
    retain: bool,
)
    requires
        0 <= n1 <= s.len(),
        0 <= n2 <= s.len(),
        value_written(v1, s.subrange(0, n1), retain),
        value_written(v2, s.subrange(0, n2), retain),
    ensures
        n1 == n2,
    decreases v1, 1nat,
{
    lemma_value_written_first(v1, s.subrange(0, n1), retain);
    lemma_value_written_first(v2, s.subrange(0, n2), retain);
    match v1 {
        ast::Value::List(l1) => {
            let l2 = v2->List_0;
            let t = s.subrange(1, s.len() as int);
            assert(s.subrange(0, n1).subrange(1, n1 - 1) =~= t.subrange(0, n1 - 2));
            assert(s.subrange(0, n2).subrange(1, n2 - 1) =~= t.subrange(0, n2 - 2));
            assert(t[n1 - 2] == s.subrange(0, n1).last());
            assert(t[n2 - 2] == s.subrange(0, n2).last());
            lemma_values_written_unique_len(l1.values@, l2.values@, t, n1 - 2, n2 - 2, retain);
        },
        ast::Value::Object(o1) => {
            let o2 = v2->Object_0;
            let t = s.subrange(1, s.len() as int);
            assert(s.subrange(0, n1).subrange(1, n1 - 1) =~= t.subrange(0, n1 - 2));
            assert(s.subrange(0, n2).subrange(1, n2 - 1) =~= t.subrange(0, n2 - 2));
            assert(t[n1 - 2] == s.subrange(0, n1).last());
            assert(t[n2 - 2] == s.subrange(0, n2).last());
            lemma_fields_written_unique_len(o1.fields@, o2.fields@, t, n1 - 2, n2 - 2, retain);
        },
        _ => {},
    }
}

/// Two runs of values written with prefixes of the same tokens, each
/// followed by `]`, are written with equally many of them.
proof fn lemma_values_written_unique_len(
    vs1: Seq<ast::Value>,
    vs2: Seq<ast::Value>,
    t: Seq<GraphQLToken>,
    m1: int,
    m2: int,
    retain: bool,
)
    requires
        0 <= m1 < t.len(),
        0 <= m2 < t.len(),
        values_written(vs1, t.subrange(0, m1), retain),
        values_written(vs2, t.subrange(0, m2), retain),
        t[m1].kind is SquareBracketClose,
        t[m2].kind is SquareBracketClose,
    ensures
        m1 == m2,
    decreases vs1, 0nat,
{
    if vs1.len() == 0 {
        if vs2.len() > 0 {
            lemma_values_written_front(vs2, t.subrange(0, m2), retain);
            let a = value_len(vs2[0]) as int;
            assert(t.subrange(0, m2).subrange(0, a) =~= t.subrange(0, a));
            lemma_value_written_first(vs2[0], t.subrange(0, a), retain);
            assert(t.subrange(0, a)[0] == t[0]);
        }
    } else if vs2.len() == 0 {
        lemma_values_written_front(vs1, t.subrange(0, m1), retain);
        let a = value_len(vs1[0]) as int;
        assert(t.subrange(0, m1).subrange(0, a) =~= t.subrange(0, a));
        lemma_value_written_first(vs1[0], t.subrange(0, a), retain);
        assert(t.subrange(0, a)[0] == t[0]);
    } else {
        lemma_values_written_front(vs1, t.subrange(0, m1), retain);
        lemma_values_written_front(vs2, t.subrange(0, m2), retain);
        let a1 = value_len(vs1[0]) as int;
        let a2 = value_len(vs2[0]) as int;
        assert(t.subrange(0, m1).subrange(0, a1) =~= t.subrange(0, a1));
        assert(t.subrange(0, m2).subrange(0, a2) =~= t.subrange(0, a2));
        lemma_value_written_unique_len(vs1[0], vs2[0], t, a1, a2, retain);
        let u = t.subrange(a1, t.len() as int);
        assert(t.subrange(0, m1).subrange(a1, m1) =~= u.subrange(0, m1 - a1));
        assert(t.subrange(0, m2).subrange(a1, m2) =~= u.subrange(0, m2 - a1));
        assert(u[m1 - a1] == t[m1]);
        assert(u[m2 - a1] == t[m2]);
        lemma_values_written_unique_len(vs1.drop_first(), vs2.drop_first(), u, m1 - a1, m2 - a1, retain);
    }
}

/// Two runs of object fields written with prefixes of the same tokens, each
/// followed by `}`, are written with equally many of them.
proof fn lemma_fields_written_unique_len(
    fs1: Seq<ast::ObjectField>,
    fs2: Seq<ast::ObjectField>,
    t: Seq<GraphQLToken>,
    m1: int,
    m2: int,
    retain: bool,
)
    requires
        0 <= m1 < t.len(),
        0 <= m2 < t.len(),
        fields_written(fs1, t.subrange(0, m1), retain),
        fields_written(fs2, t.subrange(0, m2), retain),
        t[m1].kind is CurlyBraceClose,
        t[m2].kind is CurlyBraceClose,
    ensures
        m1 == m2,
    decreases fs1, 0nat,
{
    if fs1.len() == 0 {
        if fs2.len() > 0 {
            lemma_fields_written_front(fs2, t.subrange(0, m2), retain);
            assert(t.subrange(0, m2)[0] == t[0]);
        }
    } else if fs2.len() == 0 {
        lemma_fields_written_front(fs1, t.subrange(0, m1), retain);
        assert(t.subrange(0, m1)[0] == t[0]);
    } else {
        lemma_fields_written_front(fs1, t.subrange(0, m1), retain);
        lemma_fields_written_front(fs2, t.subrange(0, m2), retain);
        let a1: int = 2 + value_len(fs1[0].value) as int;
        let a2: int = 2 + value_len(fs2[0].value) as int;
        let w = t.subrange(2, t.len() as int);
        assert(t.subrange(0, m1).subrange(2, a1) =~= w.subrange(0, a1 - 2));
        assert(t.subrange(0, m2).subrange(2, a2) =~= w.subrange(0, a2 - 2));
        lemma_value_written_unique_len(fs1[0].value, fs2[0].value, w, a1 - 2, a2 - 2, retain);
        let u = t.subrange(a1, t.len() as int);
        assert(t.subrange(0, m1).subrange(a1, m1) =~= u.subrange(0, m1 - a1));
        assert(t.subrange(0, m2).subrange(a1, m2) =~= u.subrange(0, m2 - a1));
        assert(u[m1 - a1] == t[m1]);
        assert(u[m2 - a1] == t[m2]);
        lemma_fields_written_unique_len(fs1.drop_first(), fs2.drop_first(), u, m1 - a1, m2 - a1, retain);
    }
}

/// Each of several values nests no deeper than they do together.
pub proof fn lemma_values_nesting(vs: Seq<ast::Value>, i: int)
    requires
        0 <= i < vs.len(),
    ensures
        value_nesting(vs[i]) <= values_nesting(vs),
    decreases vs.len(),
{
    if i < vs.len() - 1 {
        lemma_values_nesting(vs.drop_last(), i);
    }
}

/// Each field value nests no deeper than the fields do together.
proof fn lemma_fields_nesting(fs: Seq<ast::ObjectField>, i: int)
    requires
        0 <= i < fs.len(),
    ensures
        value_nesting(fs[i].value) <= fields_nesting(fs),
    decreases fs.len(),
{
    if i < fs.len() - 1 {
        lemma_fields_nesting(fs.drop_last(), i);
    }
}

/// Parses an integer literal as std's `i64` parsing reads it.
pub fn parse_int_literal(s: &str) -> (r: Option<i64>)
    ensures
        match i64_literal(s@) {
            Some(v) => r == Some(v as i64),
            None => r is None,
        },
{
    let ghost cs = s@;
    let n = s.unicode_len();
    let mut start: usize = 0;
    let mut neg = false;
    if n > 0 {
        let c0 = s.get_char(0);
        if c0 == '-' || c0 == '+' {
            start = 1;
            neg = c0 == '-';
        }
    }
    assert(start == sign_len(cs));
    assert(neg == (cs.len() > 0 && cs[0] == '-'));
    if start >= n {
        assert(cs.subrange(sign_len(cs), cs.len() as int).len() == 0);
        return None;
    }
    let cap: u128 = 9223372036854775809;
    let mut acc: u128 = 0;
    let mut i: usize = start;
    while i < n
        invariant
            n == cs.len(),
            cs == s@,
            start == sign_len(cs),
            start <= i <= n,
            cap == 9223372036854775809,
            acc <= cap,
            acc == (if digits_value(cs.subrange(start as int, i as int)) >= cap {
                cap as nat
            } else {
                digits_value(cs.subrange(start as int, i as int))
            }),
            forall|k: int| start <= k < i ==> is_digit_char(#[trigger] cs[k]),
        decreases n - i,
    {
        let c = s.get_char(i);
        if c < '0' || c > '9' {
            proof {
                let d = cs.subrange(start as int, cs.len() as int);
                assert(d[i - start] == cs[i as int]);
                assert(!is_digit_char(d[i - start]));
            }
            return None;
        }
        let d: u128 = (c as u32 - 48) as u128;
        proof {
            let pre = cs.subrange(start as int, i as int);
            let nxt = cs.subrange(start as int, i + 1);
            assert(nxt.drop_last() =~= pre);
            assert(nxt.last() == cs[i as int]);
            assert(digits_value(nxt) == digits_value(pre) * 10 + d);
        }
        if acc >= cap {
            acc = cap;
        } else if acc * 10 + d > cap {
            acc = cap;
        } else {
            acc = acc * 10 + d;
        }
        i = i + 1;
    }
    proof {
        let d = cs.subrange(start as int, cs.len() as int);
        assert(d =~= cs.subrange(start as int, i as int));
        assert forall|k: int| 0 <= k < d.len() implies is_digit_char(#[trigger] d[k]) by {
            assert(d[k] == cs[start + k]);
        }
    }
    if neg {
        if acc > 9223372036854775808 {
            None
        } else {
            let m: i128 = acc as i128;
            Some((0 - m) as i64)
        }
    } else {
        if acc > 9223372036854775807 {
            None
        } else {
            Some(acc as i64)
        }
    }
}

impl<'src> GraphQLParser<'src> {
    /// Parses a value (a literal or a variable reference); `context` decides
    /// whether variables are allowed.
    pub(crate) fn parse_value(&mut self, context: ConstContext) -> (r: Result<ast::Value, ()>)
        requires
            old(self).inv(),
        ensures
            advanced(*old(self), *final(self)),
            progressed(*old(self), *final(self), r),
            old(self).rest().len() > 0 && old(self).depth() < MAX_RECURSION_DEPTH && scalar_value(
                old(self).rest()[0],
                old(self).spec_config().retain_syntax,
            ) is Some ==> r == Ok::<ast::Value, ()>(
                scalar_value(old(self).rest()[0], old(self).spec_config().retain_syntax)->0,
            ) && final(self).pos() == old(self).pos() + 1 && (if is_bad_int(old(self).rest()[0]) {
                bad_int_reported(old(self).rest()[0], old(self).spec_errors(), final(self).spec_errors())
            } else {
                final(self).spec_errors() == old(self).spec_errors()
            }),
            old(self).rest().len() > 0 && old(self).depth() < MAX_RECURSION_DEPTH && old(self).rest()[0].kind is Dollar ==> (r is Ok <==> allows_variables(context) && old(self).rest().len() > 1 && is_name_token(old(self).rest()[1])),
            r is Ok && old(self).rest()[0].kind is Dollar ==> (r->Ok_0 matches ast::Value::Variable(x)
                && name_of(x.name, old(self).rest()[1])),
            r is Ok && old(self).rest()[0].kind is SquareBracketOpen ==> r->Ok_0 is List,
            r is Ok && old(self).rest()[0].kind is CurlyBraceOpen ==> r->Ok_0 is Object,
            r is Ok ==> old(self).rest().len() > 0 && value_span(r->Ok_0).start_inclusive == old(self).rest()[0].span.start_inclusive && final(self).last_end() == Some(
                value_span(r->Ok_0).end_exclusive,
            ),
            r is Ok && !allows_variables(context) ==> value_is_const(r->Ok_0),
            final(self).pos() == old(self).pos() ==> r is Err && (old(self).rest().len() > 0
                ==> !is_value_start(old(self).rest()[0].kind)),
            r is Ok && final(self).spec_errors().len() == old(self).spec_errors().len() ==> value_written(
                r->Ok_0,
                old(self).rest().subrange(0, final(self).pos() - old(self).pos()),
                old(self).spec_config().retain_syntax,
            ),
            starts_with_value(
                old(self).rest(),
                old(self).spec_config().retain_syntax,
                context,
                MAX_RECURSION_DEPTH - old(self).depth(),
            ) ==> r is Ok && final(self).spec_errors() == old(self).spec_errors(),
            forall|v: ast::Value, n: int|
                #[trigger] value_at(
                    old(self).rest(),
                    old(self).spec_config().retain_syntax,
                    context,
                    MAX_RECURSION_DEPTH - old(self).depth(),
                    v,
                    n,
                ) ==> r is Ok && final(self).pos() == old(self).pos() + n && value_written(
                    r->Ok_0,
                    old(self).rest().subrange(0, n),
                    old(self).spec_config().retain_syntax,
                ),
        decreases MAX_RECURSION_DEPTH - old(self).depth(), 2int,
    {
        proof {
            old(self).lemma_inv();
            let retain = old(self).spec_config().retain_syntax;
            let room = MAX_RECURSION_DEPTH - old(self).depth();
            if starts_with_value(old(self).rest(), retain, context, room) {
                let w: (ast::Value, int) = choose|v: ast::Value, n: int| value_at(old(self).rest(), retain, context, room, v, n);
                assert(value_nesting(w.0) >= 1);
            }
        }
        self.enter_recursion()?;
        proof {
            let retain = old(self).spec_config().retain_syntax;
            let room = MAX_RECURSION_DEPTH - old(self).depth();
            assert(self.rest() =~= old(self).rest());
            if starts_with_value(old(self).rest(), retain, context, room) {
                let w: (ast::Value, int) = choose|v: ast::Value, n: int| value_at(old(self).rest(), retain, context, room, v, n);
                assert(room == MAX_RECURSION_DEPTH - self.depth() + 1);
                assert(value_at(self.rest(), retain, context, room, w.0, w.1));
            }
        }
        let result = self.parse_value_impl(context);
        self.exit_recursion();
        proof {
            let retain = old(self).spec_config().retain_syntax;
            let room = MAX_RECURSION_DEPTH - old(self).depth();
            assert forall|v: ast::Value, n: int| #[trigger] value_at(old(self).rest(), retain, context, room, v, n) implies result is Ok
                && self.pos() == old(self).pos() + n && value_written(result->Ok_0, old(self).rest().subrange(0, n), retain) by {
                assert(starts_with_value(old(self).rest(), retain, context, room));
                GraphQLParser::lemma_advanced(*old(self), *self);
                lemma_value_written_unique_len(
                    result->Ok_0,
                    v,
                    old(self).rest(),
                    self.pos() - old(self).pos(),
                    n,
                    retain,
                );
            }
        }
        result
    }

    /// Parses a value, one nesting level down.
    fn parse_value_impl(&mut self, context: ConstContext) -> (r: Result<ast::Value, ()>)
        requires
            old(self).inv(),
            old(self).depth() > 0,
        ensures
            advanced(*old(self), *final(self)),
            progressed(*old(self), *final(self), r),
            old(self).rest().len() > 0 && scalar_value(
                old(self).rest()[0],
                old(self).spec_config().retain_syntax,
            ) is Some ==> r == Ok::<ast::Value, ()>(
                scalar_value(old(self).rest()[0], old(self).spec_config().retain_syntax)->0,
            ) && final(self).pos() == old(self).pos() + 1 && (if is_bad_int(old(self).rest()[0]) {
                bad_int_reported(old(self).rest()[0], old(self).spec_errors(), final(self).spec_errors())
            } else {
                final(self).spec_errors() == old(self).spec_errors()
            }),
            old(self).rest().len() > 0 && old(self).rest()[0].kind is Dollar ==> (r is Ok
                <==> allows_variables(context) && old(self).rest().len() > 1 && is_name_token(
                old(self).rest()[1],
            )),
            r is Ok && old(self).rest()[0].kind is Dollar ==> (r->Ok_0 matches ast::Value::Variable(x)
                && name_of(x.name, old(self).rest()[1])),
            r is Ok && old(self).rest()[0].kind is SquareBracketOpen ==> r->Ok_0 is List,
            r is Ok && old(self).rest()[0].kind is CurlyBraceOpen ==> r->Ok_0 is Object,
            r is Ok ==> old(self).rest().len() > 0 && value_span(r->Ok_0).start_inclusive == old(self).rest()[0].span.start_inclusive && final(self).last_end() == Some(
                value_span(r->Ok_0).end_exclusive,
            ),
            r is Ok && !allows_variables(context) ==> value_is_const(r->Ok_0),
            final(self).pos() == old(self).pos() ==> r is Err && (old(self).rest().len() > 0
                ==> !is_value_start(old(self).rest()[0].kind)),
            r is Ok && final(self).spec_errors().len() == old(self).spec_errors().len() ==> value_written(
                r->Ok_0,
                old(self).rest().subrange(0, final(self).pos() - old(self).pos()),
                old(self).spec_config().retain_syntax,
            ),
            starts_with_value(
                old(self).rest(),
                old(self).spec_config().retain_syntax,
                context,
                MAX_RECURSION_DEPTH - old(self).depth() + 1,
            ) ==> r is Ok && final(self).spec_errors() == old(self).spec_errors(),
        decreases MAX_RECURSION_DEPTH - old(self).depth() + 1, 1int,
    {
        proof {
            old(self).lemma_inv();
            let retain = old(self).spec_config().retain_syntax;
            let room = MAX_RECURSION_DEPTH - old(self).depth() + 1;
            if starts_with_value(old(self).rest(), retain, context, room) {
                let w: (ast::Value, int) = choose|v: ast::Value, n: int| value_at(old(self).rest(), retain, context, room, v, n);
                let ts = old(self).rest().subrange(0, w.1);
                lemma_value_written_first(w.0, ts, retain);
                assert(ts[0] == old(self).rest()[0]);
                if w.0 is Variable {
                    assert(ts[1] == old(self).rest()[1]);
                }
            }
        }
        if self.rest_len() == 0 {
            self.record_unexpected("value", vec!["value".to_owned()]);
            return Err(());
        }
        let retain = self.retain_syntax();
        let kind_tag = self.next_value_kind();
        if kind_tag == 1 {
            // `$name`
            let span = self.next_span();
            let dollar = self.take_token();
            match context {
                ConstContext::AllowVariables => {},
                _ => {
                    let mut message = "variables are not allowed in ".to_owned();
                    message.append(context.description());
                    self.record_error(
                        GraphQLParseError::new(
                            message,
                            GraphQLParseErrorKind::InvalidSyntax,
                            span.to_source_span(),
                        ),
                    );
                    return Err(());
                },
            }
            let ghost mid = *self;
            proof {
                GraphQLParser::lemma_advanced(*old(self), mid);
            }
            let name = self.expect_ast_name()?;
            let var_span = self.span_from(dollar.span.start_inclusive);
            let syntax = if retain {
                Some(ast::VariableValueSyntax { dollar })
            } else {
                None
            };
            return Ok(ast::Value::Variable(ast::VariableValue { name, span: var_span, syntax }));
        } else if kind_tag == 2 {
            return self.parse_list_value(context);
        } else if kind_tag == 3 {
            return self.parse_object_value(context);
        } else if kind_tag == 4 {
            self.lexer_error();
            return Err(());
        } else if kind_tag == 5 {
            let t = self.take_token();
            return self.int_value(t, retain);
        } else if kind_tag == 6 {
            let t = self.take_token();
            return Ok(GraphQLParser::scalar_from_token(t, retain));
        } else {
            self.record_unexpected("value", vec!["value".to_owned()]);
            return Err(());
        }
    }

    /// Classifies the next token for value parsing: `1` for `$`, `2` for
    /// `[`, `3` for `{`, `4` for a lexer error, `5` for an integer, `6` for
    /// another scalar, `0` otherwise.
    fn next_value_kind(&self) -> (r: u8)
        requires
            self.rest().len() > 0,
        ensures
            r == 1 <==> self.rest()[0].kind is Dollar,
            r == 2 <==> self.rest()[0].kind is SquareBracketOpen,
            r == 3 <==> self.rest()[0].kind is CurlyBraceOpen,
            r == 4 <==> self.rest()[0].kind is Error,
            r == 5 <==> self.rest()[0].kind is IntValue,
            r == 6 <==> (is_value_start(self.rest()[0].kind) && r != 1 && r != 2 && r != 3 && r != 4
                && r != 5),
            r == 0 <==> !is_value_start(self.rest()[0].kind),
    {
        match &self.peek().unwrap().kind {
            GraphQLTokenKind::Dollar => 1,
            GraphQLTokenKind::SquareBracketOpen => 2,
            GraphQLTokenKind::CurlyBraceOpen => 3,
            GraphQLTokenKind::Error { .. } => 4,
            GraphQLTokenKind::IntValue(_) => 5,
            GraphQLTokenKind::FloatValue(_) | GraphQLTokenKind::StringValue { .. }
            | GraphQLTokenKind::True | GraphQLTokenKind::False | GraphQLTokenKind::Null
            | GraphQLTokenKind::Name(_) => 6,
            _ => 0,
        }
    }

    /// The value of a consumed integer token; one out of the 32-bit range
    /// is reported and clamped to `i32::MAX` or `i32::MIN`.
    fn int_value(&mut self, t: GraphQLToken, retain: bool) -> (r: Result<ast::Value, ()>)
        requires
            old(self).inv(),
            t.kind is IntValue,
        ensures
            advanced(*old(self), *final(self)),
            final(self).pos() == old(self).pos(),
            r == Ok::<ast::Value, ()>(scalar_value(t, retain)->0),
            !is_bad_int(t) ==> final(self).spec_errors() == old(self).spec_errors(),
            is_bad_int(t) ==> bad_int_reported(t, old(self).spec_errors(), final(self).spec_errors()),
    {
        let raw = match &t.kind {
            GraphQLTokenKind::IntValue(s) => s.clone(),
            _ => String::new(),
        };
        let span = t.span.duplicate();
        let value: i32;
        match parse_int_literal(raw.as_str()) {
            Some(v) => {
                if v >= -2147483648 && v <= 2147483647 {
                    value = v as i32;
                } else {
                    value = if v > 0 {
                        2147483647
                    } else {
                        -2147483648
                    };
                    let mut message = "integer `".to_owned();
                    message.append(raw.as_str());
                    message.append("` overflows 32-bit integer");
                    self.record_error(
                        GraphQLParseError::new(
                            message,
                            GraphQLParseErrorKind::InvalidValue(ValueParsingError::Int(raw)),
                            t.span.to_source_span(),
                        ),
                    );
                }
            },
            None => {
                let negative = raw.as_str().unicode_len() > 0 && raw.as_str().get_char(0) == '-';
                value = if negative {
                    -2147483648
                } else {
                    2147483647
                };
                let mut message = "invalid integer `".to_owned();
                message.append(raw.as_str());
                message.append("`");
                self.record_error(
                    GraphQLParseError::new(
                        message,
                        GraphQLParseErrorKind::InvalidValue(ValueParsingError::Int(raw)),
                        t.span.to_source_span(),
                    ),
                );
            },
        }
        let syntax = if retain {
            Some(ast::IntValueSyntax { token: t })
        } else {
            None
        };
        proof {
            assert(old(self).spec_errors().push(self.spec_errors().last()).subrange(0, old(self).spec_errors().len() as int) =~= old(self).spec_errors());
        }
        Ok(ast::Value::Int(ast::IntValue { value, span, syntax }))
    }

    /// The value of a consumed scalar token other than an integer.
    fn scalar_from_token(t: GraphQLToken, retain: bool) -> (v: ast::Value)
        requires
            scalar_value(t, retain) is Some,
            !(t.kind is IntValue),
        ensures
            v == scalar_value(t, retain)->0,
    {
        let span = t.span.duplicate();
        match &t.kind {
            GraphQLTokenKind::FloatValue(s) => {
                let value = s.clone();
                let syntax = if retain {
                    Some(ast::FloatValueSyntax { token: t })
                } else {
                    None
                };
                ast::Value::Float(ast::FloatValue { value, span, syntax })
            },
            GraphQLTokenKind::StringValue { value, is_block } => {
                let value = value.clone();
                let is_block = *is_block;
                let syntax = if retain {
                    Some(ast::StringValueSyntax { token: t })
                } else {
                    None
                };
                ast::Value::String(ast::StringValue { is_block, value, span, syntax })
            },
            GraphQLTokenKind::True => {
                let syntax = if retain {
                    Some(ast::BooleanValueSyntax { token: t })
                } else {
                    None
                };
                ast::Value::Boolean(ast::BooleanValue { value: true, span, syntax })
            },
            GraphQLTokenKind::False => {
                let syntax = if retain {
                    Some(ast::BooleanValueSyntax { token: t })
                } else {
                    None
                };
                ast::Value::Boolean(ast::BooleanValue { value: false, span, syntax })
            },
            GraphQLTokenKind::Null => {
                let syntax = if retain {
                    Some(ast::NullValueSyntax { token: t })
                } else {
                    None
                };
                ast::Value::Null(ast::NullValue { span, syntax })
            },
            GraphQLTokenKind::Name(s) => {
                let value = s.clone();
                let syntax = if retain {
                    Some(ast::EnumValueSyntax { token: t })
                } else {
                    None
                };
                ast::Value::Enum(ast::EnumValue { value, span, syntax })
            },
            _ => {
                proof {
                    assert(false);
                }
                ast::Value::Null(ast::NullValue { span, syntax: None })
            },
        }
    }

    /// Whether the next token is a place to resume inside a list value.
    fn at_list_recovery_point(&self) -> (r: bool)
        ensures
            r == (self.rest().len() > 0 && is_list_recovery_point(self.rest()[0].kind)),
    {
        match self.peek() {
            None => false,
            Some(t) => match &t.kind {
                GraphQLTokenKind::SquareBracketClose | GraphQLTokenKind::Eof | GraphQLTokenKind::Dollar
                | GraphQLTokenKind::IntValue(_) | GraphQLTokenKind::FloatValue(_)
                | GraphQLTokenKind::StringValue { .. } | GraphQLTokenKind::True
                | GraphQLTokenKind::False | GraphQLTokenKind::Null
                | GraphQLTokenKind::SquareBracketOpen | GraphQLTokenKind::CurlyBraceOpen
                | GraphQLTokenKind::Name(_) => true,
                GraphQLTokenKind::Ampersand | GraphQLTokenKind::At | GraphQLTokenKind::Bang
                | GraphQLTokenKind::Colon | GraphQLTokenKind::CurlyBraceClose
                | GraphQLTokenKind::Ellipsis | GraphQLTokenKind::Equals
                | GraphQLTokenKind::ParenClose | GraphQLTokenKind::ParenOpen | GraphQLTokenKind::Pipe
                | GraphQLTokenKind::Error { .. } => false,
            },
        }
    }

    /// Skips tokens up to a place to resume inside a list value: `]`, the
    /// end of input, or a token that can start a value.
    fn skip_to_list_recovery_point(&mut self)
        requires
            old(self).inv(),
        ensures
            advanced(*old(self), *final(self)),
            final(self).spec_errors() == old(self).spec_errors(),
            old(self).rest().len() > 0 && !is_list_recovery_point(old(self).rest()[0].kind) ==> final(self).pos() > old(self).pos(),
    {
        loop
            invariant
                advanced(*old(self), *self),
                self.spec_errors() == old(self).spec_errors(),
                self.pos() == old(self).pos() ==> self.rest() == old(self).rest(),
            ensures
                self.rest().len() == 0 || is_list_recovery_point(self.rest()[0].kind),
            decreases self.rest().len(),
        {
            if self.rest_len() == 0 || self.at_list_recovery_point() {
                break;
            }
            self.consume_token();
        }
        proof {
            GraphQLParser::lemma_advanced(*old(self), *self);
        }
    }

    /// Parses a list value `[value ...]`, skipping past elements that fail.
    #[verifier::spinoff_prover]
    fn parse_list_value(&mut self, context: ConstContext) -> (r: Result<ast::Value, ()>)
        requires
            old(self).inv(),
            old(self).depth() > 0,
            old(self).rest().len() > 0,
            old(self).rest()[0].kind is SquareBracketOpen,
        ensures
            advanced(*old(self), *final(self)),
            progressed(*old(self), *final(self), r),
            final(self).pos() > old(self).pos(),
            r is Ok ==> r->Ok_0 is List && value_span(r->Ok_0).start_inclusive == old(self).rest()[0].span.start_inclusive
                && final(self).last_end() == Some(value_span(r->Ok_0).end_exclusive),
            r is Ok && !allows_variables(context) ==> value_is_const(r->Ok_0),
            r is Ok && final(self).spec_errors().len() == old(self).spec_errors().len() ==> value_written(
                r->Ok_0,
                old(self).rest().subrange(0, final(self).pos() - old(self).pos()),
                old(self).spec_config().retain_syntax,
            ),
            starts_with_value(
                old(self).rest(),
                old(self).spec_config().retain_syntax,
                context,
                MAX_RECURSION_DEPTH - old(self).depth() + 1,
            ) ==> r is Ok && final(self).spec_errors() == old(self).spec_errors(),
        decreases MAX_RECURSION_DEPTH - old(self).depth() + 1, 0int,
    {
        proof {
            old(self).lemma_inv();
        }
        let retain = self.retain_syntax();
        let ghost room = MAX_RECURSION_DEPTH - old(self).depth() + 1;
        let ghost pre = starts_with_value(old(self).rest(), retain, context, room);
        let ghost target: (ast::Value, int) = choose|v: ast::Value, n: int| value_at(old(self).rest(), retain, context, room, v, n);
        let ghost tn = target.1;
        let ghost tvs: Seq<ast::Value> = target.0->List_0.values@;
        proof {
            if pre {
                let ts = old(self).rest().subrange(0, tn);
                lemma_value_written_first(target.0, ts, retain);
                assert(ts.subrange(1, ts.len() - 1) =~= old(self).rest().subrange(1, tn - 1));
                assert(ts.last() == old(self).rest()[tn - 1]);
                assert(tvs.subrange(0, tvs.len() as int) =~= tvs);
            }
        }
        let open = self.take_token();
        self.push_delimiter(open.span.duplicate(), DelimiterContext::ListValue);
        let mut values: Vec<ast::Value> = Vec::new();
        loop
            invariant
                pre ==> value_at(old(self).rest(), retain, context, room, target.0, tn) && target.0 is List
                    && tvs == target.0->List_0.values@ && old(self).rest()[tn - 1].kind is SquareBracketClose
                    && self.spec_errors() == old(self).spec_errors() && values@.len() <= tvs.len()
                    && self.pos() - old(self).pos() <= tn - 1 && values_written(
                    tvs.subrange(values@.len() as int, tvs.len() as int),
                    old(self).rest().subrange(self.pos() - old(self).pos(), tn - 1),
                    retain,
                ),
                room == MAX_RECURSION_DEPTH - old(self).depth() + 1,
                pre == starts_with_value(old(self).rest(), retain, context, room),
                advanced(*old(self), *self),
                self.pos() > old(self).pos(),
                old(self).depth() > 0,
                old(self).depth() <= MAX_RECURSION_DEPTH,
                !allows_variables(context) ==> forall|i: int|
                    0 <= i < values@.len() ==> value_is_const(#[trigger] values@[i]),
                retain == old(self).spec_config().retain_syntax,
                old(self).inv(),
                self.spec_errors().len() == old(self).spec_errors().len() ==> values_written(
                    values@,
                    old(self).rest().subrange(1, self.pos() - old(self).pos()),
                    retain,
                ),
            ensures
                self.rest().len() > 0 && self.rest()[0].kind is SquareBracketClose,
            decreases self.rest().len(),
        {
            proof {
                GraphQLParser::lemma_advanced(*old(self), *self);
                if pre {
                    let k = values@.len() as int;
                    let p = self.pos() - old(self).pos();
                    let remaining = tvs.subrange(k, tvs.len() as int);
                    let rt = old(self).rest().subrange(p, tn - 1);
                    if k == tvs.len() {
                        assert(remaining.len() == 0);
                        assert(rt.len() == 0);
                        assert(self.rest()[0] == old(self).rest()[tn - 1]);
                        assert(kinds_match(self.rest()[0].kind, GraphQLTokenKind::SquareBracketClose));
                    } else {
                        lemma_values_written_front(remaining, rt, retain);
                        let a = value_len(tvs[k]) as int;
                        assert(remaining[0] == tvs[k]);
                        assert(rt.subrange(0, a) =~= self.rest().subrange(0, a));
                        lemma_value_written_first(tvs[k], self.rest().subrange(0, a), retain);
                        assert(self.rest().subrange(0, a)[0] == self.rest()[0]);
                        lemma_values_nesting(tvs, k);
                        assert(value_at(self.rest(), retain, context, MAX_RECURSION_DEPTH - self.depth(), tvs[k], a));
                        assert(!self.at_end());
                        assert(!kinds_match(self.rest()[0].kind, GraphQLTokenKind::SquareBracketClose));
                    }
                }
            }
            if self.peek_is(&GraphQLTokenKind::SquareBracketClose) {
                break;
            }
            if self.is_at_end() {
                self.record_unclosed("[", false);
                return Err(());
            }
            let ghost before = *self;
            let ghost vs0 = values@;
            match self.parse_value(context) {
                Ok(v) => {
                    values.push(v);
                    proof {
                        if self.spec_errors().len() == old(self).spec_errors().len() {
                            lemma_values_step(vs0, v, *old(self), before, *self);
                            assert(values@ == vs0.push(v));
                        }
                        if pre {
                            let k = vs0.len() as int;
                            let p = before.pos() - old(self).pos();
                            let remaining = tvs.subrange(k, tvs.len() as int);
                            let rt = old(self).rest().subrange(p, tn - 1);
                            let a = value_len(tvs[k]) as int;
                            GraphQLParser::lemma_advanced(before, *self);
                            GraphQLParser::lemma_advanced(*old(self), before);
                            assert(rt.subrange(0, a) =~= before.rest().subrange(0, a));
                            lemma_value_written_unique_len(v, tvs[k], before.rest(), self.pos() - before.pos(), a, retain);
                            assert(remaining.drop_first() =~= tvs.subrange(k + 1, tvs.len() as int));
                            assert(rt.subrange(a, rt.len() as int) =~= old(self).rest().subrange(p + a, tn - 1));
                        }
                    }
                },
                Err(()) => {
                    self.skip_to_list_recovery_point();
                    if self.peek_is(&GraphQLTokenKind::SquareBracketClose) {
                        break;
                    }
                },
            }
        }
        let ghost s_end = *self;
        let close = self.take_token();
        self.pop_delimiter();
        let span = self.span_from(open.span.start_inclusive);
        let syntax = if retain {
            Some(ast::ListValueSyntax { brackets: ast::DelimiterPair { open, close } })
        } else {
            None
        };
        proof {
            GraphQLParser::lemma_advanced(*old(self), s_end);
            GraphQLParser::lemma_advanced(*old(self), *self);
            if self.spec_errors().len() == old(self).spec_errors().len() {
                let n = self.pos() - old(self).pos();
                let ts = old(self).rest().subrange(0, n);
                assert(ts.subrange(1, ts.len() - 1) =~= old(self).rest().subrange(1, s_end.pos() - old(self).pos()));
                lemma_values_written_len(values@, ts.subrange(1, ts.len() - 1), retain);
            }
        }
        Ok(ast::Value::List(ast::ListValue { values, span, syntax }))
    }

    /// Parses an object value `{ name: value ... }`.
    #[verifier::spinoff_prover]
    #[verifier::rlimit(80)]
    fn parse_object_value(&mut self, context: ConstContext) -> (r: Result<ast::Value, ()>)
        requires
            old(self).inv(),
            old(self).depth() > 0,
            old(self).rest().len() > 0,
            old(self).rest()[0].kind is CurlyBraceOpen,
        ensures
            advanced(*old(self), *final(self)),
            progressed(*old(self), *final(self), r),
            final(self).pos() > old(self).pos(),
            r is Ok ==> r->Ok_0 is Object && value_span(r->Ok_0).start_inclusive == old(self).rest()[0].span.start_inclusive
                && final(self).last_end() == Some(value_span(r->Ok_0).end_exclusive),
            r is Ok && !allows_variables(context) ==> value_is_const(r->Ok_0),
            r is Ok && final(self).spec_errors().len() == old(self).spec_errors().len() ==> value_written(
                r->Ok_0,
                old(self).rest().subrange(0, final(self).pos() - old(self).pos()),
                old(self).spec_config().retain_syntax,
            ),
            starts_with_value(
                old(self).rest(),
                old(self).spec_config().retain_syntax,
                context,
                MAX_RECURSION_DEPTH - old(self).depth() + 1,
            ) ==> r is Ok && final(self).spec_errors() == old(self).spec_errors(),
        decreases MAX_RECURSION_DEPTH - old(self).depth() + 1, 0int,
    {
        proof {
            old(self).lemma_inv();
        }
        let retain = self.retain_syntax();
        let ghost room = MAX_RECURSION_DEPTH - old(self).depth() + 1;
        let ghost pre = starts_with_value(old(self).rest(), retain, context, room);
        let ghost target: (ast::Value, int) = choose|v: ast::Value, n: int| value_at(old(self).rest(), retain, context, room, v, n);
        let ghost tn = target.1;
        let ghost tfs: Seq<ast::ObjectField> = target.0->Object_0.fields@;
        proof {
            if pre {
                let ts = old(self).rest().subrange(0, tn);
                lemma_value_written_first(target.0, ts, retain);
                assert(ts.subrange(1, ts.len() - 1) =~= old(self).rest().subrange(1, tn - 1));
                assert(ts.last() == old(self).rest()[tn - 1]);
                assert(tfs.subrange(0, tfs.len() as int) =~= tfs);
            }
        }
        let open = self.take_token();
        self.push_delimiter(open.span.duplicate(), DelimiterContext::ObjectValue);
        let mut fields: Vec<ast::ObjectField> = Vec::new();
        loop
            invariant
                pre ==> value_at(old(self).rest(), retain, context, room, target.0, tn) && target.0 is Object
                    && tfs == target.0->Object_0.fields@ && old(self).rest()[tn - 1].kind is CurlyBraceClose
                    && self.spec_errors() == old(self).spec_errors() && fields@.len() <= tfs.len()
                    && self.pos() - old(self).pos() <= tn - 1 && fields_written(
                    tfs.subrange(fields@.len() as int, tfs.len() as int),
                    old(self).rest().subrange(self.pos() - old(self).pos(), tn - 1),
                    retain,
                ),
                room == MAX_RECURSION_DEPTH - old(self).depth() + 1,
                pre == starts_with_value(old(self).rest(), retain, context, room),
                advanced(*old(self), *self),
                self.pos() > old(self).pos(),
                old(self).depth() > 0,
                old(self).depth() <= MAX_RECURSION_DEPTH,
                !allows_variables(context) ==> forall|i: int|
                    0 <= i < fields@.len() ==> value_is_const(#[trigger] fields@[i].value),
                retain == old(self).spec_config().retain_syntax,
                old(self).inv(),
                self.spec_errors().len() == old(self).spec_errors().len() ==> fields_written(
                    fields@,
                    old(self).rest().subrange(1, self.pos() - old(self).pos()),
                    retain,
                ),
            ensures
                self.rest().len() > 0 && self.rest()[0].kind is CurlyBraceClose,
            decreases self.rest().len(),
        {
            proof {
                GraphQLParser::lemma_advanced(*old(self), *self);
                if pre {
                    let k = fields@.len() as int;
                    let p = self.pos() - old(self).pos();
                    let remaining = tfs.subrange(k, tfs.len() as int);
                    let rt = old(self).rest().subrange(p, tn - 1);
                    if k == tfs.len() {
                        assert(remaining.len() == 0);
                        assert(rt.len() == 0);
                        assert(self.rest()[0] == old(self).rest()[tn - 1]);
                        assert(kinds_match(self.rest()[0].kind, GraphQLTokenKind::CurlyBraceClose));
                    } else {
                        lemma_fields_written_front(remaining, rt, retain);
                        assert(remaining[0] == tfs[k]);
                        assert(rt[0] == self.rest()[0]);
                        assert(rt[1] == self.rest()[1]);
                        assert(!self.at_end());
                        assert(!kinds_match(self.rest()[0].kind, GraphQLTokenKind::CurlyBraceClose));
                    }
                }
            }
            if self.peek_is(&GraphQLTokenKind::CurlyBraceClose) {
                break;
            }
            if self.is_at_end() {
                self.record_unclosed("{", true);
                return Err(());
            }
            let ghost before = *self;
            let ghost fs0 = fields@;
            let name = self.expect_ast_name()?;
            proof {
                if pre {
                    GraphQLParser::lemma_advanced(before, *self);
                    assert(self.rest()[0] == before.rest()[1]);
                    assert(kinds_match(self.rest()[0].kind, GraphQLTokenKind::Colon));
                }
            }
            let colon = self.expect(&GraphQLTokenKind::Colon)?;
            let ghost mid = *self;
            proof {
                if pre {
                    let k = fs0.len() as int;
                    let p = before.pos() - old(self).pos();
                    let remaining = tfs.subrange(k, tfs.len() as int);
                    let rt = old(self).rest().subrange(p, tn - 1);
                    let a = value_len(tfs[k].value) as int;
                    GraphQLParser::lemma_advanced(before, mid);
                    GraphQLParser::lemma_advanced(*old(self), before);
                    assert(remaining[0] == tfs[k]);
                    assert(rt.subrange(2, 2 + a) =~= mid.rest().subrange(0, a));
                    lemma_fields_nesting(tfs, k);
                    assert(value_at(mid.rest(), retain, context, MAX_RECURSION_DEPTH - mid.depth(), tfs[k].value, a));
                }
            }
            let value = self.parse_value(context)?;
            let span = self.span_from(name.span.start_inclusive);
            let syntax = if retain {
                Some(ast::ObjectFieldSyntax { colon })
            } else {
                None
            };
            fields.push(ast::ObjectField { name, value, span, syntax });
            proof {
                if self.spec_errors().len() == old(self).spec_errors().len() {
                    lemma_fields_step(fs0, fields@.last(), *old(self), before, mid, *self);
                    assert(fields@ == fs0.push(fields@.last()));
                }
                if pre {
                    let k = fs0.len() as int;
                    let p = before.pos() - old(self).pos();
                    let remaining = tfs.subrange(k, tfs.len() as int);
                    let rt = old(self).rest().subrange(p, tn - 1);
                    let a = value_len(tfs[k].value) as int;
                    GraphQLParser::lemma_advanced(mid, *self);
                    GraphQLParser::lemma_advanced(*old(self), mid);
                    lemma_value_written_unique_len(
                        fields@.last().value,
                        tfs[k].value,
                        mid.rest(),
                        self.pos() - mid.pos(),
                        a,
                        retain,
                    );
                    assert(remaining.drop_first() =~= tfs.subrange(k + 1, tfs.len() as int));
                    assert(rt.subrange(2 + a, rt.len() as int) =~= old(self).rest().subrange(p + 2 + a, tn - 1));
                }
            }
        }
        let ghost s_end = *self;
        let close = self.take_token();
        self.pop_delimiter();
        let span = self.span_from(open.span.start_inclusive);
        let syntax = if retain {
            Some(ast::ObjectValueSyntax { braces: ast::DelimiterPair { open, close } })
        } else {
            None
        };
        proof {
            GraphQLParser::lemma_advanced(*old(self), s_end);
            GraphQLParser::lemma_advanced(*old(self), *self);
            if self.spec_errors().len() == old(self).spec_errors().len() {
                let n = self.pos() - old(self).pos();
                let ts = old(self).rest().subrange(0, n);
                assert(ts.subrange(1, ts.len() - 1) =~= old(self).rest().subrange(1, s_end.pos() - old(self).pos()));
                lemma_fields_written_len(fields@, ts.subrange(1, ts.len() - 1), retain);
            }
        }
        Ok(ast::Value::Object(ast::ObjectValue { fields, span, syntax }))
    }
}

} // verus!
