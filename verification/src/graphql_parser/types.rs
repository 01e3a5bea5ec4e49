//! Parsing of type annotations, directive annotations and arguments.

use crate::ast;
use crate::graphql_parse_error::GraphQLParseError;
use crate::graphql_parse_error_kind::GraphQLParseErrorKind;
use crate::graphql_parser::advanced;
use crate::graphql_parser::is_name_token;
use crate::graphql_parser::kinds_match;
use crate::graphql_parser::name_of;
use crate::graphql_parser::progressed;
use crate::graphql_parser::values::allows_variables;
use crate::graphql_parser::values::value_is_const;
use crate::graphql_parser::values::value_len;
use crate::graphql_parser::values::value_written;
use crate::graphql_parser::values::value_nesting;
use crate::graphql_parser::values::lemma_value_written_unique_len;
use crate::graphql_parser::values::lemma_value_written_first;
use crate::graphql_parser::values::lemma_values_nesting;
use crate::graphql_parser::values::value_at;
use crate::graphql_parser::values::starts_with_value;
use crate::graphql_parser::values::tokens_span;
use crate::graphql_parser::ConstContext;
use crate::graphql_parser::DelimiterContext;
use crate::graphql_parser::GraphQLParser;
use crate::graphql_parser::MAX_RECURSION_DEPTH;
use crate::graphql_source_span::GraphQLSourceSpan;
use crate::token::GraphQLToken;
use crate::token::GraphQLTokenKind;
use vstd::prelude::*;

verus! {

/// The span of a type annotation.
pub open spec fn type_span(t: ast::TypeAnnotation) -> GraphQLSourceSpan {
    match t {
        ast::TypeAnnotation::Named(n) => n.span,
        ast::TypeAnnotation::List(l) => l.span,
    }
}

/// The number of `!` tokens a nullability is written with.
pub open spec fn bang_len(n: ast::Nullability) -> nat {
    if n is NonNull {
        1
    } else {
        0
    }
}

/// The nullability of a type annotation.
pub open spec fn type_nullability(t: ast::TypeAnnotation) -> ast::Nullability {
    match t {
        ast::TypeAnnotation::Named(n) => n.nullability,
        ast::TypeAnnotation::List(l) => l.nullability,
    }
}

/// The number of tokens a type annotation is written with.
pub open spec fn type_len(t: ast::TypeAnnotation) -> nat
    decreases t,
{
    match t {
        ast::TypeAnnotation::Named(n) => 1 + bang_len(n.nullability),
        ast::TypeAnnotation::List(l) => 2 + type_len(*l.element_type) + bang_len(l.nullability),
    }
}

/// A non-null nullability written with the `!` token `t` carries it when
/// syntax is retained.
pub open spec fn bang_written(n: ast::Nullability, t: GraphQLToken, retain: bool) -> bool {
    n matches ast::Nullability::NonNull { syntax } ==> t.kind is Bang && syntax == (if retain {
        Some(t)
    } else {
        None
    })
}

/// The type annotation `t` is written with exactly the tokens `ts`: a name
/// token that its name denotes, or `[`, the tokens of its element type and
/// `]`; then `!` when it is non-null. Its span covers those tokens.
pub open spec fn type_written(t: ast::TypeAnnotation, ts: Seq<GraphQLToken>, retain: bool) -> bool
    decreases t,
{
    &&& ts.len() == type_len(t)
    &&& match t {
        ast::TypeAnnotation::Named(n) => {
            &&& is_name_token(ts[0])
            &&& name_of(n.name, ts[0])
            &&& bang_written(n.nullability, ts[1], retain)
            &&& n.span == tokens_span(ts[0], ts.last())
        },
        ast::TypeAnnotation::List(l) => {
            let k = type_len(*l.element_type) as int;
            &&& ts[0].kind is SquareBracketOpen
            &&& type_written(*l.element_type, ts.subrange(1, 1 + k), retain)
            &&& ts[1 + k].kind is SquareBracketClose
            &&& bang_written(l.nullability, ts[2 + k], retain)
            &&& l.span == tokens_span(ts[0], ts.last())
        },
    }
}

/// How deeply the type annotation `t` nests: 1 for a named type, one more
/// than its element type for a list type.
pub open spec fn type_depth(t: ast::TypeAnnotation) -> nat
    decreases t,
{
    match t {
        ast::TypeAnnotation::Named(_) => 1,
        ast::TypeAnnotation::List(l) => 1 + type_depth(*l.element_type),
    }
}

/// The type annotation `t` is written with the first `n` tokens of `ts`,
/// nests at most `room` deep, and ends there: no `!` follows it when it is
/// nullable.
pub open spec fn type_at(ts: Seq<GraphQLToken>, retain: bool, room: int, t: ast::TypeAnnotation, n: int) -> bool {
    &&& 0 < n <= ts.len()
    &&& type_written(t, ts.subrange(0, n), retain)
    &&& type_depth(t) <= room
    &&& (type_nullability(t) is Nullable ==> !(n < ts.len() && ts[n].kind is Bang))
}

/// Two type annotations written at the start of the same tokens, each
/// ending there, take equally many tokens.
pub proof fn lemma_type_unique_len(
    t1: ast::TypeAnnotation,
    t2: ast::TypeAnnotation,
    s: Seq<GraphQLToken>,
    n1: int,
    n2: int,
    retain: bool,
)
    requires
        0 < n1 <= s.len(),
        0 < n2 <= s.len(),
        type_written(t1, s.subrange(0, n1), retain),
        type_written(t2, s.subrange(0, n2), retain),
        type_nullability(t1) is Nullable ==> !(n1 < s.len() && s[n1].kind is Bang),
        type_nullability(t2) is Nullable ==> !(n2 < s.len() && s[n2].kind is Bang),
    ensures
        n1 == n2,
    decreases t1,
{
    assert(s.subrange(0, n1)[0] == s[0]);
    assert(s.subrange(0, n2)[0] == s[0]);
    match t1 {
        ast::TypeAnnotation::Named(a1) => {
            if n1 > 1 {
                assert(s.subrange(0, n1)[1] == s[1]);
            }
            if n2 > 1 {
                assert(s.subrange(0, n2)[1] == s[1]);
            }
        },
        ast::TypeAnnotation::List(l1) => {
            let l2 = t2->List_0;
            let k1 = type_len(*l1.element_type) as int;
            let k2 = type_len(*l2.element_type) as int;
            let u = s.subrange(1, s.len() as int);
            assert(s.subrange(0, n1).subrange(1, 1 + k1) =~= u.subrange(0, k1));
            assert(s.subrange(0, n2).subrange(1, 1 + k2) =~= u.subrange(0, k2));
            assert(s.subrange(0, n1)[1 + k1] == u[k1]);
            assert(s.subrange(0, n2)[1 + k2] == u[k2]);
            lemma_type_unique_len(*l1.element_type, *l2.element_type, u, k1, k2, retain);
            if n1 > 2 + k1 {
                assert(s.subrange(0, n1)[2 + k1] == s[2 + k1]);
            }
            if n2 > 2 + k2 {
                assert(s.subrange(0, n2)[2 + k2] == s[2 + k2]);
            }
        },
    }
}

/// The number of tokens the arguments `args` are written with, inside
/// their parentheses: each a name, a colon and its value.
pub open spec fn arguments_len(args: Seq<ast::Argument>) -> nat
    decreases args.len(),
{
    if args.len() == 0 {
        0
    } else {
        arguments_len(args.drop_last()) + 2 + value_len(args.last().value)
    }
}

/// The arguments `args` are written with exactly the tokens `ts`, one after
/// the other: each a name, a colon and its value.
pub open spec fn arguments_written(args: Seq<ast::Argument>, ts: Seq<GraphQLToken>, retain: bool) -> bool
    decreases args.len(),
{
    if args.len() == 0 {
        ts.len() == 0
    } else {
        let a = args.last();
        let k = ts.len() - 2 - value_len(a.value);
        &&& 0 <= k
        &&& arguments_written(args.drop_last(), ts.subrange(0, k), retain)
        &&& is_name_token(ts[k])
        &&& name_of(a.name, ts[k])
        &&& ts[k + 1].kind is Colon
        &&& value_written(a.value, ts.subrange(k + 2, ts.len() as int), retain)
        &&& a.span == tokens_span(ts[k], ts.last())
    }
}

/// The arguments `args` are written with exactly the tokens `ts`: `(`,
/// the arguments and `)`.
pub open spec fn argument_list_written(args: Seq<ast::Argument>, ts: Seq<GraphQLToken>, retain: bool) -> bool {
    &&& ts.len() >= 2
    &&& ts[0].kind is ParenOpen
    &&& ts.last().kind is ParenClose
    &&& arguments_written(args, ts.subrange(1, ts.len() - 1), retain)
}

/// The arguments `args` are written with the first `n` tokens of `ts` as a
/// parenthesized list that is not empty; their values hold variables only
/// where `context` allows them and nest at most `room` deep.
pub open spec fn arguments_at(
    ts: Seq<GraphQLToken>,
    retain: bool,
    context: ConstContext,
    room: int,
    args: Seq<ast::Argument>,
    n: int,
) -> bool {
    &&& 0 < n <= ts.len()
    &&& args.len() > 0
    &&& argument_list_written(args, ts.subrange(0, n), retain)
    &&& forall|i: int|
        0 <= i < args.len() ==> (allows_variables(context) || value_is_const(#[trigger] args[i].value))
            && value_nesting(args[i].value) <= room
}

/// The first of several written arguments is written with their first
/// tokens (a name, a colon and its value), and the others with the tokens
/// after those.
#[verifier::spinoff_prover]
pub proof fn lemma_arguments_written_front(args: Seq<ast::Argument>, ts: Seq<GraphQLToken>, retain: bool)
    requires
        arguments_written(args, ts, retain),
        args.len() > 0,
    ensures
        2 + value_len(args[0].value) <= ts.len(),
        is_name_token(ts[0]),
        ts[1].kind is Colon,
        value_written(args[0].value, ts.subrange(2, 2 + value_len(args[0].value) as int), retain),
        arguments_written(args.drop_first(), ts.subrange(2 + value_len(args[0].value) as int, ts.len() as int), retain),
    decreases args.len(),
{
    let k = ts.len() - 2 - value_len(args.last().value);
    if args.len() == 1 {
        assert(args.drop_last().len() == 0);
        reveal_with_fuel(arguments_written, 2);
        assert(k == 0);
        assert(ts.subrange(k + 2, ts.len() as int) =~= ts.subrange(2, 2 + value_len(args[0].value) as int));
        assert(args.drop_first() =~= Seq::<ast::Argument>::empty());
    } else {
        let dl = args.drop_last();
        let t0 = ts.subrange(0, k);
        lemma_arguments_written_front(dl, t0, retain);
        let a: int = 2 + value_len(args[0].value) as int;
        assert(dl[0] == args[0]);
        assert(t0.subrange(2, a) =~= ts.subrange(2, a));
        assert(t0[0] == ts[0] && t0[1] == ts[1]);
        let rest = args.drop_first();
        let tr = ts.subrange(a, ts.len() as int);
        assert(rest.last() == args.last());
        assert(rest.drop_last() =~= dl.drop_first());
        assert(tr.subrange(0, k - a) =~= t0.subrange(a, t0.len() as int));
        assert(tr[k - a] == ts[k] && tr[k - a + 1] == ts[k + 1]);
        assert(tr.subrange(k - a + 2, tr.len() as int) =~= ts.subrange(k + 2, ts.len() as int));
        assert(tr.last() == ts.last());
    }
}

/// Two runs of arguments written with prefixes of the same tokens, each
/// followed by `)`, are written with equally many of them.
#[verifier::spinoff_prover]
#[verifier::rlimit(50)]
pub proof fn lemma_arguments_written_unique_len(
    a1: Seq<ast::Argument>,
    a2: Seq<ast::Argument>,
    t: Seq<GraphQLToken>,
    m1: int,
    m2: int,
    retain: bool,
)
    requires
        0 <= m1 < t.len(),
        0 <= m2 < t.len(),
        arguments_written(a1, t.subrange(0, m1), retain),
        arguments_written(a2, t.subrange(0, m2), retain),
        t[m1].kind is ParenClose,
        t[m2].kind is ParenClose,
    ensures
        m1 == m2,
    decreases a1.len(),
{
    if a1.len() == 0 {
        if a2.len() > 0 {
            lemma_arguments_written_front(a2, t.subrange(0, m2), retain);
            assert(t.subrange(0, m2)[0] == t[0]);
        }
    } else if a2.len() == 0 {
        lemma_arguments_written_front(a1, t.subrange(0, m1), retain);
        assert(t.subrange(0, m1)[0] == t[0]);
    } else {
        lemma_arguments_written_front(a1, t.subrange(0, m1), retain);
        lemma_arguments_written_front(a2, t.subrange(0, m2), retain);
        let b1: int = 2 + value_len(a1[0].value) as int;
        let b2: int = 2 + value_len(a2[0].value) as int;
        let w = t.subrange(2, t.len() as int);
        assert(t.subrange(0, m1).subrange(2, b1) =~= w.subrange(0, b1 - 2));
        assert(t.subrange(0, m2).subrange(2, b2) =~= w.subrange(0, b2 - 2));
        lemma_value_written_unique_len(a1[0].value, a2[0].value, w, b1 - 2, b2 - 2, retain);
        let u = t.subrange(b1, t.len() as int);
        assert(t.subrange(0, m1).subrange(b1, m1) =~= u.subrange(0, m1 - b1));
        assert(t.subrange(0, m2).subrange(b1, m2) =~= u.subrange(0, m2 - b1));
        assert(u[m1 - b1] == t[m1]);
        assert(u[m2 - b1] == t[m2]);
        lemma_arguments_written_unique_len(a1.drop_first(), a2.drop_first(), u, m1 - b1, m2 - b1, retain);
    }
}

/// The arguments of `targs` from index `k` on are written with the tokens
/// of `r` from offset `p` to just before offset `tn - 1`.
#[verifier::opaque]
pub open spec fn arguments_left(
    r: Seq<GraphQLToken>,
    targs: Seq<ast::Argument>,
    k: int,
    p: int,
    tn: int,
    retain: bool,
) -> bool {
    arguments_written(targs.subrange(k, targs.len() as int), r.subrange(p, tn - 1), retain)
}

/// Where parsing a written argument list stands after `k` of its
/// arguments, at offset `p` of the tokens `r`: at its `)` when all are
/// parsed, else at the next argument's name, colon and value.
pub proof fn lemma_arguments_progress(
    r: Seq<GraphQLToken>,
    targs: Seq<ast::Argument>,
    k: int,
    p: int,
    tn: int,
    retain: bool,
)
    requires
        0 <= k <= targs.len(),
        1 <= p <= tn - 1,
        tn <= r.len(),
        arguments_left(r, targs, k, p, tn, retain),
    ensures
        k == targs.len() ==> p == tn - 1,
        k < targs.len() ==> {
            let a = value_len(targs[k].value) as int;
            &&& p + 2 + a <= tn - 1
            &&& is_name_token(r[p])
            &&& r[p + 1].kind is Colon
            &&& value_written(targs[k].value, r.subrange(p + 2, p + 2 + a), retain)
            &&& arguments_left(r, targs, k + 1, p + 2 + a, tn, retain)
        },
{
    reveal(arguments_left);
    let remaining = targs.subrange(k, targs.len() as int);
    let rt = r.subrange(p, tn - 1);
    if k < targs.len() {
        lemma_arguments_written_front(remaining, rt, retain);
        let a = value_len(targs[k].value) as int;
        assert(remaining[0] == targs[k]);
        assert(rt[0] == r[p]);
        assert(rt[1] == r[p + 1]);
        assert(rt.subrange(2, 2 + a) =~= r.subrange(p + 2, p + 2 + a));
        assert(remaining.drop_first() =~= targs.subrange(k + 1, targs.len() as int));
        assert(rt.subrange(2 + a, rt.len() as int) =~= r.subrange(p + 2 + a, tn - 1));
    }
}

/// Two argument lists written with prefixes of the same tokens are written
/// with equally many of them.
pub proof fn lemma_argument_list_unique_len(
    a1: Seq<ast::Argument>,
    a2: Seq<ast::Argument>,
    s: Seq<GraphQLToken>,
    n1: int,
    n2: int,
    retain: bool,
)
    requires
        0 <= n1 <= s.len(),
        0 <= n2 <= s.len(),
        argument_list_written(a1, s.subrange(0, n1), retain),
        argument_list_written(a2, s.subrange(0, n2), retain),
    ensures
        n1 == n2,
{
    let t = s.subrange(1, s.len() as int);
    assert(s.subrange(0, n1).subrange(1, n1 - 1) =~= t.subrange(0, n1 - 2));
    assert(s.subrange(0, n2).subrange(1, n2 - 1) =~= t.subrange(0, n2 - 2));
    assert(t[n1 - 2] == s.subrange(0, n1).last());
    assert(t[n2 - 2] == s.subrange(0, n2).last());
    lemma_arguments_written_unique_len(a1, a2, t, n1 - 2, n2 - 2, retain);
}

/// The number of tokens a directive annotation is written with.
pub open spec fn directive_len(d: ast::DirectiveAnnotation) -> nat {
    if d.arguments.len() == 0 {
        2
    } else {
        4 + arguments_len(d.arguments@)
    }
}

/// The directive annotation `d` is written with exactly the tokens `ts`:
/// `@`, its name and, when it has arguments, their list.
pub open spec fn directive_written(d: ast::DirectiveAnnotation, ts: Seq<GraphQLToken>, retain: bool) -> bool {
    &&& ts.len() == directive_len(d)
    &&& ts[0].kind is At
    &&& is_name_token(ts[1])
    &&& name_of(d.name, ts[1])
    &&& (d.arguments.len() > 0 ==> argument_list_written(d.arguments@, ts.subrange(2, ts.len() as int), retain))
    &&& d.span == tokens_span(ts[0], ts.last())
}

/// The number of tokens the directive annotations `ds` are written with.
pub open spec fn directives_len(ds: Seq<ast::DirectiveAnnotation>) -> nat
    decreases ds.len(),
{
    if ds.len() == 0 {
        0
    } else {
        directives_len(ds.drop_last()) + directive_len(ds.last())
    }
}

/// The directive annotations `ds` are written with exactly the tokens `ts`,
/// one after the other.
pub open spec fn directives_written(ds: Seq<ast::DirectiveAnnotation>, ts: Seq<GraphQLToken>, retain: bool) -> bool
    decreases ds.len(),
{
    if ds.len() == 0 {
        ts.len() == 0
    } else {
        let k = ts.len() - directive_len(ds.last());
        &&& 0 <= k
        &&& directives_written(ds.drop_last(), ts.subrange(0, k), retain)
        &&& directive_written(ds.last(), ts.subrange(k, ts.len() as int), retain)
    }
}

/// The arguments of the directive `d` hold variables only where `context`
/// allows them and nest at most `room` deep.
pub open spec fn directive_args_ok(d: ast::DirectiveAnnotation, context: ConstContext, room: int) -> bool {
    forall|i: int|
        0 <= i < d.arguments.len() ==> (allows_variables(context) || value_is_const(
            #[trigger] d.arguments@[i].value,
        )) && value_nesting(d.arguments@[i].value) <= room
}

/// The directives `ds` written with the first `n` tokens of `ts` end there:
/// no `@` follows them, and no `(` follows a last directive without
/// arguments.
pub open spec fn directives_end_at(ts: Seq<GraphQLToken>, ds: Seq<ast::DirectiveAnnotation>, n: int) -> bool {
    &&& !(n < ts.len() && ts[n].kind is At)
    &&& (ds.len() > 0 && ds.last().arguments.len() == 0 ==> !(n < ts.len() && ts[n].kind is ParenOpen))
}

/// The directives `ds` are written with the first `n` tokens of `ts`, end
/// there, and have arguments that parsing in `context` with `room` levels
/// of nesting left accepts.
pub open spec fn directives_at(
    ts: Seq<GraphQLToken>,
    retain: bool,
    context: ConstContext,
    room: int,
    ds: Seq<ast::DirectiveAnnotation>,
    n: int,
) -> bool {
    &&& 0 <= n <= ts.len()
    &&& directives_written(ds, ts.subrange(0, n), retain)
    &&& directives_end_at(ts, ds, n)
    &&& forall|i: int| 0 <= i < ds.len() ==> directive_args_ok(#[trigger] ds[i], context, room)
}

/// The directive `d` is written with the first `n` tokens of `ts`, no `(`
/// follows it when it has no arguments, and its arguments are accepted in
/// `context` with `room` levels of nesting left.
pub open spec fn directive_at(
    ts: Seq<GraphQLToken>,
    retain: bool,
    context: ConstContext,
    room: int,
    d: ast::DirectiveAnnotation,
    n: int,
) -> bool {
    &&& 0 < n <= ts.len()
    &&& directive_written(d, ts.subrange(0, n), retain)
    &&& (d.arguments.len() == 0 ==> !(n < ts.len() && ts[n].kind is ParenOpen))
    &&& directive_args_ok(d, context, room)
}

/// The first of several written directives is written with their first
/// tokens, and the others with the tokens after those.
#[verifier::spinoff_prover]
pub proof fn lemma_directives_written_front(ds: Seq<ast::DirectiveAnnotation>, ts: Seq<GraphQLToken>, retain: bool)
    requires
        directives_written(ds, ts, retain),
        ds.len() > 0,
    ensures
        directive_len(ds[0]) <= ts.len(),
        directive_written(ds[0], ts.subrange(0, directive_len(ds[0]) as int), retain),
        directives_written(ds.drop_first(), ts.subrange(directive_len(ds[0]) as int, ts.len() as int), retain),
    decreases ds.len(),
{
    let k = ts.len() - directive_len(ds.last());
    if ds.len() == 1 {
        assert(ds.drop_last().len() == 0);
        reveal_with_fuel(directives_written, 2);
        assert(k == 0);
        assert(ts.subrange(k, ts.len() as int) =~= ts.subrange(0, directive_len(ds[0]) as int));
        assert(ds.drop_first() =~= Seq::<ast::DirectiveAnnotation>::empty());
    } else {
        let dl = ds.drop_last();
        let t0 = ts.subrange(0, k);
        lemma_directives_written_front(dl, t0, retain);
        let a = directive_len(ds[0]) as int;
        assert(dl[0] == ds[0]);
        assert(t0.subrange(0, a) =~= ts.subrange(0, a));
        let rest = ds.drop_first();
        let tr = ts.subrange(a, ts.len() as int);
        assert(rest.last() == ds.last());
        assert(rest.drop_last() =~= dl.drop_first());
        assert(tr.subrange(0, k - a) =~= t0.subrange(a, t0.len() as int));
        assert(tr.subrange(k - a, tr.len() as int) =~= ts.subrange(k, ts.len() as int));
    }
}

/// Two directives written at the start of the same tokens, each not
/// followed by `(` when it has no arguments, take equally many tokens.
pub proof fn lemma_directive_unique_len(
    d1: ast::DirectiveAnnotation,
    d2: ast::DirectiveAnnotation,
    s: Seq<GraphQLToken>,
    n1: int,
    n2: int,
    retain: bool,
)
    requires
        0 < n1 <= s.len(),
        0 < n2 <= s.len(),
        directive_written(d1, s.subrange(0, n1), retain),
        directive_written(d2, s.subrange(0, n2), retain),
        d1.arguments.len() == 0 ==> !(n1 < s.len() && s[n1].kind is ParenOpen),
        d2.arguments.len() == 0 ==> !(n2 < s.len() && s[n2].kind is ParenOpen),
    ensures
        n1 == n2,
{
    let w = s.subrange(2, s.len() as int);
    if d1.arguments.len() > 0 && d2.arguments.len() > 0 {
        assert(s.subrange(0, n1).subrange(2, n1) =~= w.subrange(0, n1 - 2));
        assert(s.subrange(0, n2).subrange(2, n2) =~= w.subrange(0, n2 - 2));
        lemma_argument_list_unique_len(d1.arguments@, d2.arguments@, w, n1 - 2, n2 - 2, retain);
    } else if d1.arguments.len() > 0 {
        assert(s.subrange(0, n1).subrange(2, n1)[0] == s[2]);
    } else if d2.arguments.len() > 0 {
        assert(s.subrange(0, n2).subrange(2, n2)[0] == s[2]);
    }
}

/// Two runs of directives written at the start of the same tokens, each
/// ending there, take equally many tokens.
#[verifier::spinoff_prover]
#[verifier::rlimit(80)]
pub proof fn lemma_directives_unique_len(
    ds1: Seq<ast::DirectiveAnnotation>,
    ds2: Seq<ast::DirectiveAnnotation>,
    s: Seq<GraphQLToken>,
    n1: int,
    n2: int,
    retain: bool,
)
    requires
        0 <= n1 <= s.len(),
        0 <= n2 <= s.len(),
        directives_written(ds1, s.subrange(0, n1), retain),
        directives_written(ds2, s.subrange(0, n2), retain),
        directives_end_at(s, ds1, n1),
        directives_end_at(s, ds2, n2),
    ensures
        n1 == n2,
    decreases ds1.len(),
{
    if ds1.len() == 0 {
        if ds2.len() > 0 {
            lemma_directives_written_front(ds2, s.subrange(0, n2), retain);
            assert(s.subrange(0, n2)[0] == s[0]);
        }
    } else if ds2.len() == 0 {
        lemma_directives_written_front(ds1, s.subrange(0, n1), retain);
        assert(s.subrange(0, n1)[0] == s[0]);
    } else {
        lemma_directives_written_front(ds1, s.subrange(0, n1), retain);
        lemma_directives_written_front(ds2, s.subrange(0, n2), retain);
        let a1 = directive_len(ds1[0]) as int;
        let a2 = directive_len(ds2[0]) as int;
        assert(s.subrange(0, n1).subrange(0, a1) =~= s.subrange(0, a1));
        assert(s.subrange(0, n2).subrange(0, a2) =~= s.subrange(0, a2));
        lemma_directive_follow(ds1, s, n1, retain);
        lemma_directive_follow(ds2, s, n2, retain);
        lemma_directive_unique_len(ds1[0], ds2[0], s, a1, a2, retain);
        lemma_directives_shift(ds1, s, n1, retain);
        lemma_directives_shift(ds2, s, n2, retain);
        lemma_directives_unique_len(
            ds1.drop_first(),
            ds2.drop_first(),
            s.subrange(a1, s.len() as int),
            n1 - a1,
            n2 - a1,
            retain,
        );
    }
}

/// After the first of several written directives that end where they do,
/// the others are written with the tokens that follow and end there too.
#[verifier::spinoff_prover]
proof fn lemma_directives_shift(ds: Seq<ast::DirectiveAnnotation>, s: Seq<GraphQLToken>, n: int, retain: bool)
    requires
        0 <= n <= s.len(),
        ds.len() > 0,
        directives_written(ds, s.subrange(0, n), retain),
        directives_end_at(s, ds, n),
    ensures
        ({
            let a = directive_len(ds[0]) as int;
            let u = s.subrange(a, s.len() as int);
            &&& a <= n
            &&& directives_written(ds.drop_first(), u.subrange(0, n - a), retain)
            &&& directives_end_at(u, ds.drop_first(), n - a)
        }),
{
    lemma_directives_written_front(ds, s.subrange(0, n), retain);
    let a = directive_len(ds[0]) as int;
    let u = s.subrange(a, s.len() as int);
    assert(s.subrange(0, n).subrange(a, n) =~= u.subrange(0, n - a));
    assert(ds.len() > 1 ==> ds.drop_first().last() == ds.last());
    assert(n - a < u.len() ==> u[n - a] == s[n]);
}

/// The first of several written directives that end where they do is not
/// followed by `(` when it has no arguments.
proof fn lemma_directive_follow(ds: Seq<ast::DirectiveAnnotation>, s: Seq<GraphQLToken>, n: int, retain: bool)
    requires
        0 <= n <= s.len(),
        ds.len() > 0,
        directives_written(ds, s.subrange(0, n), retain),
        directives_end_at(s, ds, n),
    ensures
        directive_len(ds[0]) <= n,
        ds[0].arguments.len() == 0 ==> !(directive_len(ds[0]) < s.len() && s[directive_len(ds[0]) as int].kind is ParenOpen),
{
    lemma_directives_written_front(ds, s.subrange(0, n), retain);
    let a = directive_len(ds[0]) as int;
    if ds.len() > 1 {
        let rest = ds.drop_first();
        let tr = s.subrange(0, n).subrange(a, n);
        lemma_directives_written_front(rest, tr, retain);
        assert(tr[0] == s[a]);
    } else {
        reveal_with_fuel(directives_written, 1);
        assert(ds.drop_first().len() == 0);
        assert(s.subrange(0, n).subrange(a, n).len() == 0);
        assert(ds.last() == ds[0]);
    }
}

/// The directives of `tds` from index `k` on are written with the tokens
/// of `r` from offset `p` to offset `tn`.
#[verifier::opaque]
pub open spec fn directives_left(
    r: Seq<GraphQLToken>,
    tds: Seq<ast::DirectiveAnnotation>,
    k: int,
    p: int,
    tn: int,
    retain: bool,
) -> bool {
    directives_written(tds.subrange(k, tds.len() as int), r.subrange(p, tn), retain)
}

/// Where parsing written directives stands after `k` of them, at offset
/// `p` of the tokens `r`: at their end when all are parsed, else at the
/// next one.
#[verifier::spinoff_prover]
#[verifier::rlimit(80)]
pub proof fn lemma_directives_progress(
    r: Seq<GraphQLToken>,
    tds: Seq<ast::DirectiveAnnotation>,
    k: int,
    p: int,
    tn: int,
    retain: bool,
)
    requires
        0 <= k <= tds.len(),
        0 <= p <= tn <= r.len(),
        directives_left(r, tds, k, p, tn, retain),
        directives_end_at(r, tds, tn),
    ensures
        k == tds.len() ==> p == tn,
        k < tds.len() ==> {
            let a = directive_len(tds[k]) as int;
            &&& p + a <= tn
            &&& r[p].kind is At
            &&& directive_written(tds[k], r.subrange(p, p + a), retain)
            &&& (tds[k].arguments.len() == 0 ==> !(p + a < r.len() && r[p + a].kind is ParenOpen))
            &&& directives_left(r, tds, k + 1, p + a, tn, retain)
        },
{
    reveal(directives_left);
    let remaining = tds.subrange(k, tds.len() as int);
    let rt = r.subrange(p, tn);
    if k < tds.len() {
        lemma_directives_written_front(remaining, rt, retain);
        let a = directive_len(tds[k]) as int;
        assert(remaining[0] == tds[k]);
        assert(rt.subrange(0, a) =~= r.subrange(p, p + a));
        assert(r.subrange(p, p + a)[0] == r[p]);
        assert(remaining.drop_first() =~= tds.subrange(k + 1, tds.len() as int));
        assert(rt.subrange(a, rt.len() as int) =~= r.subrange(p + a, tn));
        if k + 1 < tds.len() {
            let rest = tds.subrange(k + 1, tds.len() as int);
            lemma_directives_written_front(rest, r.subrange(p + a, tn), retain);
            assert(r.subrange(p + a, tn)[0] == r[p + a]);
        } else {
            assert(tds.subrange(k + 1, tds.len() as int).len() == 0);
            assert(r.subrange(p + a, tn).len() == 0);
            assert(tds.last() == tds[k]);
        }
    } else {
        assert(remaining.len() == 0);
    }
}

/// Arguments written with some tokens take as many tokens as their length.
pub proof fn lemma_arguments_written_len(args: Seq<ast::Argument>, ts: Seq<GraphQLToken>, retain: bool)
    requires
        arguments_written(args, ts, retain),
    ensures
        ts.len() == arguments_len(args),
    decreases args.len(),
{
    if args.len() > 0 {
        let k = ts.len() - 2 - value_len(args.last().value);
        lemma_arguments_written_len(args.drop_last(), ts.subrange(0, k), retain);
    }
}

/// Directives written with some tokens take as many tokens as their
/// length.
pub proof fn lemma_directives_written_len(ds: Seq<ast::DirectiveAnnotation>, ts: Seq<GraphQLToken>, retain: bool)
    requires
        directives_written(ds, ts, retain),
    ensures
        ts.len() == directives_len(ds),
    decreases ds.len(),
{
    if ds.len() > 0 {
        let k = ts.len() - directive_len(ds.last());
        lemma_directives_written_len(ds.drop_last(), ts.subrange(0, k), retain);
    }
}

/// Whether every argument of every directive in `ds` is a constant value.
pub open spec fn directives_are_const(ds: Seq<ast::DirectiveAnnotation>) -> bool {
    forall|i: int, j: int|
        0 <= i < ds.len() && 0 <= j < ds[i].arguments.len() ==> value_is_const(
            #[trigger] ds[i].arguments@[j].value,
        )
}

/// Whether every argument in `args` is a constant value.
pub open spec fn arguments_are_const(args: Seq<ast::Argument>) -> bool {
    forall|j: int| 0 <= j < args.len() ==> value_is_const(#[trigger] args[j].value)
}

/// One more directive parsed after those from `base` extends the written
/// directives.
#[verifier::spinoff_prover]
proof fn lemma_directives_step<'src>(
    ds0: Seq<ast::DirectiveAnnotation>,
    d: ast::DirectiveAnnotation,
    base: GraphQLParser<'src>,
    before: GraphQLParser<'src>,
    after: GraphQLParser<'src>,
)
    requires
        base.inv(),
        advanced(base, before),
        advanced(before, after),
        directives_written(ds0, base.rest().subrange(0, before.pos() - base.pos()), base.spec_config().retain_syntax),
        directive_written(d, before.rest().subrange(0, after.pos() - before.pos()), base.spec_config().retain_syntax),
    ensures
        directives_written(ds0.push(d), base.rest().subrange(0, after.pos() - base.pos()), base.spec_config().retain_syntax),
{
    GraphQLParser::lemma_advanced(base, before);
    GraphQLParser::lemma_advanced(base, after);
    let n = after.pos() - base.pos();
    let ts = base.rest().subrange(0, n);
    let k = before.pos() - base.pos();
    assert(ds0.push(d).drop_last() =~= ds0);
    assert(ts.subrange(0, k) =~= base.rest().subrange(0, k));
    assert(ts.subrange(k, n) =~= before.rest().subrange(0, after.pos() - before.pos()));
}

impl<'src> GraphQLParser<'src> {
    /// Parses a type annotation: `Name`, `[Type]`, each optionally followed
    /// by `!`.
    pub(crate) fn parse_type_annotation(&mut self) -> (r: Result<ast::TypeAnnotation, ()>)
        requires
            old(self).inv(),
        ensures
            advanced(*old(self), *final(self)),
            progressed(*old(self), *final(self), r),
            old(self).depth() < MAX_RECURSION_DEPTH && old(self).rest().len() > 0 && is_name_token(
                old(self).rest()[0],
            ) ==> r is Ok && (r->Ok_0 matches ast::TypeAnnotation::Named(n) && name_of(
                n.name,
                old(self).rest()[0],
            ) && (n.nullability is NonNull <==> old(self).rest().len() > 1 && old(self).rest()[1].kind is Bang)),
            r is Ok && old(self).rest()[0].kind is SquareBracketOpen ==> r->Ok_0 is List,
            r is Ok ==> old(self).rest().len() > 0 && type_span(r->Ok_0).start_inclusive == old(self).rest()[0].span.start_inclusive && final(self).last_end() == Some(
                type_span(r->Ok_0).end_exclusive,
            ),
            r is Ok ==> final(self).pos() == old(self).pos() + type_len(r->Ok_0) && type_written(
                r->Ok_0,
                old(self).rest().subrange(0, type_len(r->Ok_0) as int),
                old(self).spec_config().retain_syntax,
            ),
            r is Ok && type_nullability(r->Ok_0) is Nullable ==> !(final(self).rest().len() > 0 && final(self).rest()[0].kind is Bang),
            forall|t: ast::TypeAnnotation, n: int|
                #[trigger] type_at(old(self).rest(), old(self).spec_config().retain_syntax, MAX_RECURSION_DEPTH - old(self).depth(), t, n)
                    ==> r is Ok && final(self).spec_errors() == old(self).spec_errors() && final(self).pos() == old(self).pos() + n,
        decreases MAX_RECURSION_DEPTH - old(self).depth(), 2int,
    {
        proof {
            old(self).lemma_inv();
        }
        proof {
            let retain = old(self).spec_config().retain_syntax;
            let room = MAX_RECURSION_DEPTH - old(self).depth();
            if exists|t: ast::TypeAnnotation, n: int| #[trigger] type_at(old(self).rest(), retain, room, t, n) {
                let w: (ast::TypeAnnotation, int) = choose|t: ast::TypeAnnotation, n: int| #[trigger] type_at(old(self).rest(), retain, room, t, n);
                assert(type_depth(w.0) >= 1);
            }
        }
        self.enter_recursion()?;
        proof {
            let retain = old(self).spec_config().retain_syntax;
            let room = MAX_RECURSION_DEPTH - old(self).depth();
            assert(self.rest() =~= old(self).rest());
            assert forall|t: ast::TypeAnnotation, n: int| #[trigger] type_at(old(self).rest(), retain, room, t, n)
                implies type_at(self.rest(), retain, MAX_RECURSION_DEPTH - self.depth() + 1, t, n) by {}
        }
        let result = self.parse_type_annotation_impl();
        self.exit_recursion();
        result
    }

    /// Parses a type annotation, one nesting level down.
    fn parse_type_annotation_impl(&mut self) -> (r: Result<ast::TypeAnnotation, ()>)
        requires
            old(self).inv(),
            old(self).depth() > 0,
        ensures
            advanced(*old(self), *final(self)),
            progressed(*old(self), *final(self), r),
            old(self).rest().len() > 0 && is_name_token(old(self).rest()[0]) ==> r is Ok && (
            r->Ok_0 matches ast::TypeAnnotation::Named(n) && name_of(n.name, old(self).rest()[0]) && (
            n.nullability is NonNull <==> old(self).rest().len() > 1 && old(self).rest()[1].kind is Bang)),
            r is Ok && old(self).rest()[0].kind is SquareBracketOpen ==> r->Ok_0 is List,
            r is Ok ==> old(self).rest().len() > 0 && type_span(r->Ok_0).start_inclusive == old(self).rest()[0].span.start_inclusive && final(self).last_end() == Some(
                type_span(r->Ok_0).end_exclusive,
            ),
            r is Ok ==> final(self).pos() == old(self).pos() + type_len(r->Ok_0) && type_written(
                r->Ok_0,
                old(self).rest().subrange(0, type_len(r->Ok_0) as int),
                old(self).spec_config().retain_syntax,
            ),
            r is Ok && type_nullability(r->Ok_0) is Nullable ==> !(final(self).rest().len() > 0 && final(self).rest()[0].kind is Bang),
            forall|t: ast::TypeAnnotation, n: int|
                #[trigger] type_at(old(self).rest(), old(self).spec_config().retain_syntax, MAX_RECURSION_DEPTH - old(self).depth() + 1, t, n)
                    ==> r is Ok && final(self).spec_errors() == old(self).spec_errors() && final(self).pos() == old(self).pos() + n,
        decreases MAX_RECURSION_DEPTH - old(self).depth() + 1, 1int,
    {
        if self.peek_is(&GraphQLTokenKind::SquareBracketOpen) {
            self.parse_list_type_annotation()
        } else {
            let r = self.parse_named_type_annotation();
            proof {
                let retain = old(self).spec_config().retain_syntax;
                let room = MAX_RECURSION_DEPTH - old(self).depth() + 1;
                assert forall|t: ast::TypeAnnotation, n: int| #[trigger] type_at(old(self).rest(), retain, room, t, n)
                    implies r is Ok && self.spec_errors() == old(self).spec_errors() && self.pos() == old(self).pos() + n by {
                    assert(old(self).rest().subrange(0, n)[0] == old(self).rest()[0]);
                    GraphQLParser::lemma_advanced(*old(self), *self);
                    let m = self.pos() - old(self).pos();
                    assert(m < old(self).rest().len() ==> self.rest()[0] == old(self).rest()[m]);
                    lemma_type_unique_len(r->Ok_0, t, old(self).rest(), m, n, retain);
                }
            }
            r
        }
    }

    /// Parses `Name` or `Name!`.
    fn parse_named_type_annotation(&mut self) -> (r: Result<ast::TypeAnnotation, ()>)
        requires
            old(self).inv(),
        ensures
            advanced(*old(self), *final(self)),
            progressed(*old(self), *final(self), r),
            r is Ok <==> old(self).rest().len() > 0 && is_name_token(old(self).rest()[0]),
            r is Ok ==> (r->Ok_0 matches ast::TypeAnnotation::Named(n) && name_of(
                n.name,
                old(self).rest()[0],
            ) && (n.nullability is NonNull <==> old(self).rest().len() > 1 && old(self).rest()[1].kind is Bang)),
            r is Ok ==> type_span(r->Ok_0).start_inclusive == old(self).rest()[0].span.start_inclusive
                && final(self).last_end() == Some(type_span(r->Ok_0).end_exclusive),
            r is Ok ==> final(self).pos() == old(self).pos() + type_len(r->Ok_0) && type_written(
                r->Ok_0,
                old(self).rest().subrange(0, type_len(r->Ok_0) as int),
                old(self).spec_config().retain_syntax,
            ),
            r is Ok && type_nullability(r->Ok_0) is Nullable ==> !(final(self).rest().len() > 0 && final(self).rest()[0].kind is Bang),
            r is Ok ==> final(self).spec_errors() == old(self).spec_errors(),
    {
        let ghost start = *self;
        let name = self.expect_ast_name()?;
        proof {
            GraphQLParser::lemma_advanced(start, *self);
        }
        let retain = self.retain_syntax();
        let nullability = if self.peek_is(&GraphQLTokenKind::Bang) {
            let bang = self.take_token();
            ast::Nullability::NonNull {
                syntax: if retain {
                    Some(bang)
                } else {
                    None
                },
            }
        } else {
            ast::Nullability::Nullable
        };
        let span = self.span_from(name.span.start_inclusive);
        Ok(ast::TypeAnnotation::Named(ast::NamedTypeAnnotation { name, nullability, span }))
    }

    /// Parses `[Type]` or `[Type]!`.
    fn parse_list_type_annotation(&mut self) -> (r: Result<ast::TypeAnnotation, ()>)
        requires
            old(self).inv(),
            old(self).depth() > 0,
            old(self).rest().len() > 0,
            old(self).rest()[0].kind is SquareBracketOpen,
        ensures
            advanced(*old(self), *final(self)),
            progressed(*old(self), *final(self), r),
            final(self).pos() > old(self).pos(),
            r is Ok ==> r->Ok_0 is List && type_span(r->Ok_0).start_inclusive == old(self).rest()[0].span.start_inclusive && final(self).last_end() == Some(
                type_span(r->Ok_0).end_exclusive,
            ),
            r is Ok ==> final(self).pos() == old(self).pos() + type_len(r->Ok_0) && type_written(
                r->Ok_0,
                old(self).rest().subrange(0, type_len(r->Ok_0) as int),
                old(self).spec_config().retain_syntax,
            ),
            r is Ok && type_nullability(r->Ok_0) is Nullable ==> !(final(self).rest().len() > 0 && final(self).rest()[0].kind is Bang),
            forall|t: ast::TypeAnnotation, n: int|
                #[trigger] type_at(old(self).rest(), old(self).spec_config().retain_syntax, MAX_RECURSION_DEPTH - old(self).depth() + 1, t, n)
                    ==> r is Ok && final(self).spec_errors() == old(self).spec_errors() && final(self).pos() == old(self).pos() + n,
        decreases MAX_RECURSION_DEPTH - old(self).depth() + 1, 0int,
    {
        proof {
            old(self).lemma_inv();
        }
        let ghost s0 = *self;
        let ghost retain0 = old(self).spec_config().retain_syntax;
        let ghost room = MAX_RECURSION_DEPTH - old(self).depth() + 1;
        let ghost pre = exists|t: ast::TypeAnnotation, n: int| #[trigger] type_at(old(self).rest(), retain0, room, t, n);
        let ghost target: (ast::TypeAnnotation, int) = choose|t: ast::TypeAnnotation, n: int| #[trigger] type_at(old(self).rest(), retain0, room, t, n);
        let open = self.take_token();
        self.push_delimiter(open.span.duplicate(), DelimiterContext::ListType);
        let ghost s1 = *self;
        proof {
            GraphQLParser::lemma_advanced(s0, s1);
            if pre {
                let t = target.0;
                let n = target.1;
                let ts = old(self).rest().subrange(0, n);
                assert(ts[0] == old(self).rest()[0]);
                let l = t->List_0;
                let k = type_len(*l.element_type) as int;
                assert(ts.subrange(1, 1 + k) =~= s1.rest().subrange(0, k));
                assert(ts[1 + k] == s1.rest()[k]);
                assert(type_at(s1.rest(), retain0, MAX_RECURSION_DEPTH - s1.depth(), *l.element_type, k));
            }
        }
        let element = self.parse_type_annotation()?;
        proof {
            GraphQLParser::lemma_advanced(s1, *self);
            if pre {
                let l = target.0->List_0;
                let k = type_len(*l.element_type) as int;
                assert(old(self).rest().subrange(0, target.1)[1 + k] == self.rest()[0]);
            }
        }
        let ghost s2 = *self;
        self.expect(&GraphQLTokenKind::SquareBracketClose)?;
        self.pop_delimiter();
        let ghost s3 = *self;
        proof {
            GraphQLParser::lemma_advanced(s0, s1);
            GraphQLParser::lemma_advanced(s1, s2);
            GraphQLParser::lemma_advanced(s0, s3);
            let k = type_len(element) as int;
            assert(s1.rest() == s0.rest().subrange(1, s0.rest().len() as int));
            assert(s1.rest().subrange(0, k) =~= s0.rest().subrange(1, 1 + k));
            assert(s2.rest()[0] == s0.rest()[1 + k]);
        }
        let retain = self.retain_syntax();
        let nullability = if self.peek_is(&GraphQLTokenKind::Bang) {
            let bang = self.take_token();
            ast::Nullability::NonNull {
                syntax: if retain {
                    Some(bang)
                } else {
                    None
                },
            }
        } else {
            ast::Nullability::Nullable
        };
        let span = self.span_from(open.span.start_inclusive);
        proof {
            GraphQLParser::lemma_advanced(s0, *self);
            let k = type_len(element) as int;
            let n = self.pos() - s0.pos();
            let ts = s0.rest().subrange(0, n);
            assert(ts.subrange(1, 1 + k) =~= s0.rest().subrange(1, 1 + k));
        }
        let r = ast::TypeAnnotation::List(
            ast::ListTypeAnnotation { element_type: Box::new(element), nullability, span },
        );
        proof {
            GraphQLParser::lemma_advanced(s0, *self);
            assert forall|t: ast::TypeAnnotation, n: int| #[trigger] type_at(old(self).rest(), retain0, room, t, n)
                implies self.spec_errors() == old(self).spec_errors() && self.pos() == old(self).pos() + n by {
                assert(pre);
                let m = self.pos() - old(self).pos();
                assert(m < old(self).rest().len() ==> self.rest()[0] == old(self).rest()[m]);
                lemma_type_unique_len(r, t, old(self).rest(), m, n, retain0);
            }
        }
        Ok(r)
    }

    /// Parses zero or more directive annotations, whose arguments may hold
    /// variables.
    pub(crate) fn parse_directive_annotations(&mut self) -> (r: Result<Vec<ast::DirectiveAnnotation>, ()>)
        requires
            old(self).inv(),
        ensures
            advanced(*old(self), *final(self)),
            r is Err ==> final(self).spec_errors().len() > old(self).spec_errors().len(),
            !(old(self).rest().len() > 0 && old(self).rest()[0].kind is At) ==> r is Ok && r->Ok_0@.len()
                == 0 && final(self).pos() == old(self).pos(),
            r is Ok ==> !(final(self).rest().len() > 0 && final(self).rest()[0].kind is At),
            r is Ok && final(self).spec_errors().len() == old(self).spec_errors().len() ==> directives_written(
                r->Ok_0@,
                old(self).rest().subrange(0, final(self).pos() - old(self).pos()),
                old(self).spec_config().retain_syntax,
            ),
            forall|ds: Seq<ast::DirectiveAnnotation>, n: int|
                #[trigger] directives_at(
                    old(self).rest(),
                    old(self).spec_config().retain_syntax,
                    ConstContext::AllowVariables,
                    MAX_RECURSION_DEPTH - old(self).depth(),
                    ds,
                    n,
                ) ==> r is Ok && final(self).spec_errors() == old(self).spec_errors() && final(self).pos()
                    == old(self).pos() + n,
    {
        self.parse_directive_list(ConstContext::AllowVariables)
    }

    /// Parses zero or more directive annotations with constant arguments.
    pub(crate) fn parse_const_directive_annotations(&mut self) -> (r: Result<
        Vec<ast::DirectiveAnnotation>,
        (),
    >)
        requires
            old(self).inv(),
        ensures
            advanced(*old(self), *final(self)),
            r is Err ==> final(self).spec_errors().len() > old(self).spec_errors().len(),
            !(old(self).rest().len() > 0 && old(self).rest()[0].kind is At) ==> r is Ok && r->Ok_0@.len()
                == 0 && final(self).pos() == old(self).pos(),
            r is Ok ==> !(final(self).rest().len() > 0 && final(self).rest()[0].kind is At),
            r is Ok ==> directives_are_const(r->Ok_0@),
            r is Ok && final(self).spec_errors().len() == old(self).spec_errors().len() ==> directives_written(
                r->Ok_0@,
                old(self).rest().subrange(0, final(self).pos() - old(self).pos()),
                old(self).spec_config().retain_syntax,
            ),
            forall|ds: Seq<ast::DirectiveAnnotation>, n: int|
                #[trigger] directives_at(
                    old(self).rest(),
                    old(self).spec_config().retain_syntax,
                    ConstContext::DirectiveArgument,
                    MAX_RECURSION_DEPTH - old(self).depth(),
                    ds,
                    n,
                ) ==> r is Ok && final(self).spec_errors() == old(self).spec_errors() && final(self).pos()
                    == old(self).pos() + n,
    {
        self.parse_directive_list(ConstContext::DirectiveArgument)
    }

    /// Parses directive annotations while the next token is `@`.
    #[verifier::spinoff_prover]
    fn parse_directive_list(&mut self, context: ConstContext) -> (r: Result<Vec<ast::DirectiveAnnotation>, ()>)
        requires
            old(self).inv(),
        ensures
            advanced(*old(self), *final(self)),
            r is Err ==> final(self).spec_errors().len() > old(self).spec_errors().len(),
            !(old(self).rest().len() > 0 && old(self).rest()[0].kind is At) ==> r is Ok && r->Ok_0@.len()
                == 0 && final(self).pos() == old(self).pos(),
            r is Ok ==> !(final(self).rest().len() > 0 && final(self).rest()[0].kind is At),
            r is Ok && !allows_variables(context) ==> directives_are_const(r->Ok_0@),
            r is Ok && final(self).spec_errors().len() == old(self).spec_errors().len() ==> directives_written(
                r->Ok_0@,
                old(self).rest().subrange(0, final(self).pos() - old(self).pos()),
                old(self).spec_config().retain_syntax,
            ),
            forall|ds: Seq<ast::DirectiveAnnotation>, n: int|
                #[trigger] directives_at(
                    old(self).rest(),
                    old(self).spec_config().retain_syntax,
                    context,
                    MAX_RECURSION_DEPTH - old(self).depth(),
                    ds,
                    n,
                ) ==> r is Ok && final(self).spec_errors() == old(self).spec_errors() && final(self).pos()
                    == old(self).pos() + n,
    {
        let ghost retain = old(self).spec_config().retain_syntax;
        let ghost room = MAX_RECURSION_DEPTH - old(self).depth();
        let ghost pre = exists|ds: Seq<ast::DirectiveAnnotation>, n: int| #[trigger] directives_at(old(self).rest(), retain, context, room, ds, n);
        let ghost target: (Seq<ast::DirectiveAnnotation>, int) = choose|ds: Seq<ast::DirectiveAnnotation>, n: int| #[trigger] directives_at(old(self).rest(), retain, context, room, ds, n);
        let ghost tds = target.0;
        let ghost tn = target.1;
        proof {
            if pre {
                reveal(directives_left);
                assert(tds.subrange(0, tds.len() as int) =~= tds);
            }
        }
        let mut directives: Vec<ast::DirectiveAnnotation> = Vec::new();
        while self.peek_is(&GraphQLTokenKind::At)
            invariant
                retain == old(self).spec_config().retain_syntax,
                room == MAX_RECURSION_DEPTH - old(self).depth(),
                pre == exists|ds: Seq<ast::DirectiveAnnotation>, n: int| #[trigger] directives_at(old(self).rest(), retain, context, room, ds, n),
                pre ==> directives_at(old(self).rest(), retain, context, room, tds, tn)
                    && self.spec_errors() == old(self).spec_errors() && directives@.len() <= tds.len()
                    && self.pos() - old(self).pos() <= tn && directives_left(
                    old(self).rest(),
                    tds,
                    directives@.len() as int,
                    self.pos() - old(self).pos(),
                    tn,
                    retain,
                ),
                advanced(*old(self), *self),
                directives@.len() == 0 ==> self.pos() == old(self).pos(),
                self.pos() == old(self).pos() ==> self.rest() == old(self).rest(),
                !(old(self).rest().len() > 0 && old(self).rest()[0].kind is At) ==> directives@.len() == 0
                    && self.pos() == old(self).pos(),
                !allows_variables(context) ==> directives_are_const(directives@),
                old(self).inv(),
                self.spec_errors().len() == old(self).spec_errors().len() ==> directives_written(
                    directives@,
                    old(self).rest().subrange(0, self.pos() - old(self).pos()),
                    old(self).spec_config().retain_syntax,
                ),
            decreases self.rest().len(),
        {
            let ghost before = *self;
            let ghost ds0 = directives@;
            proof {
                GraphQLParser::lemma_advanced(*old(self), *self);
                if pre {
                    let k = ds0.len() as int;
                    let p = self.pos() - old(self).pos();
                    lemma_directives_progress(old(self).rest(), tds, k, p, tn, retain);
                    if k == tds.len() {
                        assert(p < old(self).rest().len() ==> self.rest()[0] == old(self).rest()[p]);
                    } else {
                        let a = directive_len(tds[k]) as int;
                        assert(old(self).rest().subrange(p, p + a) =~= self.rest().subrange(0, a));
                        assert(p + a < old(self).rest().len() ==> self.rest()[a] == old(self).rest()[p + a]);
                        assert(directive_at(self.rest(), retain, context, MAX_RECURSION_DEPTH - self.depth(), tds[k], a));
                    }
                }
            }
            let d = self.parse_directive_annotation(context)?;
            directives.push(d);
            proof {
                if self.spec_errors().len() == old(self).spec_errors().len() {
                    lemma_directives_step(ds0, d, *old(self), before, *self);
                    assert(directives@ == ds0.push(d));
                }
            }
        }
        proof {
            if self.pos() == old(self).pos() {
                assert(old(self).rest().subrange(0, 0) =~= Seq::<GraphQLToken>::empty());
            }
            GraphQLParser::lemma_advanced(*old(self), *self);
            if pre {
                let p = self.pos() - old(self).pos();
                lemma_directives_progress(old(self).rest(), tds, directives@.len() as int, p, tn, retain);
                assert(p < old(self).rest().len() ==> self.rest()[0] == old(self).rest()[p]);
            }
            assert forall|ds: Seq<ast::DirectiveAnnotation>, n: int| #[trigger] directives_at(old(self).rest(), retain, context, room, ds, n)
                implies self.spec_errors() == old(self).spec_errors() && self.pos() == old(self).pos() + n by {
                assert(pre);
                lemma_directives_unique_len(tds, ds, old(self).rest(), tn, n, retain);
            }
        }
        Ok(directives)
    }

    /// Parses one directive annotation `@name(arguments)`.
    #[verifier::spinoff_prover]
    #[verifier::rlimit(60)]
    fn parse_directive_annotation(&mut self, context: ConstContext) -> (r: Result<
        ast::DirectiveAnnotation,
        (),
    >)
        requires
            old(self).inv(),
            old(self).rest().len() > 0,
            old(self).rest()[0].kind is At,
        ensures
            advanced(*old(self), *final(self)),
            progressed(*old(self), *final(self), r),
            final(self).pos() > old(self).pos(),
            r is Ok ==> r->Ok_0.span.start_inclusive == old(self).rest()[0].span.start_inclusive,
            r is Ok && !allows_variables(context) ==> arguments_are_const(r->Ok_0.arguments@),
            r is Ok && final(self).spec_errors().len() == old(self).spec_errors().len() ==> directive_written(
                r->Ok_0,
                old(self).rest().subrange(0, final(self).pos() - old(self).pos()),
                old(self).spec_config().retain_syntax,
            ),
            forall|d: ast::DirectiveAnnotation, n: int|
                #[trigger] directive_at(
                    old(self).rest(),
                    old(self).spec_config().retain_syntax,
                    context,
                    MAX_RECURSION_DEPTH - old(self).depth(),
                    d,
                    n,
                ) ==> r is Ok && final(self).spec_errors() == old(self).spec_errors() && final(self).pos()
                    == old(self).pos() + n,
    {
        let ghost retain = old(self).spec_config().retain_syntax;
        let ghost room = MAX_RECURSION_DEPTH - old(self).depth();
        let ghost pre = exists|d: ast::DirectiveAnnotation, n: int| #[trigger] directive_at(old(self).rest(), retain, context, room, d, n);
        let ghost target: (ast::DirectiveAnnotation, int) = choose|d: ast::DirectiveAnnotation, n: int| #[trigger] directive_at(old(self).rest(), retain, context, room, d, n);
        let at = self.take_token();
        let ghost s1 = *self;
        proof {
            GraphQLParser::lemma_advanced(*old(self), s1);
            if pre {
                assert(old(self).rest().subrange(0, target.1)[1] == old(self).rest()[1]);
                assert(s1.rest()[0] == old(self).rest()[1]);
            }
        }
        let name = self.expect_ast_name()?;
        let ghost s2 = *self;
        proof {
            GraphQLParser::lemma_advanced(*old(self), s2);
            if pre {
                let d = target.0;
                let n = target.1;
                if d.arguments.len() > 0 {
                    let ts = old(self).rest().subrange(0, n);
                    assert(ts.subrange(2, n) =~= s2.rest().subrange(0, n - 2));
                    assert(s2.rest().subrange(0, n - 2)[0] == s2.rest()[0]);
                    assert(arguments_at(s2.rest(), retain, context, MAX_RECURSION_DEPTH - s2.depth(), d.arguments@, n - 2));
                } else {
                    assert(n == 2);
                    assert(n < old(self).rest().len() ==> s2.rest()[0] == old(self).rest()[n]);
                }
            }
        }
        let arguments = if self.peek_is(&GraphQLTokenKind::ParenOpen) {
            self.parse_ast_arguments(DelimiterContext::DirectiveArguments, context)?
        } else {
            Vec::new()
        };
        let span = self.span_from(at.span.start_inclusive);
        proof {
            GraphQLParser::lemma_advanced(*old(self), s1);
            GraphQLParser::lemma_advanced(*old(self), s2);
            GraphQLParser::lemma_advanced(s2, *self);
            GraphQLParser::lemma_advanced(*old(self), *self);
            if self.spec_errors().len() == old(self).spec_errors().len() {
                let n = self.pos() - old(self).pos();
                let ts = old(self).rest().subrange(0, n);
                assert(ts[1] == s1.rest()[0]);
                if arguments@.len() > 0 {
                    let args_ts = s2.rest().subrange(0, self.pos() - s2.pos());
                    assert(ts.subrange(2, n) =~= args_ts);
                    lemma_arguments_written_len(arguments@, args_ts.subrange(1, args_ts.len() - 1), old(self).spec_config().retain_syntax);
                }
            }
        }
        let r = ast::DirectiveAnnotation { name, arguments, span };
        proof {
            GraphQLParser::lemma_advanced(*old(self), *self);
            assert forall|d: ast::DirectiveAnnotation, n: int| #[trigger] directive_at(old(self).rest(), retain, context, room, d, n)
                implies self.spec_errors() == old(self).spec_errors() && self.pos() == old(self).pos() + n by {
                assert(pre);
                let m = self.pos() - old(self).pos();
                if r.arguments.len() == 0 {
                    assert(self.pos() == s2.pos());
                    assert(m < old(self).rest().len() ==> old(self).rest()[m] == s2.rest()[0]);
                }
                lemma_directive_unique_len(r, d, old(self).rest(), m, n, retain);
            }
        }
        Ok(r)
    }

    /// Parses arguments `(name: value ...)`; an empty list is reported but
    /// accepted.
    #[verifier::spinoff_prover]
    #[verifier::rlimit(100)]
    pub(crate) fn parse_ast_arguments(
        &mut self,
        delim_context: DelimiterContext,
        const_context: ConstContext,
    ) -> (r: Result<Vec<ast::Argument>, ()>)
        requires
            old(self).inv(),
            old(self).rest().len() > 0,
            old(self).rest()[0].kind is ParenOpen,
        ensures
            advanced(*old(self), *final(self)),
            progressed(*old(self), *final(self), r),
            final(self).pos() > old(self).pos(),
            r is Ok && !allows_variables(const_context) ==> arguments_are_const(r->Ok_0@),
            r is Ok && final(self).spec_errors().len() == old(self).spec_errors().len() ==> r->Ok_0@.len() > 0,
            r is Ok && final(self).spec_errors().len() == old(self).spec_errors().len() ==> argument_list_written(
                r->Ok_0@,
                old(self).rest().subrange(0, final(self).pos() - old(self).pos()),
                old(self).spec_config().retain_syntax,
            ),
            forall|args: Seq<ast::Argument>, n: int|
                #[trigger] arguments_at(
                    old(self).rest(),
                    old(self).spec_config().retain_syntax,
                    const_context,
                    MAX_RECURSION_DEPTH - old(self).depth(),
                    args,
                    n,
                ) ==> r is Ok && final(self).spec_errors() == old(self).spec_errors() && final(self).pos()
                    == old(self).pos() + n,
    {
        let retain = self.retain_syntax();
        let ghost room = MAX_RECURSION_DEPTH - old(self).depth();
        let ghost pre = exists|args: Seq<ast::Argument>, n: int| #[trigger] arguments_at(old(self).rest(), retain, const_context, room, args, n);
        let ghost target: (Seq<ast::Argument>, int) = choose|args: Seq<ast::Argument>, n: int| #[trigger] arguments_at(old(self).rest(), retain, const_context, room, args, n);
        let ghost tn = target.1;
        let ghost targs = target.0;
        proof {
            if pre {
                let ts = old(self).rest().subrange(0, tn);
                assert(ts.subrange(1, ts.len() - 1) =~= old(self).rest().subrange(1, tn - 1));
                assert(ts.last() == old(self).rest()[tn - 1]);
                assert(targs.subrange(0, targs.len() as int) =~= targs);
                lemma_arguments_written_front(targs, old(self).rest().subrange(1, tn - 1), retain);
                assert(old(self).rest().subrange(1, tn - 1)[0] == old(self).rest()[1]);
                reveal(arguments_left);
            }
        }
        let open = self.take_token();
        self.push_delimiter(open.span.duplicate(), delim_context);
        let mut arguments: Vec<ast::Argument> = Vec::new();
        proof {
            GraphQLParser::lemma_advanced(*old(self), *self);
        }
        if self.peek_is(&GraphQLTokenKind::ParenClose) {
            self.record_error(
                GraphQLParseError::new(
                    "argument list cannot be empty; omit the parentheses instead".to_owned(),
                    GraphQLParseErrorKind::InvalidEmptyConstruct {
                        construct: "argument list".to_owned(),
                    },
                    open.span.to_source_span(),
                ),
            );
        }
        loop
            invariant
                advanced(*old(self), *self),
                self.pos() > old(self).pos(),
                !allows_variables(const_context) ==> arguments_are_const(arguments@),
                old(self).inv(),
                arguments@.len() == 0 ==> self.pos() == old(self).pos() + 1,
                old(self).rest().len() > 1 && old(self).rest()[1].kind is ParenClose ==> self.spec_errors().len()
                    > old(self).spec_errors().len(),
                self.spec_errors().len() == old(self).spec_errors().len() ==> arguments_written(
                    arguments@,
                    old(self).rest().subrange(1, self.pos() - old(self).pos()),
                    old(self).spec_config().retain_syntax,
                ),
                retain == old(self).spec_config().retain_syntax,
                room == MAX_RECURSION_DEPTH - old(self).depth(),
                pre == exists|args: Seq<ast::Argument>, n: int| #[trigger] arguments_at(old(self).rest(), retain, const_context, room, args, n),
                pre ==> arguments_at(old(self).rest(), retain, const_context, room, targs, tn)
                    && old(self).rest()[tn - 1].kind is ParenClose
                    && self.spec_errors() == old(self).spec_errors() && arguments@.len() <= targs.len()
                    && self.pos() - old(self).pos() <= tn - 1 && arguments_left(
                    old(self).rest(),
                    targs,
                    arguments@.len() as int,
                    self.pos() - old(self).pos(),
                    tn,
                    retain,
                ),
            ensures
                self.rest().len() > 0 && self.rest()[0].kind is ParenClose,
            decreases self.rest().len(),
        {
            proof {
                GraphQLParser::lemma_advanced(*old(self), *self);
                if pre {
                    let k = arguments@.len() as int;
                    let p = self.pos() - old(self).pos();
                    lemma_arguments_progress(old(self).rest(), targs, k, p, tn, retain);
                    assert(self.rest()[0] == old(self).rest()[p]);
                    if k < targs.len() {
                        assert(self.rest()[1] == old(self).rest()[p + 1]);
                    }
                }
            }
            if self.peek_is(&GraphQLTokenKind::ParenClose) {
                break;
            }
            if self.is_at_end() {
                self.record_unclosed("(", true);
                return Err(());
            }
            let ghost before = *self;
            let ghost as0 = arguments@;
            let name = self.expect_ast_name()?;
            proof {
                if pre {
                    GraphQLParser::lemma_advanced(before, *self);
                    assert(self.rest()[0] == before.rest()[1]);
                    assert(kinds_match(self.rest()[0].kind, GraphQLTokenKind::Colon));
                }
            }
            self.expect(&GraphQLTokenKind::Colon)?;
            let ghost mid = *self;
            proof {
                if pre {
                    let k = as0.len() as int;
                    let p = before.pos() - old(self).pos();
                    let a = value_len(targs[k].value) as int;
                    GraphQLParser::lemma_advanced(*old(self), mid);
                    assert(old(self).rest().subrange(p + 2, p + 2 + a) =~= mid.rest().subrange(0, a));
                    assert(value_at(mid.rest(), retain, const_context, MAX_RECURSION_DEPTH - mid.depth(), targs[k].value, a));
                }
            }
            let value = self.parse_value(const_context)?;
            let span = self.span_from(name.span.start_inclusive);
            arguments.push(ast::Argument { name, value, span });
            proof {
                GraphQLParser::lemma_advanced(*old(self), before);
                GraphQLParser::lemma_advanced(before, mid);
                GraphQLParser::lemma_advanced(mid, *self);
                if pre {
                    let k = as0.len() as int;
                    let a = value_len(targs[k].value) as int;
                    assert(value_at(mid.rest(), retain, const_context, MAX_RECURSION_DEPTH - mid.depth(), targs[k].value, a));
                }
                if self.spec_errors().len() == old(self).spec_errors().len() {
                    let n = self.pos() - old(self).pos();
                    let ts = old(self).rest().subrange(1, n);
                    let k = before.pos() - old(self).pos() - 1;
                    assert(arguments@.drop_last() =~= as0);
                    assert(ts.subrange(0, k) =~= old(self).rest().subrange(1, before.pos() - old(self).pos()));
                    assert(ts[k] == before.rest()[0]);
                    assert(ts[k + 1] == before.rest()[1]);
                    assert(ts.subrange(k + 2, ts.len() as int) =~= mid.rest().subrange(0, self.pos() - mid.pos()));
                }
            }
        }
        let ghost s_end = *self;
        self.take_token();
        self.pop_delimiter();
        proof {
            GraphQLParser::lemma_advanced(*old(self), s_end);
            GraphQLParser::lemma_advanced(*old(self), *self);
            if self.spec_errors().len() == old(self).spec_errors().len() {
                let n = self.pos() - old(self).pos();
                let ts = old(self).rest().subrange(0, n);
                assert(ts.subrange(1, ts.len() - 1) =~= old(self).rest().subrange(1, s_end.pos() - old(self).pos()));
            }
            if pre {
                let p = s_end.pos() - old(self).pos();
                lemma_arguments_progress(old(self).rest(), targs, arguments@.len() as int, p, tn, retain);
                assert(s_end.rest()[0] == old(self).rest()[p]);
                assert(s_end.pos() - old(self).pos() == tn - 1);
            }
            assert forall|args: Seq<ast::Argument>, n: int| #[trigger] arguments_at(old(self).rest(), retain, const_context, room, args, n)
                implies self.spec_errors() == old(self).spec_errors() && self.pos() == old(self).pos() + n by {
                assert(pre);
                lemma_argument_list_unique_len(args, targs, old(self).rest(), n, tn, retain);
            }
        }
        Ok(arguments)
    }
}

} // verus!
