//! Parsing of selection sets, selections and type conditions.

use crate::ast;
use crate::graphql_parse_error::GraphQLParseError;
use crate::graphql_parse_error_kind::GraphQLParseErrorKind;
use crate::graphql_parser::advanced;
use crate::graphql_parser::consumed;
use crate::graphql_parser::is_keyword;
use crate::graphql_parser::is_name_token;
use crate::graphql_parser::name_of;
use crate::graphql_parser::progressed;
use crate::graphql_parser::spanned;
use crate::graphql_parser::types::argument_list_written;
use crate::graphql_parser::types::arguments_len;
use crate::graphql_parser::types::directives_len;
use crate::graphql_parser::types::directives_written;
use crate::graphql_parser::types::lemma_arguments_written_len;
use crate::graphql_parser::types::lemma_directives_written_len;
use crate::graphql_parser::values::tokens_span;
use crate::graphql_parser::ConstContext;
use crate::graphql_parser::DelimiterContext;
use crate::graphql_parser::GraphQLParser;
use crate::graphql_parser::MAX_RECURSION_DEPTH;
use crate::graphql_source_span::GraphQLSourceSpan;
use crate::source_position::SourcePosition;
use crate::token::GraphQLToken;
use crate::token::GraphQLTokenKind;
use vstd::prelude::*;

verus! {

/// Whether a token of kind `k` can start a selection.
pub open spec fn is_selection_start(k: GraphQLTokenKind) -> bool {
    k is Ellipsis || k is Name || k is True || k is False || k is Null
}

/// Whether skipping inside a selection set stops at a token of kind `k`.
pub open spec fn is_selection_recovery_point(k: GraphQLTokenKind) -> bool {
    k is CurlyBraceClose || k is Eof || is_selection_start(k)
}

/// The span of a selection.
pub open spec fn selection_span(s: ast::Selection) -> GraphQLSourceSpan {
    match s {
        ast::Selection::Field(f) => f.span,
        ast::Selection::FragmentSpread(f) => f.span,
        ast::Selection::InlineFragment(f) => f.span,
    }
}

/// The number of tokens a selection set is written with.
pub open spec fn selection_set_len(ss: ast::SelectionSet) -> nat
    decreases ss, 2nat,
{
    2 + selections_len(ss.selections@)
}

/// The number of tokens the selections `ss` are written with.
pub open spec fn selections_len(ss: Seq<ast::Selection>) -> nat
    decreases ss, 1nat,
{
    if ss.len() == 0 {
        0
    } else {
        selections_len(ss.drop_last()) + selection_len(ss.last())
    }
}

/// The number of tokens an argument list is written with (none when there
/// are no arguments).
pub open spec fn argument_list_len(args: Seq<ast::Argument>) -> nat {
    if args.len() == 0 {
        0
    } else {
        2 + arguments_len(args)
    }
}

/// The number of tokens a selection is written with.
pub open spec fn selection_len(s: ast::Selection) -> nat
    decreases s, 0nat,
{
    match s {
        ast::Selection::Field(f) => (if f.alias is Some {
            2nat
        } else {
            0nat
        }) + 1 + argument_list_len(f.arguments@) + directives_len(f.directives@) + match f.selection_set {
            Some(ss) => selection_set_len(ss),
            None => 0,
        },
        ast::Selection::FragmentSpread(f) => 2 + directives_len(f.directives@),
        ast::Selection::InlineFragment(f) => 1 + (if f.type_condition is Some {
            2nat
        } else {
            0nat
        }) + directives_len(f.directives@) + selection_set_len(f.selection_set),
    }
}

/// The arguments `args` are written with exactly the tokens `ts`: nothing
/// when there are none, else their parenthesized list.
pub open spec fn opt_arguments_written(args: Seq<ast::Argument>, ts: Seq<GraphQLToken>, retain: bool) -> bool {
    if args.len() == 0 {
        ts.len() == 0
    } else {
        argument_list_written(args, ts, retain)
    }
}

/// The selection set `ss` is written with exactly the tokens `ts`: `{`,
/// its selections and `}`. Its span runs from the start of `{` to the start
/// of `}`.
pub open spec fn selection_set_written(ss: ast::SelectionSet, ts: Seq<GraphQLToken>, retain: bool) -> bool
    decreases ss, 2nat,
{
    &&& ts.len() == selection_set_len(ss)
    &&& ts[0].kind is CurlyBraceOpen
    &&& ts.last().kind is CurlyBraceClose
    &&& selections_written(ss.selections@, ts.subrange(1, ts.len() - 1), retain)
    &&& ss.span == spanned(ts[0].span.start_inclusive, Some(ts.last().span.start_inclusive))
}

/// The selections `ss` are written with exactly the tokens `ts`, one after
/// the other.
pub open spec fn selections_written(ss: Seq<ast::Selection>, ts: Seq<GraphQLToken>, retain: bool) -> bool
    decreases ss, 1nat,
{
    if ss.len() == 0 {
        ts.len() == 0
    } else {
        let k = ts.len() - selection_len(ss.last());
        &&& 0 <= k
        &&& selections_written(ss.drop_last(), ts.subrange(0, k), retain)
        &&& selection_written(ss.last(), ts.subrange(k, ts.len() as int), retain)
    }
}

/// The selection `s` is written with exactly the tokens `ts`: a field as
/// an optional alias and `:`, its name, arguments, directives and optional
/// selection set; a fragment spread as `...`, a name and directives; an
/// inline fragment as `...`, an optional `on Type`, directives and a
/// selection set. Spans of fragments start after the `...`.
pub open spec fn selection_written(s: ast::Selection, ts: Seq<GraphQLToken>, retain: bool) -> bool
    decreases s, 0nat,
{
    &&& ts.len() == selection_len(s)
    &&& match s {
        ast::Selection::Field(f) => {
            let i: int = if f.alias is Some {
                2
            } else {
                0
            };
            let a = i + 1 + argument_list_len(f.arguments@);
            let d = a + directives_len(f.directives@);
            &&& (f.alias matches Some(al) ==> is_name_token(ts[0]) && name_of(al, ts[0]) && ts[1].kind is Colon)
            &&& is_name_token(ts[i])
            &&& name_of(f.name, ts[i])
            &&& opt_arguments_written(f.arguments@, ts.subrange(i + 1, a), retain)
            &&& directives_written(f.directives@, ts.subrange(a, d), retain)
            &&& (f.selection_set matches Some(ss) ==> selection_set_written(ss, ts.subrange(d, ts.len() as int), retain))
            &&& f.span == tokens_span(ts[0], ts.last())
        },
        ast::Selection::FragmentSpread(f) => {
            &&& ts[0].kind is Ellipsis
            &&& is_name_token(ts[1])
            &&& name_of(f.name, ts[1])
            &&& directives_written(f.directives@, ts.subrange(2, ts.len() as int), retain)
            &&& f.span == tokens_span(ts[1], ts.last())
        },
        ast::Selection::InlineFragment(f) => {
            let i: int = if f.type_condition is Some {
                3
            } else {
                1
            };
            let d = i + directives_len(f.directives@);
            &&& ts[0].kind is Ellipsis
            &&& (f.type_condition matches Some(tc) ==> is_keyword(ts[1], "on"@) && is_name_token(ts[2]) && name_of(
                tc.named_type,
                ts[2],
            ) && tc.span == tokens_span(ts[1], ts[2]))
            &&& directives_written(f.directives@, ts.subrange(i, d), retain)
            &&& selection_set_written(f.selection_set, ts.subrange(d, ts.len() as int), retain)
            &&& f.span == tokens_span(ts[1], ts.last())
        },
    }
}

/// Assembles what parsing a field established, piece by piece, into the
/// tokens that write the field.
#[verifier::spinoff_prover]
#[verifier::rlimit(100)]
proof fn lemma_field_written<'src>(
    f: ast::Field,
    s0: GraphQLParser<'src>,
    s1: GraphQLParser<'src>,
    s1b: GraphQLParser<'src>,
    s2: GraphQLParser<'src>,
    s3: GraphQLParser<'src>,
    s4: GraphQLParser<'src>,
    s5: GraphQLParser<'src>,
)
    requires
        s0.inv(),
        advanced(s0, s1),
        advanced(s1, s1b),
        advanced(s1b, s2),
        advanced(s2, s3),
        advanced(s3, s4),
        advanced(s4, s5),
        s5.spec_errors().len() == s0.spec_errors().len(),
        s0.rest().len() > 0,
        is_name_token(s0.rest()[0]),
        s1.pos() == s0.pos() + 1,
        f.alias matches Some(al) ==> name_of(al, s0.rest()[0]) && s1b.pos() == s1.pos() + 1 && s1.rest()[0].kind is Colon
            && s2.pos() == s1b.pos() + 1 && is_name_token(s1b.rest()[0]) && name_of(f.name, s1b.rest()[0]),
        f.alias is None ==> name_of(f.name, s0.rest()[0]) && s2.pos() == s1.pos(),
        f.arguments@.len() == 0 ==> s3.pos() == s2.pos(),
        f.arguments@.len() > 0 ==> argument_list_written(f.arguments@, consumed(s2, s3), s0.spec_config().retain_syntax),
        directives_written(f.directives@, consumed(s3, s4), s0.spec_config().retain_syntax),
        f.selection_set is None ==> s5.pos() == s4.pos(),
        f.selection_set matches Some(ss) ==> selection_set_written(ss, consumed(s4, s5), s0.spec_config().retain_syntax),
        f.span == spanned(s0.rest()[0].span.start_inclusive, s5.last_end()),
    ensures
        selection_written(ast::Selection::Field(f), consumed(s0, s5), s0.spec_config().retain_syntax),
{
    let retain = s0.spec_config().retain_syntax;
    GraphQLParser::lemma_consumed(s0, s1, s1b);
    GraphQLParser::lemma_consumed(s0, s1b, s2);
    GraphQLParser::lemma_consumed(s0, s2, s3);
    GraphQLParser::lemma_consumed(s0, s3, s4);
    GraphQLParser::lemma_consumed(s0, s4, s5);
    GraphQLParser::lemma_last_end(s0, s5);
    let ts = consumed(s0, s5);
    let i = s2.pos() - s0.pos() - 1;
    let a = s3.pos() - s0.pos();
    let d = s4.pos() - s0.pos();
    assert(ts[0] == s0.rest()[0]);
    if f.alias is Some {
        assert(ts[1] == consumed(s0, s1b)[1]);
        assert(ts[2] == consumed(s0, s2)[2]);
    }
    if f.arguments@.len() > 0 {
        let c = consumed(s2, s3);
        lemma_arguments_written_len(f.arguments@, c.subrange(1, c.len() - 1), retain);
    }
    lemma_directives_written_len(f.directives@, consumed(s3, s4), retain);
    assert(ts.subrange(i + 1, a) == consumed(s2, s3)) by {
        assert(ts.subrange(i + 1, a) =~= consumed(s0, s3).subrange(s2.pos() - s0.pos(), s3.pos() - s0.pos()));
    }
    assert(ts.subrange(a, d) == consumed(s3, s4)) by {
        assert(ts.subrange(a, d) =~= consumed(s0, s4).subrange(s3.pos() - s0.pos(), s4.pos() - s0.pos()));
    }
    lemma_field_from_pieces(f, ts, retain, i, a, d);
}

/// A field whose pieces are written with consecutive parts of `ts` is
/// written with `ts`.
#[verifier::spinoff_prover]
#[verifier::rlimit(100)]
proof fn lemma_field_from_pieces(f: ast::Field, ts: Seq<GraphQLToken>, retain: bool, i: int, a: int, d: int)
    requires
        i == (if f.alias is Some {
            2int
        } else {
            0int
        }),
        a == i + 1 + argument_list_len(f.arguments@),
        d == a + directives_len(f.directives@),
        ts.len() == d + match f.selection_set {
            Some(ss) => selection_set_len(ss),
            None => 0,
        },
        f.alias matches Some(al) ==> is_name_token(ts[0]) && name_of(al, ts[0]) && ts[1].kind is Colon,
        is_name_token(ts[i]),
        name_of(f.name, ts[i]),
        opt_arguments_written(f.arguments@, ts.subrange(i + 1, a), retain),
        directives_written(f.directives@, ts.subrange(a, d), retain),
        f.selection_set matches Some(ss) ==> selection_set_written(ss, ts.subrange(d, ts.len() as int), retain),
        f.span == tokens_span(ts[0], ts.last()),
    ensures
        selection_written(ast::Selection::Field(f), ts, retain),
{
    assert(selection_len(ast::Selection::Field(f)) == ts.len());
}

/// A fragment spread after its `...` is written with exactly the tokens
/// `c`: its name and directives; its span runs from `start` to `end`.
pub open spec fn spread_rest_written(
    s: ast::Selection,
    c: Seq<GraphQLToken>,
    retain: bool,
    start: SourcePosition,
    end: Option<SourcePosition>,
) -> bool {
    &&& s matches ast::Selection::FragmentSpread(f)
    &&& c.len() == 1 + directives_len(f.directives@)
    &&& is_name_token(c[0])
    &&& name_of(f.name, c[0])
    &&& directives_written(f.directives@, c.subrange(1, c.len() as int), retain)
    &&& f.span == spanned(start, end)
}

/// An inline fragment after its `...` is written with exactly the tokens
/// `c`: an optional `on Type`, its directives and its selection set; its
/// span runs from `start` to `end`.
pub open spec fn inline_rest_written(
    s: ast::Selection,
    c: Seq<GraphQLToken>,
    retain: bool,
    start: SourcePosition,
    end: Option<SourcePosition>,
) -> bool {
    &&& s matches ast::Selection::InlineFragment(f)
    &&& {
        let i: int = if f.type_condition is Some {
            2
        } else {
            0
        };
        let d = i + directives_len(f.directives@);
        &&& c.len() == d + selection_set_len(f.selection_set)
        &&& (f.type_condition matches Some(tc) ==> is_keyword(c[0], "on"@) && is_name_token(c[1]) && name_of(
            tc.named_type,
            c[1],
        ) && tc.span == tokens_span(c[0], c[1]))
        &&& directives_written(f.directives@, c.subrange(i, d), retain)
        &&& selection_set_written(f.selection_set, c.subrange(d, c.len() as int), retain)
        &&& f.span == spanned(start, end)
    }
}

/// Assembles what parsing an inline fragment after its `...`
/// established, piece by piece.
#[verifier::spinoff_prover]
#[verifier::rlimit(100)]
proof fn lemma_inline_written<'src>(
    f: ast::InlineFragment,
    s0: GraphQLParser<'src>,
    s1: GraphQLParser<'src>,
    s2: GraphQLParser<'src>,
    s3: GraphQLParser<'src>,
    start: SourcePosition,
)
    requires
        s0.inv(),
        advanced(s0, s1),
        advanced(s1, s2),
        advanced(s2, s3),
        s3.spec_errors().len() == s0.spec_errors().len(),
        f.type_condition matches Some(tc) ==> s1.pos() == s0.pos() + 2 && s0.rest().len() > 1 && is_keyword(
            s0.rest()[0],
            "on"@,
        ) && is_name_token(s0.rest()[1]) && name_of(tc.named_type, s0.rest()[1]) && tc.span == tokens_span(s0.rest()[0], s0.rest()[1]),
        f.type_condition is None ==> s1.pos() == s0.pos(),
        directives_written(f.directives@, consumed(s1, s2), s0.spec_config().retain_syntax),
        selection_set_written(f.selection_set, consumed(s2, s3), s0.spec_config().retain_syntax),
        f.span == spanned(start, s3.last_end()),
    ensures
        inline_rest_written(
            ast::Selection::InlineFragment(f),
            consumed(s0, s3),
            s0.spec_config().retain_syntax,
            start,
            s3.last_end(),
        ),
{
    let retain = s0.spec_config().retain_syntax;
    GraphQLParser::lemma_consumed(s0, s1, s2);
    GraphQLParser::lemma_consumed(s0, s2, s3);
    lemma_directives_written_len(f.directives@, consumed(s1, s2), retain);
    let c = consumed(s0, s3);
    let i = s1.pos() - s0.pos();
    let d = s2.pos() - s0.pos();
    if f.type_condition is Some {
        assert(c[0] == s0.rest()[0]);
        assert(c[1] == s0.rest()[1]);
    }
    assert(c.subrange(i, d) == consumed(s1, s2)) by {
        assert(c.subrange(i, d) =~= consumed(s0, s2).subrange(i, d));
    }
}

/// A fragment spread whose part after `...` is written with the rest of
/// `ts` is written with `ts`.
#[verifier::spinoff_prover]
#[verifier::rlimit(100)]
proof fn lemma_spread_selection(sel: ast::Selection, ts: Seq<GraphQLToken>, retain: bool)
    requires
        ts.len() >= 2,
        ts[0].kind is Ellipsis,
        spread_rest_written(
            sel,
            ts.subrange(1, ts.len() as int),
            retain,
            ts[1].span.start_inclusive,
            Some(ts.last().span.end_exclusive),
        ),
    ensures
        selection_written(sel, ts, retain),
{
    let c = ts.subrange(1, ts.len() as int);
    assert(c.subrange(1, c.len() as int) =~= ts.subrange(2, ts.len() as int));
}

/// An inline fragment whose part after `...` is written with the rest of
/// `ts` is written with `ts`.
#[verifier::spinoff_prover]
#[verifier::rlimit(100)]
proof fn lemma_inline_selection(sel: ast::Selection, ts: Seq<GraphQLToken>, retain: bool)
    requires
        ts.len() >= 2,
        ts[0].kind is Ellipsis,
        inline_rest_written(
            sel,
            ts.subrange(1, ts.len() as int),
            retain,
            ts[1].span.start_inclusive,
            Some(ts.last().span.end_exclusive),
        ),
    ensures
        selection_written(sel, ts, retain),
{
    let c = ts.subrange(1, ts.len() as int);
    let f = sel->InlineFragment_0;
    let i: int = if f.type_condition is Some {
        2
    } else {
        0
    };
    let d = i + directives_len(f.directives@);
    assert(c.subrange(i, d) =~= ts.subrange(i + 1, d + 1));
    assert(c.subrange(d, c.len() as int) =~= ts.subrange(d + 1, ts.len() as int));
    if f.type_condition is Some {
        assert(c[0] == ts[1]);
        assert(c[1] == ts[2]);
    }
}

/// Assembles a fragment from its `...` and what parsing the rest
/// established.
#[verifier::spinoff_prover]
proof fn lemma_fragment_written<'src>(
    sel: ast::Selection,
    s0: GraphQLParser<'src>,
    s1: GraphQLParser<'src>,
    s2: GraphQLParser<'src>,
    start: SourcePosition,
    inline: bool,
)
    requires
        s0.inv(),
        advanced(s0, s1),
        advanced(s1, s2),
        s0.rest().len() > 0,
        s0.rest()[0].kind is Ellipsis,
        s1.pos() == s0.pos() + 1,
        s1.rest().len() > 0 ==> start == s1.rest()[0].span.start_inclusive,
        s2.spec_config() == s0.spec_config(),
        inline ==> inline_rest_written(sel, consumed(s1, s2), s0.spec_config().retain_syntax, start, s2.last_end()),
        !inline ==> spread_rest_written(sel, consumed(s1, s2), s0.spec_config().retain_syntax, start, s2.last_end()),
    ensures
        selection_written(sel, consumed(s0, s2), s0.spec_config().retain_syntax),
{
    let retain = s0.spec_config().retain_syntax;
    GraphQLParser::lemma_consumed(s0, s1, s2);
    let ts = consumed(s0, s2);
    let c = consumed(s1, s2);
    assert(c.len() >= 1);
    GraphQLParser::lemma_last_end(s1, s2);
    assert(ts[0] == s0.rest()[0]);
    assert(ts[1] == s1.rest()[0]);
    assert(ts.subrange(1, ts.len() as int) == c);
    assert(c.last() == ts.last());
    if inline {
        lemma_inline_selection(sel, ts, retain);
    } else {
        lemma_spread_selection(sel, ts, retain);
    }
}

/// Selections written with some tokens take as many tokens as their
/// length.
proof fn lemma_selections_written_len(ss: Seq<ast::Selection>, ts: Seq<GraphQLToken>, retain: bool)
    requires
        selections_written(ss, ts, retain),
    ensures
        ts.len() == selections_len(ss),
    decreases ss.len(),
{
    if ss.len() > 0 {
        let k = ts.len() - selection_len(ss.last());
        lemma_selections_written_len(ss.drop_last(), ts.subrange(0, k), retain);
    }
}

/// One more selection parsed after the `{` at `base` extends the written
/// selections.
#[verifier::spinoff_prover]
proof fn lemma_selections_step<'src>(
    sels0: Seq<ast::Selection>,
    sel: ast::Selection,
    base: GraphQLParser<'src>,
    before: GraphQLParser<'src>,
    after: GraphQLParser<'src>,
)
    requires
        base.inv(),
        advanced(base, before),
        advanced(before, after),
        before.pos() >= base.pos() + 1,
        selections_written(sels0, base.rest().subrange(1, before.pos() - base.pos()), base.spec_config().retain_syntax),
        selection_written(sel, consumed(before, after), base.spec_config().retain_syntax),
    ensures
        selections_written(
            sels0.push(sel),
            base.rest().subrange(1, after.pos() - base.pos()),
            base.spec_config().retain_syntax,
        ),
{
    GraphQLParser::lemma_advanced(base, before);
    GraphQLParser::lemma_advanced(base, after);
    let ts = base.rest().subrange(1, after.pos() - base.pos());
    let k = before.pos() - base.pos() - 1;
    let vs = sels0.push(sel);
    assert(vs.drop_last() =~= sels0);
    assert(vs.last() == sel);
    assert(ts.subrange(0, k) =~= base.rest().subrange(1, before.pos() - base.pos()));
    assert(ts.subrange(k, ts.len() as int) =~= consumed(before, after));
}

/// A selection set closed at `s_end` after its selections is written with
/// the tokens from its `{` through its `}`.
#[verifier::spinoff_prover]
#[verifier::rlimit(60)]
proof fn lemma_selection_set_end<'src>(
    ss: ast::SelectionSet,
    base: GraphQLParser<'src>,
    s_end: GraphQLParser<'src>,
    fin: GraphQLParser<'src>,
)
    requires
        base.inv(),
        advanced(base, s_end),
        advanced(s_end, fin),
        base.rest().len() > 0,
        base.rest()[0].kind is CurlyBraceOpen,
        s_end.pos() >= base.pos() + 1,
        fin.pos() == s_end.pos() + 1,
        s_end.rest()[0].kind is CurlyBraceClose,
        selections_written(ss.selections@, base.rest().subrange(1, s_end.pos() - base.pos()), base.spec_config().retain_syntax),
        ss.span.start_inclusive == base.rest()[0].span.start_inclusive,
        ss.span.end_exclusive == s_end.rest()[0].span.start_inclusive,
        ss.span.file_path is None,
    ensures
        selection_set_written(ss, consumed(base, fin), base.spec_config().retain_syntax),
{
    GraphQLParser::lemma_advanced(base, s_end);
    GraphQLParser::lemma_advanced(base, fin);
    let ts = consumed(base, fin);
    assert(ts.subrange(1, ts.len() - 1) =~= base.rest().subrange(1, s_end.pos() - base.pos()));
    assert(ts.last() == s_end.rest()[0]);
    lemma_selections_written_len(ss.selections@, ts.subrange(1, ts.len() - 1), base.spec_config().retain_syntax);
}

impl<'src> GraphQLParser<'src> {
    /// Parses a selection set `{ selection ... }`, skipping past selections
    /// that fail. Its span runs from the opening brace to the start of the
    /// closing one.
    pub(crate) fn parse_selection_set(&mut self) -> (r: Result<ast::SelectionSet, ()>)
        requires
            old(self).inv(),
        ensures
            old(self).rest().len() > 0 && old(self).rest()[0].kind is CurlyBraceOpen ==> final(self).pos() > old(self).pos(),
            advanced(*old(self), *final(self)),
            progressed(*old(self), *final(self), r),
            r is Ok ==> old(self).rest().len() > 0 && old(self).rest()[0].kind is CurlyBraceOpen
                && r->Ok_0.span.start_inclusive == old(self).rest()[0].span.start_inclusive,
            old(self).depth() < MAX_RECURSION_DEPTH && !(old(self).rest().len() > 0 && old(self).rest()[0].kind is CurlyBraceOpen) ==> r is Err && final(self).pos() == old(self).pos(),
            r is Ok && final(self).spec_errors().len() == old(self).spec_errors().len() ==> selection_set_written(
                r->Ok_0,
                consumed(*old(self), *final(self)),
                old(self).spec_config().retain_syntax,
            ),
        decreases MAX_RECURSION_DEPTH - old(self).depth(), 4int,
    {
        proof {
            old(self).lemma_inv();
        }
        self.enter_recursion()?;
        let result = self.parse_selection_set_impl();
        self.exit_recursion();
        result
    }

    /// Parses a selection set, one nesting level down.
    fn parse_selection_set_impl(&mut self) -> (r: Result<ast::SelectionSet, ()>)
        requires
            old(self).inv(),
            old(self).depth() > 0,
        ensures
            old(self).rest().len() > 0 && old(self).rest()[0].kind is CurlyBraceOpen ==> final(self).pos() > old(self).pos(),
            advanced(*old(self), *final(self)),
            progressed(*old(self), *final(self), r),
            r is Ok ==> old(self).rest().len() > 0 && old(self).rest()[0].kind is CurlyBraceOpen
                && r->Ok_0.span.start_inclusive == old(self).rest()[0].span.start_inclusive,
            !(old(self).rest().len() > 0 && old(self).rest()[0].kind is CurlyBraceOpen) ==> r is Err
                && final(self).pos() == old(self).pos(),
            r is Ok && final(self).spec_errors().len() == old(self).spec_errors().len() ==> selection_set_written(
                r->Ok_0,
                consumed(*old(self), *final(self)),
                old(self).spec_config().retain_syntax,
            ),
        decreases MAX_RECURSION_DEPTH - old(self).depth() + 1, 3int,
    {
        proof {
            old(self).lemma_inv();
        }
        let open = self.expect(&GraphQLTokenKind::CurlyBraceOpen)?;
        assert(old(self).rest()[0].kind is CurlyBraceOpen);
        self.push_delimiter(open.span.duplicate(), DelimiterContext::SelectionSet);
        let mut selections: Vec<ast::Selection> = Vec::new();
        proof {
            GraphQLParser::lemma_advanced(*old(self), *self);
            assert(old(self).rest().subrange(1, 1) =~= Seq::<GraphQLToken>::empty());
        }
        if self.peek_is(&GraphQLTokenKind::CurlyBraceClose) {
            self.record_error(
                GraphQLParseError::new(
                    "selection set cannot be empty".to_owned(),
                    GraphQLParseErrorKind::InvalidEmptyConstruct {
                        construct: "selection set".to_owned(),
                    },
                    open.span.to_source_span(),
                ),
            );
        }
        loop
            invariant
                advanced(*old(self), *self),
                self.pos() > old(self).pos(),
                old(self).depth() > 0,
                old(self).depth() <= MAX_RECURSION_DEPTH,
                old(self).rest().len() > 0 && old(self).rest()[0].kind is CurlyBraceOpen,
                old(self).inv(),
                self.spec_errors().len() == old(self).spec_errors().len() ==> selections_written(
                    selections@,
                    old(self).rest().subrange(1, self.pos() - old(self).pos()),
                    old(self).spec_config().retain_syntax,
                ),
            ensures
                self.rest().len() > 0 && self.rest()[0].kind is CurlyBraceClose,
            decreases self.rest().len(),
        {
            if self.peek_is(&GraphQLTokenKind::CurlyBraceClose) {
                break;
            }
            if self.is_at_end() {
                self.record_unclosed("{", true);
                return Err(());
            }
            let ghost before = *self;
            let ghost sels0 = selections@;
            match self.parse_selection() {
                Ok(sel) => {
                    selections.push(sel);
                    proof {
                        if self.spec_errors().len() == old(self).spec_errors().len() {
                            lemma_selections_step(sels0, sel, *old(self), before, *self);
                            assert(selections@ == sels0.push(sel));
                        }
                    }
                },
                Err(()) => {
                    self.skip_to_selection_recovery_point();
                },
            }
        }
        let ghost s_end = *self;
        let close = self.take_token();
        self.pop_delimiter();
        let span = GraphQLSourceSpan::new(open.span.start_inclusive, close.span.start_inclusive);
        let ss = ast::SelectionSet { selections, span };
        proof {
            if self.spec_errors().len() == old(self).spec_errors().len() {
                lemma_selection_set_end(ss, *old(self), s_end, *self);
            }
        }
        Ok(ss)
    }

    /// Parses one selection: a field, a fragment spread or an inline
    /// fragment.
    #[verifier::spinoff_prover]
    #[verifier::rlimit(60)]
    fn parse_selection(&mut self) -> (r: Result<ast::Selection, ()>)
        requires
            old(self).inv(),
        ensures
            advanced(*old(self), *final(self)),
            progressed(*old(self), *final(self), r),
            r is Ok && old(self).rest()[0].kind is Ellipsis ==> old(self).rest().len() > 1 && selection_span(
                r->Ok_0,
            ).start_inclusive == old(self).rest()[1].span.start_inclusive,
            r is Ok && !(old(self).rest()[0].kind is Ellipsis) ==> selection_span(r->Ok_0).start_inclusive
                == old(self).rest()[0].span.start_inclusive,
            final(self).pos() == old(self).pos() ==> r is Err && !(old(self).rest().len() > 0
                && is_selection_start(old(self).rest()[0].kind)),
            r is Ok && final(self).spec_errors().len() == old(self).spec_errors().len() ==> selection_written(
                r->Ok_0,
                consumed(*old(self), *final(self)),
                old(self).spec_config().retain_syntax,
            ),
        decreases MAX_RECURSION_DEPTH - old(self).depth() + 1, 2int,
    {
        proof {
            old(self).lemma_inv();
        }
        if self.peek_is(&GraphQLTokenKind::Ellipsis) {
            let ghost s0 = *self;
            self.take_token();
            let ghost s1 = *self;
            let start = self.next_span().start_inclusive;
            let inline = self.peek_is_keyword("on") || self.peek_is(&GraphQLTokenKind::At) || self.peek_is(
                &GraphQLTokenKind::CurlyBraceOpen,
            );
            let r = if inline {
                self.parse_inline_fragment(start)
            } else {
                self.parse_fragment_spread(start)
            };
            proof {
                if r is Ok && self.spec_errors().len() == s0.spec_errors().len() {
                    lemma_fragment_written(r->Ok_0, s0, s1, *self, start, inline);
                }
            }
            r
        } else {
            match self.parse_field() {
                Ok(f) => Ok(ast::Selection::Field(f)),
                Err(()) => Err(()),
            }
        }
    }

    /// Parses a field `alias: name(arguments) @directives { selections }`.
    #[verifier::rlimit(80)]
    fn parse_field(&mut self) -> (r: Result<ast::Field, ()>)
        requires
            old(self).inv(),
        ensures
            advanced(*old(self), *final(self)),
            progressed(*old(self), *final(self), r),
            r is Ok ==> old(self).rest().len() > 0 && r->Ok_0.span.start_inclusive == old(self).rest()[0].span.start_inclusive && match r->Ok_0.alias {
                Some(a) => name_of(a, old(self).rest()[0]),
                None => name_of(r->Ok_0.name, old(self).rest()[0]),
            },
            final(self).pos() == old(self).pos() ==> r is Err && !(old(self).rest().len() > 0
                && is_name_token(old(self).rest()[0])),
            r is Ok && final(self).spec_errors().len() == old(self).spec_errors().len() ==> selection_written(
                ast::Selection::Field(r->Ok_0),
                consumed(*old(self), *final(self)),
                old(self).spec_config().retain_syntax,
            ),
        decreases MAX_RECURSION_DEPTH - old(self).depth() + 1, 1int,
    {
        proof {
            old(self).lemma_inv();
        }
        let ghost s0 = *self;
        let first = self.expect_ast_name()?;
        let start = first.span.start_inclusive;
        let ghost s1 = *self;
        let ghost mut s1b = *self;
        let (alias, name) = if self.peek_is(&GraphQLTokenKind::Colon) {
            self.take_token();
            proof {
                s1b = *self;
            }
            let n = self.expect_ast_name()?;
            (Some(first), n)
        } else {
            (None, first)
        };
        let ghost s2 = *self;
        let arguments = if self.peek_is(&GraphQLTokenKind::ParenOpen) {
            self.parse_ast_arguments(DelimiterContext::FieldArguments, ConstContext::AllowVariables)?
        } else {
            Vec::new()
        };
        let ghost s3 = *self;
        let directives = self.parse_directive_annotations()?;
        let ghost s4 = *self;
        let selection_set = if self.peek_is(&GraphQLTokenKind::CurlyBraceOpen) {
            Some(self.parse_selection_set()?)
        } else {
            None
        };
        let span = self.span_from(start);
        let f = ast::Field { alias, arguments, directives, name, selection_set, span };
        proof {
            if self.spec_errors().len() == s0.spec_errors().len() {
                lemma_field_written(f, s0, s1, s1b, s2, s3, s4, *self);
            }
        }
        Ok(f)
    }

    /// Parses a fragment spread `...Name @directives`, after its `...`; its
    /// span starts at `start`, where the name starts.
    fn parse_fragment_spread(&mut self, start: SourcePosition) -> (r: Result<ast::Selection, ()>)
        requires
            old(self).inv(),
        ensures
            advanced(*old(self), *final(self)),
            progressed(*old(self), *final(self), r),
            r is Ok ==> r->Ok_0 is FragmentSpread && selection_span(r->Ok_0).start_inclusive == start,
            r is Ok && final(self).spec_errors().len() == old(self).spec_errors().len() ==> spread_rest_written(
                r->Ok_0,
                consumed(*old(self), *final(self)),
                old(self).spec_config().retain_syntax,
                start,
                final(self).last_end(),
            ),
    {
        let ghost s0 = *self;
        let name = self.expect_ast_name()?;
        let ghost s1 = *self;
        let directives = self.parse_directive_annotations()?;
        let span = self.span_from(start);
        proof {
            GraphQLParser::lemma_consumed(s0, s1, *self);
            let c = consumed(s0, *self);
            assert(c[0] == s0.rest()[0]);
            if self.spec_errors().len() == s0.spec_errors().len() {
                lemma_directives_written_len(directives@, consumed(s1, *self), s0.spec_config().retain_syntax);
            }
        }
        Ok(ast::Selection::FragmentSpread(ast::FragmentSpread { directives, name, span }))
    }

    /// Parses an inline fragment `... on Type @directives { selections }`,
    /// after its `...`; its span starts at `start`, where the token after
    /// `...` starts.
    fn parse_inline_fragment(&mut self, start: SourcePosition) -> (r: Result<ast::Selection, ()>)
        requires
            old(self).inv(),
        ensures
            advanced(*old(self), *final(self)),
            progressed(*old(self), *final(self), r),
            r is Ok ==> r->Ok_0 is InlineFragment && selection_span(r->Ok_0).start_inclusive == start,
            r is Ok && final(self).spec_errors().len() == old(self).spec_errors().len() ==> inline_rest_written(
                r->Ok_0,
                consumed(*old(self), *final(self)),
                old(self).spec_config().retain_syntax,
                start,
                final(self).last_end(),
            ),
        decreases MAX_RECURSION_DEPTH - old(self).depth() + 1, 1int,
    {
        proof {
            old(self).lemma_inv();
        }
        let ghost s0 = *self;
        let type_condition = if self.peek_is_keyword("on") {
            Some(self.parse_type_condition()?)
        } else {
            None
        };
        let ghost s1 = *self;
        let directives = self.parse_directive_annotations()?;
        let ghost s2 = *self;
        let selection_set = self.parse_selection_set()?;
        let span = self.span_from(start);
        let f = ast::InlineFragment { directives, selection_set, span, type_condition };
        proof {
            if self.spec_errors().len() == s0.spec_errors().len() {
                lemma_inline_written(f, s0, s1, s2, *self, start);
            }
        }
        let sel = ast::Selection::InlineFragment(f);
        Ok(sel)
    }

    /// Parses a type condition `on Name`.
    pub(crate) fn parse_type_condition(&mut self) -> (r: Result<ast::TypeCondition, ()>)
        requires
            old(self).inv(),
        ensures
            advanced(*old(self), *final(self)),
            progressed(*old(self), *final(self), r),
            r is Ok ==> old(self).rest().len() > 1 && is_keyword(old(self).rest()[0], "on"@) && name_of(
                r->Ok_0.named_type,
                old(self).rest()[1],
            ) && r->Ok_0.span.start_inclusive == old(self).rest()[0].span.start_inclusive
                && r->Ok_0.span.end_exclusive == old(self).rest()[1].span.end_exclusive,
            r is Ok ==> final(self).pos() == old(self).pos() + 2,
            r is Ok ==> r->Ok_0.span == tokens_span(old(self).rest()[0], old(self).rest()[1]),
            r is Ok ==> is_name_token(old(self).rest()[1]),
    {
        let ghost start = *self;
        let on = self.expect_keyword("on")?;
        let ghost mid = *self;
        proof {
            GraphQLParser::lemma_advanced(start, mid);
        }
        let named_type = self.expect_ast_name()?;
        let span = GraphQLSourceSpan::new(on.span.start_inclusive, named_type.span.end_exclusive);
        Ok(ast::TypeCondition { named_type, span })
    }

    /// Whether the next token is a place to resume inside a selection set.
    fn at_selection_recovery_point(&self) -> (r: bool)
        ensures
            r == (self.rest().len() > 0 && is_selection_recovery_point(self.rest()[0].kind)),
    {
        match self.peek() {
            None => false,
            Some(t) => match &t.kind {
                GraphQLTokenKind::CurlyBraceClose | GraphQLTokenKind::Eof | GraphQLTokenKind::Ellipsis
                | GraphQLTokenKind::Name(_) | GraphQLTokenKind::True | GraphQLTokenKind::False
                | GraphQLTokenKind::Null => true,
                _ => false,
            },
        }
    }

    /// Skips tokens up to a place to resume inside a selection set: `}`,
    /// the end of input, `...` or a name.
    fn skip_to_selection_recovery_point(&mut self)
        requires
            old(self).inv(),
        ensures
            advanced(*old(self), *final(self)),
            final(self).spec_errors() == old(self).spec_errors(),
            old(self).rest().len() > 0 && !is_selection_recovery_point(old(self).rest()[0].kind)
                ==> final(self).pos() > old(self).pos(),
    {
        loop
            invariant
                advanced(*old(self), *self),
                self.spec_errors() == old(self).spec_errors(),
                self.pos() == old(self).pos() ==> self.rest() == old(self).rest(),
            ensures
                self.rest().len() == 0 || is_selection_recovery_point(self.rest()[0].kind),
            decreases self.rest().len(),
        {
            if self.rest_len() == 0 || self.at_selection_recovery_point() {
                break;
            }
            self.consume_token();
        }
        proof {
            GraphQLParser::lemma_advanced(*old(self), *self);
        }
    }
}

} // verus!
