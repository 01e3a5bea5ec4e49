//! Conversions of shared sub-nodes from this crate's AST to the
//! `graphql_parser` data: positions, values, type annotations, directives,
//! descriptions, input values, fields, enum values and directive locations.

use crate::ast;
use crate::compat_graphql_parser_v0_4::gp;
use crate::graphql_parser::directive_defs::directive_location_name;
use crate::graphql_source_span::GraphQLSourceSpan;
use crate::source_position::SourcePosition;
use vstd::prelude::*;
use vstd::string::StringSliceAdditionalSpecFns;

verus! {

broadcast use vstd::utf8::group_utf8_lib;

// ── Positions ───────────────────────────────────────────────────────

/// A 0-based coordinate made 1-based (saturating at `usize::MAX`).
pub open spec fn one_based(n: nat) -> nat {
    if n < usize::MAX {
        n + 1
    } else {
        n
    }
}

/// `p` is the 1-based form of the position `sp`.
pub open spec fn pos_is(p: gp::Pos, sp: SourcePosition) -> bool {
    p.line == one_based(sp@.line) && p.column == one_based(sp@.col_utf8)
}

/// `p` is the 1-based form of the start of `span`.
pub open spec fn pos_of(p: gp::Pos, span: GraphQLSourceSpan) -> bool {
    pos_is(p, span.start_inclusive)
}

/// The 1-based `graphql_parser` position of a source position.
pub fn pos_from_position(sp: &SourcePosition) -> (p: gp::Pos)
    ensures
        pos_is(p, *sp),
{
    let line = sp.line();
    let col = sp.col_utf8();
    gp::Pos {
        line: if line < usize::MAX { line + 1 } else { line },
        column: if col < usize::MAX { col + 1 } else { col },
    }
}

/// The 1-based `graphql_parser` position of the start of a span.
pub fn pos_from_span(span: &GraphQLSourceSpan) -> (p: gp::Pos)
    ensures
        pos_of(p, *span),
{
    pos_from_position(&span.start_inclusive)
}

// ── Object keys ─────────────────────────────────────────────────────

/// Strict lexicographic order on byte strings.
pub open spec fn bytes_lt(a: Seq<u8>, b: Seq<u8>) -> bool
    decreases a.len(),
{
    if a.len() == 0 {
        b.len() > 0
    } else if b.len() == 0 {
        false
    } else if a[0] < b[0] {
        true
    } else if a[0] > b[0] {
        false
    } else {
        bytes_lt(a.drop_first(), b.drop_first())
    }
}

/// The order of `String` keys in a `BTreeMap` (byte-wise lexicographic).
pub open spec fn key_lt(a: Seq<char>, b: Seq<char>) -> bool {
    bytes_lt(vstd::utf8::encode_utf8(a), vstd::utf8::encode_utf8(b))
}

/// The entries' keys are strictly increasing.
pub open spec fn keys_sorted(es: Seq<(String, gp::Value)>) -> bool {
    forall|i: int, j: int| 0 <= i < j < es.len() ==> key_lt(#[trigger] es[i].0@, #[trigger] es[j].0@)
}

/// The index of the last field of `fields` named `k`, or -1 if none is.
pub open spec fn last_index_with_name(fields: Seq<ast::ObjectField>, k: Seq<char>) -> int
    decreases fields.len(),
{
    if fields.len() == 0 {
        -1
    } else if fields.last().name.value@ == k {
        fields.len() - 1
    } else {
        last_index_with_name(fields.drop_last(), k)
    }
}

// ── Values ──────────────────────────────────────────────────────────

/// `g` is the `graphql_parser` form of `a`: scalars carry over, lists
/// element-wise, and an object becomes the map from each field name to
/// (the form of) the value of the last field with that name, in key order.
pub open spec fn value_to_gp_rel(a: ast::Value, g: gp::Value) -> bool
    decreases a,
{
    match a {
        ast::Value::Boolean(b) => g == gp::Value::Boolean(b.value),
        ast::Value::Enum(e) => g matches gp::Value::Enum(s) && s@ == e.value@,
        ast::Value::Float(f) => g matches gp::Value::Float(s) && s@ == f.value@,
        ast::Value::Int(i) => g == gp::Value::Int(i.value as i64),
        ast::Value::List(l) => g matches gp::Value::List(gs) && gs.len() == l.values.len() && forall|
            i: int,
        |
            0 <= i < gs.len() ==> value_to_gp_rel(#[trigger] l.values@[i], gs@[i]),
        ast::Value::Null(_) => g == gp::Value::Null,
        ast::Value::Object(o) => g matches gp::Value::Object(es) && keys_sorted(es@) && (forall|
            m: int,
        |
            0 <= m < es.len() ==> {
                let j = last_index_with_name(o.fields@, (#[trigger] es@[m]).0@);
                0 <= j < o.fields.len() && value_to_gp_rel(o.fields@[j].value, es@[m].1)
            }) && (forall|j: int|
            0 <= j < o.fields.len() ==> exists|m: int|
                0 <= m < es.len() && (#[trigger] es@[m]).0@ == (#[trigger] o.fields@[j]).name.value@),
        ast::Value::String(s) => g matches gp::Value::String(t) && t@ == s.value@,
        ast::Value::Variable(v) => g matches gp::Value::Variable(t) && t@ == v.name.value@,
    }
}

/// The relative order of two keys.
enum KeyOrder {
    Less,
    Equal,
    Greater,
}

fn compare_keys(a: &String, b: &String) -> (r: KeyOrder)
    ensures
        r is Less <==> key_lt(a@, b@),
        r is Equal <==> a@ == b@,
        r is Greater <==> key_lt(b@, a@),
{
    let x = a.as_str().as_bytes();
    let y = b.as_str().as_bytes();
    let mut i: usize = 0;
    while i < x.len() && i < y.len() && x[i] == y[i]
        invariant
            i <= x@.len(),
            i <= y@.len(),
            x@.subrange(0, i as int) == y@.subrange(0, i as int),
        decreases x@.len() - i,
    {
        proof {
            assert(x@.subrange(0, i + 1) =~= x@.subrange(0, i as int).push(x@[i as int]));
            assert(y@.subrange(0, i + 1) =~= y@.subrange(0, i as int).push(y@[i as int]));
        }
        i = i + 1;
    }
    proof {
        lemma_bytes_lt_after_prefix(x@, y@, i as int);
        lemma_bytes_lt_after_prefix(y@, x@, i as int);
        lemma_encode_injective(a@, b@);
    }
    if i < x.len() && i < y.len() {
        if x[i] < y[i] {
            KeyOrder::Less
        } else {
            KeyOrder::Greater
        }
    } else if x.len() == y.len() {
        proof {
            assert(x@ =~= x@.subrange(0, i as int));
            assert(y@ =~= y@.subrange(0, i as int));
        }
        KeyOrder::Equal
    } else if x.len() < y.len() {
        KeyOrder::Less
    } else {
        KeyOrder::Greater
    }
}

proof fn lemma_encode_injective(a: Seq<char>, b: Seq<char>)
    ensures
        vstd::utf8::encode_utf8(a) == vstd::utf8::encode_utf8(b) ==> a == b,
{
    vstd::utf8::encode_utf8_decode_utf8(a);
    vstd::utf8::encode_utf8_decode_utf8(b);
}

/// With a common prefix of length `i`, `bytes_lt` is decided at index `i`.
proof fn lemma_bytes_lt_after_prefix(x: Seq<u8>, y: Seq<u8>, i: int)
    requires
        0 <= i <= x.len(),
        i <= y.len(),
        x.subrange(0, i) == y.subrange(0, i),
        i == x.len() || i == y.len() || x[i] != y[i],
    ensures
        bytes_lt(x, y) == (if i < x.len() && i < y.len() {
            x[i] < y[i]
        } else {
            x.len() < y.len()
        }),
    decreases i,
{
    if i > 0 {
        assert(x[0] == x.subrange(0, i)[0]);
        assert(y[0] == y.subrange(0, i)[0]);
        assert(x.drop_first().subrange(0, i - 1) =~= x.subrange(0, i).drop_first());
        assert(y.drop_first().subrange(0, i - 1) =~= y.subrange(0, i).drop_first());
        lemma_bytes_lt_after_prefix(x.drop_first(), y.drop_first(), i - 1);
    }
}

proof fn lemma_bytes_lt_irreflexive(a: Seq<u8>)
    ensures
        !bytes_lt(a, a),
    decreases a.len(),
{
    if a.len() > 0 {
        lemma_bytes_lt_irreflexive(a.drop_first());
    }
}

proof fn lemma_bytes_lt_transitive(a: Seq<u8>, b: Seq<u8>, c: Seq<u8>)
    requires
        bytes_lt(a, b),
        bytes_lt(b, c),
    ensures
        bytes_lt(a, c),
    decreases a.len(),
{
    if a.len() > 0 && b.len() > 0 && c.len() > 0 && a[0] == b[0] && b[0] == c[0] {
        lemma_bytes_lt_transitive(a.drop_first(), b.drop_first(), c.drop_first());
    }
}

proof fn lemma_bytes_lt_asymmetric(a: Seq<u8>, b: Seq<u8>)
    requires
        bytes_lt(a, b),
    ensures
        !bytes_lt(b, a),
    decreases a.len(),
{
    if a.len() > 0 && b.len() > 0 && a[0] == b[0] {
        lemma_bytes_lt_asymmetric(a.drop_first(), b.drop_first());
    }
}

/// Key order is a strict total order.
pub proof fn lemma_key_order(a: Seq<char>, b: Seq<char>, c: Seq<char>)
    ensures
        !key_lt(a, a),
        key_lt(a, b) ==> !key_lt(b, a),
        key_lt(a, b) && key_lt(b, c) ==> key_lt(a, c),
{
    lemma_bytes_lt_irreflexive(vstd::utf8::encode_utf8(a));
    if key_lt(a, b) {
        lemma_bytes_lt_asymmetric(vstd::utf8::encode_utf8(a), vstd::utf8::encode_utf8(b));
        if key_lt(b, c) {
            lemma_bytes_lt_transitive(
                vstd::utf8::encode_utf8(a),
                vstd::utf8::encode_utf8(b),
                vstd::utf8::encode_utf8(c),
            );
        }
    }
}

/// Inserts `(k, v)` into entries kept in strictly increasing key order:
/// replaces the value of an entry with key `k`, or inserts a new entry at
/// its place in key order. Returns the index of the entry and whether an
/// existing entry was replaced.
fn insert_entry(es: &mut Vec<(String, gp::Value)>, k: String, v: gp::Value) -> (r: (usize, bool))
    requires
        keys_sorted(old(es)@),
    ensures
        keys_sorted(final(es)@),
        r.1 ==> r.0 < old(es)@.len() && old(es)@[r.0 as int].0@ == k@ && final(es)@ == old(
            es,
        )@.update(r.0 as int, (k, v)),
        !r.1 ==> r.0 <= old(es)@.len() && (forall|m: int|
            0 <= m < old(es)@.len() ==> (#[trigger] old(es)@[m]).0@ != k@) && final(es)@ == old(
            es,
        )@.insert(r.0 as int, (k, v)),
{
    let mut p: usize = 0;
    let mut done = false;
    let mut equal = false;
    while !done && p < es.len()
        invariant
            p <= es@.len(),
            es@ == old(es)@,
            keys_sorted(es@),
            forall|m: int| 0 <= m < p ==> key_lt((#[trigger] es@[m]).0@, k@),
            done ==> p < es@.len(),
            !done ==> !equal,
            done ==> (equal <==> es@[p as int].0@ == k@),
            done && !equal ==> key_lt(k@, es@[p as int].0@),
        decreases (es@.len() - p) * 2 + (if done { 0int } else { 1int }),
    {
        match compare_keys(&es[p].0, &k) {
            KeyOrder::Less => {
                p = p + 1;
            },
            KeyOrder::Equal => {
                done = true;
                equal = true;
            },
            KeyOrder::Greater => {
                done = true;
            },
        }
    }
    if done && equal {
        let ghost old_es = es@;
        es.set(p, (k, v));
        proof {
            assert forall|i: int, j: int| 0 <= i < j < es@.len() implies key_lt(
                #[trigger] es@[i].0@,
                #[trigger] es@[j].0@,
            ) by {
                assert(key_lt(old_es[i].0@, old_es[j].0@));
            }
        }
        (p, true)
    } else {
        let ghost old_es = es@;
        proof {
            assert forall|m: int| 0 <= m < old_es.len() implies (#[trigger] old_es[m]).0@ != k@ by {
                lemma_key_order(old_es[m].0@, k@, k@);
                if m > p {
                    assert(key_lt(old_es[p as int].0@, old_es[m].0@));
                    lemma_key_order(k@, old_es[p as int].0@, old_es[m].0@);
                    lemma_key_order(old_es[m].0@, k@, k@);
                } else if m == p {
                    lemma_key_order(k@, k@, k@);
                }
            }
        }
        es.insert(p, (k, v));
        proof {
            assert forall|i: int, j: int| 0 <= i < j < es@.len() implies key_lt(
                #[trigger] es@[i].0@,
                #[trigger] es@[j].0@,
            ) by {
                if j < p {
                    assert(key_lt(old_es[i].0@, old_es[j].0@));
                } else if j == p {
                    assert(es@[i] == old_es[i]);
                } else if i == p {
                    assert(es@[j] == old_es[j - 1]);
                    if j - 1 > p {
                        assert(key_lt(old_es[p as int].0@, old_es[j - 1].0@));
                        lemma_key_order(k@, old_es[p as int].0@, old_es[j - 1].0@);
                    }
                    lemma_key_order(old_es[p as int].0@, k@, k@);
                } else if i < p {
                    assert(es@[j] == old_es[j - 1]);
                    assert(key_lt(old_es[i].0@, k@));
                    lemma_key_order(old_es[i].0@, k@, old_es[j - 1].0@);
                    if j - 1 > p {
                        assert(key_lt(old_es[p as int].0@, old_es[j - 1].0@));
                        lemma_key_order(k@, old_es[p as int].0@, old_es[j - 1].0@);
                    }
                    lemma_key_order(old_es[p as int].0@, k@, k@);
                    if i < j - 1 {
                        assert(key_lt(old_es[i].0@, old_es[j - 1].0@));
                    }
                } else {
                    assert(key_lt(old_es[i - 1].0@, old_es[j - 1].0@));
                }
            }
        }
        (p, false)
    }
}

/// Each entry of `es` holds the value of the last of the first `n` fields
/// with its key.
#[verifier::opaque]
pub open spec fn entries_from_fields(fields: Seq<ast::ObjectField>, n: int, es: Seq<(String, gp::Value)>) -> bool {
    forall|m: int|
        0 <= m < es.len() ==> {
            let j = last_index_with_name(fields.take(n), (#[trigger] es[m]).0@);
            0 <= j < n && value_to_gp_rel(fields[j].value, es[m].1)
        }
}

/// The last index with a name is -1 or the index of a field with that name.
proof fn lemma_last_index(fields: Seq<ast::ObjectField>, k: Seq<char>)
    ensures
        -1 <= last_index_with_name(fields, k) < fields.len(),
        last_index_with_name(fields, k) >= 0 ==> fields[last_index_with_name(fields, k)].name.value@ == k,
    decreases fields.len(),
{
    if fields.len() > 0 && fields.last().name.value@ != k {
        lemma_last_index(fields.drop_last(), k);
    }
}

/// Taking one more field changes the last index only for that field's name.
proof fn lemma_last_index_step(fields: Seq<ast::ObjectField>, n: int, k: Seq<char>)
    requires
        0 <= n < fields.len(),
    ensures
        last_index_with_name(fields.take(n + 1), k) == if fields[n].name.value@ == k {
            n
        } else {
            last_index_with_name(fields.take(n), k)
        },
{
    assert(fields.take(n + 1).drop_last() =~= fields.take(n));
    assert(fields.take(n + 1).last() == fields[n]);
}

/// Each of the first `n` fields has an entry in `es`.
#[verifier::opaque]
pub open spec fn fields_have_entries(fields: Seq<ast::ObjectField>, n: int, es: Seq<(String, gp::Value)>) -> bool {
    forall|j: int|
        0 <= j < n ==> exists|m: int| 0 <= m < es.len() && (#[trigger] es[m]).0@ == (#[trigger] fields[j]).name.value@
}

/// The entries `es` are the object form of the first `n` fields.
pub open spec fn object_prefix_rel(fields: Seq<ast::ObjectField>, n: int, es: Seq<(String, gp::Value)>) -> bool {
    entries_from_fields(fields, n, es) && fields_have_entries(fields, n, es)
}

proof fn lemma_object_rel(o: ast::ObjectValue, es: Vec<(String, gp::Value)>)
    requires
        keys_sorted(es@),
        object_prefix_rel(o.fields@, o.fields@.len() as int, es@),
    ensures
        value_to_gp_rel(ast::Value::Object(o), gp::Value::Object(es)),
{
    reveal(entries_from_fields);
    reveal(fields_have_entries);
    assert(o.fields@.take(o.fields@.len() as int) =~= o.fields@);
}

proof fn lemma_keys_distinct(es: Seq<(String, gp::Value)>, a: int, b: int)
    requires
        keys_sorted(es),
        0 <= a < es.len(),
        0 <= b < es.len(),
        a != b,
    ensures
        es[a].0@ != es[b].0@,
{
    if a < b {
        assert(key_lt(es[a].0@, es[b].0@));
    } else {
        assert(key_lt(es[b].0@, es[a].0@));
    }
    lemma_key_order(es[a].0@, es[b].0@, es[b].0@);
    lemma_key_order(es[b].0@, es[a].0@, es[a].0@);
}

/// One step of building an object: the entries after inserting field `j`
/// are the object form of the first `j + 1` fields.
proof fn lemma_object_step(
    fields: Seq<ast::ObjectField>,
    j: int,
    es0: Seq<(String, gp::Value)>,
    es1: Seq<(String, gp::Value)>,
    r: (usize, bool),
    k: String,
    v: gp::Value,
)
    requires
        0 <= j < fields.len(),
        k@ == fields[j].name.value@,
        value_to_gp_rel(fields[j].value, v),
        object_prefix_rel(fields, j, es0),
        keys_sorted(es0),
        keys_sorted(es1),
        r.1 ==> r.0 < es0.len() && es0[r.0 as int].0@ == k@ && es1 == es0.update(r.0 as int, (k, v)),
        !r.1 ==> r.0 <= es0.len() && (forall|m: int| 0 <= m < es0.len() ==> (#[trigger] es0[m]).0@ != k@)
            && es1 == es0.insert(r.0 as int, (k, v)),
    ensures
        object_prefix_rel(fields, j + 1, es1),
{
    lemma_object_step_entries(fields, j, es0, es1, r, k, v);
    lemma_object_step_fields(fields, j, es0, es1, r, k, v);
}

proof fn lemma_object_step_entries(
    fields: Seq<ast::ObjectField>,
    j: int,
    es0: Seq<(String, gp::Value)>,
    es1: Seq<(String, gp::Value)>,
    r: (usize, bool),
    k: String,
    v: gp::Value,
)
    requires
        0 <= j < fields.len(),
        k@ == fields[j].name.value@,
        value_to_gp_rel(fields[j].value, v),
        entries_from_fields(fields, j, es0),
        keys_sorted(es0),
        r.1 ==> r.0 < es0.len() && es0[r.0 as int].0@ == k@ && es1 == es0.update(r.0 as int, (k, v)),
        !r.1 ==> r.0 <= es0.len() && (forall|m: int| 0 <= m < es0.len() ==> (#[trigger] es0[m]).0@ != k@)
            && es1 == es0.insert(r.0 as int, (k, v)),
    ensures
        entries_from_fields(fields, j + 1, es1),
{
    reveal(entries_from_fields);
    let p = r.0 as int;
    assert forall|m: int| 0 <= m < es1.len() implies {
        let jj = last_index_with_name(fields.take(j + 1), (#[trigger] es1[m]).0@);
        0 <= jj < j + 1 && value_to_gp_rel(fields[jj].value, es1[m].1)
    } by {
        lemma_last_index_step(fields, j, es1[m].0@);
        if m != p {
            let mo = if !r.1 && m > p {
                m - 1
            } else {
                m
            };
            assert(es1[m] == es0[mo]);
            if r.1 {
                lemma_keys_distinct(es0, mo, p);
            } else {
                assert(es0[mo].0@ != k@);
            }
        }
    }
}

proof fn lemma_object_step_fields(
    fields: Seq<ast::ObjectField>,
    j: int,
    es0: Seq<(String, gp::Value)>,
    es1: Seq<(String, gp::Value)>,
    r: (usize, bool),
    k: String,
    v: gp::Value,
)
    requires
        0 <= j < fields.len(),
        k@ == fields[j].name.value@,
        fields_have_entries(fields, j, es0),
        r.1 ==> r.0 < es0.len() && es0[r.0 as int].0@ == k@ && es1 == es0.update(r.0 as int, (k, v)),
        !r.1 ==> r.0 <= es0.len() && es1 == es0.insert(r.0 as int, (k, v)),
    ensures
        fields_have_entries(fields, j + 1, es1),
{
    reveal(fields_have_entries);
    let p = r.0 as int;
    assert forall|jj: int| 0 <= jj < j + 1 implies exists|m: int|
        0 <= m < es1.len() && (#[trigger] es1[m]).0@ == (#[trigger] fields[jj]).name.value@ by {
        if jj == j {
            assert(es1[p].0@ == fields[jj].name.value@);
        } else {
            assert(exists|mo: int|
                0 <= mo < es0.len() && (#[trigger] es0[mo]).0@ == (#[trigger] fields[jj]).name.value@);
            let mo = choose|mo: int|
                0 <= mo < es0.len() && (#[trigger] es0[mo]).0@ == (#[trigger] fields[jj]).name.value@;
            if r.1 {
                if mo == p {
                    assert(es1[p].0@ == fields[jj].name.value@);
                } else {
                    assert(es1[mo] == es0[mo]);
                    assert(es1[mo].0@ == fields[jj].name.value@);
                }
            } else if mo < p {
                assert(es1[mo] == es0[mo]);
                assert(es1[mo].0@ == fields[jj].name.value@);
            } else {
                assert(es1[mo + 1] == es0[mo]);
                assert(es1[mo + 1].0@ == fields[jj].name.value@);
            }
        }
    }
}

/// Converts a value to its `graphql_parser` form: scalars carry over, list
/// items are converted in order, and an object becomes a map keyed by field
/// name in which a later field replaces an earlier one with the same name.
pub fn value_to_gp(val: &ast::Value) -> (g: gp::Value)
    ensures
        value_to_gp_rel(*val, g),
    decreases val,
{
    match val {
        ast::Value::Boolean(b) => gp::Value::Boolean(b.value),
        ast::Value::Enum(e) => gp::Value::Enum(e.value.clone()),
        ast::Value::Float(f) => gp::Value::Float(f.value.clone()),
        ast::Value::Int(i) => gp::Value::Int(i.value as i64),
        ast::Value::List(l) => {
            let mut out: Vec<gp::Value> = Vec::new();
            let mut i: usize = 0;
            while i < l.values.len()
                invariant
                    *val == ast::Value::List(*l),
                    i <= l.values.len(),
                    out.len() == i,
                    forall|k: int| 0 <= k < i ==> value_to_gp_rel(#[trigger] l.values@[k], out@[k]),
                decreases l.values.len() - i,
            {
                proof {
                    assert(decreases_to!(*val => (*val)->List_0));
                    assert(decreases_to!((*val)->List_0 => (*val)->List_0.values));
                    assert(decreases_to!((*val)->List_0.values => (*val)->List_0.values@));
                    assert(decreases_to!((*val)->List_0.values@ => (*val)->List_0.values@[i as int]));
                }
                let g = value_to_gp(&l.values[i]);
                out.push(g);
                i = i + 1;
            }
            assert(value_to_gp_rel(*val, gp::Value::List(out)));
            gp::Value::List(out)
        },
        ast::Value::Null(_) => gp::Value::Null,
        ast::Value::Object(o) => {
            let mut es: Vec<(String, gp::Value)> = Vec::new();
            let mut j: usize = 0;
            proof {
                reveal(entries_from_fields);
                reveal(fields_have_entries);
            }
            assert(object_prefix_rel(o.fields@, 0, es@));
            while j < o.fields.len()
                invariant
                    *val == ast::Value::Object(*o),
                    j <= o.fields.len(),
                    keys_sorted(es@),
                    object_prefix_rel(o.fields@, j as int, es@),
                decreases o.fields.len() - j,
            {
                proof {
                    assert(decreases_to!(*val => (*val)->Object_0));
                    assert(decreases_to!((*val)->Object_0 => (*val)->Object_0.fields));
                    assert(decreases_to!((*val)->Object_0.fields => (*val)->Object_0.fields@));
                    assert(decreases_to!((*val)->Object_0.fields@ => (*val)->Object_0.fields@[j as int]));
                    assert(decreases_to!((*val)->Object_0.fields@[j as int] => (*val)->Object_0.fields@[j as int].value));
                }
                let g = value_to_gp(&o.fields[j].value);
                let k = o.fields[j].name.value.clone();
                let ghost es0 = es@;
                let r = insert_entry(&mut es, k, g);
                proof {
                    lemma_object_step(o.fields@, j as int, es0, es@, r, k, g);
                }
                j = j + 1;
            }
            proof {
                lemma_object_rel(*o, es);
            }
            gp::Value::Object(es)
        },
        ast::Value::String(s) => gp::Value::String(s.value.clone()),
        ast::Value::Variable(v) => gp::Value::Variable(v.name.value.clone()),
    }
}

// ── Type annotations ────────────────────────────────────────────────

/// `g` is the `graphql_parser` form of `ta`: a non-null annotation becomes
/// a `NonNullType` wrapping the nullable form.
pub open spec fn type_to_gp_rel(ta: ast::TypeAnnotation, g: gp::Type) -> bool
    decreases ta,
{
    match ta {
        ast::TypeAnnotation::Named(n) => match n.nullability {
            ast::Nullability::Nullable => g matches gp::Type::NamedType(s) && s@ == n.name.value@,
            ast::Nullability::NonNull { .. } => match g {
                gp::Type::NonNullType(b) => match *b {
                    gp::Type::NamedType(s) => s@ == n.name.value@,
                    _ => false,
                },
                _ => false,
            },
        },
        ast::TypeAnnotation::List(l) => match l.nullability {
            ast::Nullability::Nullable => match g {
                gp::Type::ListType(b) => type_to_gp_rel(*l.element_type, *b),
                _ => false,
            },
            ast::Nullability::NonNull { .. } => match g {
                gp::Type::NonNullType(b) => match *b {
                    gp::Type::ListType(c) => type_to_gp_rel(*l.element_type, *c),
                    _ => false,
                },
                _ => false,
            },
        },
    }
}

/// Converts a type annotation to its `graphql_parser` form.
pub fn type_annotation_to_gp(ta: &ast::TypeAnnotation) -> (g: gp::Type)
    ensures
        type_to_gp_rel(*ta, g),
    decreases ta,
{
    match ta {
        ast::TypeAnnotation::Named(n) => {
            let inner = gp::Type::NamedType(n.name.value.clone());
            match &n.nullability {
                ast::Nullability::NonNull { .. } => gp::Type::NonNullType(Box::new(inner)),
                ast::Nullability::Nullable => inner,
            }
        },
        ast::TypeAnnotation::List(l) => {
            let inner = gp::Type::ListType(Box::new(type_annotation_to_gp(&l.element_type)));
            match &l.nullability {
                ast::Nullability::NonNull { .. } => gp::Type::NonNullType(Box::new(inner)),
                ast::Nullability::Nullable => inner,
            }
        },
    }
}

// ── Directives, descriptions and names ──────────────────────────────

/// `gs` are the `graphql_parser` arguments of `args`, in order.
pub open spec fn args_to_gp_rel(args: Seq<ast::Argument>, gs: Seq<(String, gp::Value)>) -> bool {
    &&& gs.len() == args.len()
    &&& forall|i: int|
        0 <= i < args.len() ==> (#[trigger] gs[i]).0@ == args[i].name.value@ && value_to_gp_rel(
            args[i].value,
            gs[i].1,
        )
}

/// `g` is the `graphql_parser` form of the directive `d`.
pub open spec fn directive_to_gp_rel(d: ast::DirectiveAnnotation, g: gp::Directive) -> bool {
    &&& pos_of(g.position, d.span)
    &&& g.name@ == d.name.value@
    &&& args_to_gp_rel(d.arguments@, g.arguments@)
}

/// `gs` are the `graphql_parser` forms of the directives `ds`, in order.
pub open spec fn directives_to_gp_rel(ds: Seq<ast::DirectiveAnnotation>, gs: Seq<gp::Directive>) -> bool {
    &&& gs.len() == ds.len()
    &&& forall|i: int| 0 <= i < ds.len() ==> directive_to_gp_rel(ds[i], #[trigger] gs[i])
}

/// `g` holds the text of the description `d`, if any.
pub open spec fn description_to_gp_rel(d: Option<ast::StringValue>, g: Option<String>) -> bool {
    match d {
        None => g is None,
        Some(s) => g is Some && g->0@ == s.value@,
    }
}

/// `gs` are the texts of the names `ns`, in order.
pub open spec fn names_to_gp_rel(ns: Seq<ast::Name>, gs: Seq<String>) -> bool {
    &&& gs.len() == ns.len()
    &&& forall|i: int| 0 <= i < ns.len() ==> (#[trigger] gs[i])@ == ns[i].value@
}

/// Converts the arguments of a directive or field to `(name, value)` pairs.
pub fn arguments_to_gp(args: &Vec<ast::Argument>) -> (gs: Vec<(String, gp::Value)>)
    ensures
        args_to_gp_rel(args@, gs@),
{
    let mut gs: Vec<(String, gp::Value)> = Vec::new();
    let mut i: usize = 0;
    while i < args.len()
        invariant
            i <= args.len(),
            gs.len() == i,
            forall|k: int|
                0 <= k < i ==> (#[trigger] gs@[k]).0@ == args@[k].name.value@ && value_to_gp_rel(
                    args@[k].value,
                    gs@[k].1,
                ),
        decreases args.len() - i,
    {
        let v = value_to_gp(&args[i].value);
        gs.push((args[i].name.value.clone(), v));
        i = i + 1;
    }
    gs
}

/// Converts a directive annotation to a `graphql_parser` directive.
pub fn directive_to_gp(dir: &ast::DirectiveAnnotation) -> (g: gp::Directive)
    ensures
        directive_to_gp_rel(*dir, g),
{
    gp::Directive {
        position: pos_from_span(&dir.span),
        name: dir.name.value.clone(),
        arguments: arguments_to_gp(&dir.arguments),
    }
}

/// Converts directive annotations to `graphql_parser` directives, in order.
pub fn directives_to_gp(dirs: &Vec<ast::DirectiveAnnotation>) -> (gs: Vec<gp::Directive>)
    ensures
        directives_to_gp_rel(dirs@, gs@),
{
    let mut gs: Vec<gp::Directive> = Vec::new();
    let mut i: usize = 0;
    while i < dirs.len()
        invariant
            i <= dirs.len(),
            gs.len() == i,
            forall|k: int| 0 <= k < i ==> directive_to_gp_rel(dirs@[k], #[trigger] gs@[k]),
        decreases dirs.len() - i,
    {
        gs.push(directive_to_gp(&dirs[i]));
        i = i + 1;
    }
    gs
}

/// The text of a description, if any.
pub fn description_to_gp(desc: &Option<ast::StringValue>) -> (g: Option<String>)
    ensures
        description_to_gp_rel(*desc, g),
{
    match desc {
        Some(s) => Some(s.value.clone()),
        None => None,
    }
}

/// The texts of names, in order.
pub fn names_to_gp(names: &Vec<ast::Name>) -> (gs: Vec<String>)
    ensures
        names_to_gp_rel(names@, gs@),
{
    let mut gs: Vec<String> = Vec::new();
    let mut i: usize = 0;
    while i < names.len()
        invariant
            i <= names.len(),
            gs.len() == i,
            forall|k: int| 0 <= k < i ==> (#[trigger] gs@[k])@ == names@[k].value@,
        decreases names.len() - i,
    {
        gs.push(names[i].value.clone());
        i = i + 1;
    }
    gs
}

// ── Input values, fields and enum values ────────────────────────────

/// `g` is the `graphql_parser` form of the default value `d`, if any.
pub open spec fn default_to_gp_rel(d: Option<ast::Value>, g: Option<gp::Value>) -> bool {
    match d {
        None => g is None,
        Some(a) => g is Some && value_to_gp_rel(a, g->0),
    }
}

/// `g` is the `graphql_parser` form of the input value definition `ivd`.
pub open spec fn input_value_def_to_gp_rel(ivd: ast::InputValueDefinition, g: gp::InputValue) -> bool {
    &&& pos_of(g.position, ivd.span)
    &&& description_to_gp_rel(ivd.description, g.description)
    &&& g.name@ == ivd.name.value@
    &&& type_to_gp_rel(ivd.value_type, g.value_type)
    &&& default_to_gp_rel(ivd.default_value, g.default_value)
    &&& directives_to_gp_rel(ivd.directives@, g.directives@)
}

/// `gs` are the `graphql_parser` forms of the input value definitions `ivds`.
pub open spec fn input_value_defs_to_gp_rel(ivds: Seq<ast::InputValueDefinition>, gs: Seq<gp::InputValue>) -> bool {
    &&& gs.len() == ivds.len()
    &&& forall|i: int| 0 <= i < ivds.len() ==> input_value_def_to_gp_rel(ivds[i], #[trigger] gs[i])
}

/// `g` is the `graphql_parser` form of the field definition `fd`.
pub open spec fn field_def_to_gp_rel(fd: ast::FieldDefinition, g: gp::Field) -> bool {
    &&& pos_of(g.position, fd.span)
    &&& description_to_gp_rel(fd.description, g.description)
    &&& g.name@ == fd.name.value@
    &&& input_value_defs_to_gp_rel(fd.arguments@, g.arguments@)
    &&& type_to_gp_rel(fd.field_type, g.field_type)
    &&& directives_to_gp_rel(fd.directives@, g.directives@)
}

/// `gs` are the `graphql_parser` forms of the field definitions `fds`.
pub open spec fn field_defs_to_gp_rel(fds: Seq<ast::FieldDefinition>, gs: Seq<gp::Field>) -> bool {
    &&& gs.len() == fds.len()
    &&& forall|i: int| 0 <= i < fds.len() ==> field_def_to_gp_rel(fds[i], #[trigger] gs[i])
}

/// `g` is the `graphql_parser` form of the enum value definition `evd`.
pub open spec fn enum_value_def_to_gp_rel(evd: ast::EnumValueDefinition, g: gp::EnumValue) -> bool {
    &&& pos_of(g.position, evd.span)
    &&& description_to_gp_rel(evd.description, g.description)
    &&& g.name@ == evd.name.value@
    &&& directives_to_gp_rel(evd.directives@, g.directives@)
}

/// `gs` are the `graphql_parser` forms of the enum value definitions `evds`.
pub open spec fn enum_value_defs_to_gp_rel(evds: Seq<ast::EnumValueDefinition>, gs: Seq<gp::EnumValue>) -> bool {
    &&& gs.len() == evds.len()
    &&& forall|i: int| 0 <= i < evds.len() ==> enum_value_def_to_gp_rel(evds[i], #[trigger] gs[i])
}

/// Converts an input value definition to a `graphql_parser` input value.
pub fn input_value_def_to_gp(ivd: &ast::InputValueDefinition) -> (g: gp::InputValue)
    ensures
        input_value_def_to_gp_rel(*ivd, g),
{
    let default_value = match &ivd.default_value {
        Some(v) => Some(value_to_gp(v)),
        None => None,
    };
    gp::InputValue {
        position: pos_from_span(&ivd.span),
        description: description_to_gp(&ivd.description),
        name: ivd.name.value.clone(),
        value_type: type_annotation_to_gp(&ivd.value_type),
        default_value,
        directives: directives_to_gp(&ivd.directives),
    }
}

/// Converts input value definitions, in order.
pub fn input_value_defs_to_gp(ivds: &Vec<ast::InputValueDefinition>) -> (gs: Vec<gp::InputValue>)
    ensures
        input_value_defs_to_gp_rel(ivds@, gs@),
{
    let mut gs: Vec<gp::InputValue> = Vec::new();
    let mut i: usize = 0;
    while i < ivds.len()
        invariant
            i <= ivds.len(),
            gs.len() == i,
            forall|k: int| 0 <= k < i ==> input_value_def_to_gp_rel(ivds@[k], #[trigger] gs@[k]),
        decreases ivds.len() - i,
    {
        gs.push(input_value_def_to_gp(&ivds[i]));
        i = i + 1;
    }
    gs
}

/// Converts a field definition to a `graphql_parser` field.
pub fn field_def_to_gp(fd: &ast::FieldDefinition) -> (g: gp::Field)
    ensures
        field_def_to_gp_rel(*fd, g),
{
    gp::Field {
        position: pos_from_span(&fd.span),
        description: description_to_gp(&fd.description),
        name: fd.name.value.clone(),
        arguments: input_value_defs_to_gp(&fd.arguments),
        field_type: type_annotation_to_gp(&fd.field_type),
        directives: directives_to_gp(&fd.directives),
    }
}

/// Converts field definitions, in order.
pub fn field_defs_to_gp(fds: &Vec<ast::FieldDefinition>) -> (gs: Vec<gp::Field>)
    ensures
        field_defs_to_gp_rel(fds@, gs@),
{
    let mut gs: Vec<gp::Field> = Vec::new();
    let mut i: usize = 0;
    while i < fds.len()
        invariant
            i <= fds.len(),
            gs.len() == i,
            forall|k: int| 0 <= k < i ==> field_def_to_gp_rel(fds@[k], #[trigger] gs@[k]),
        decreases fds.len() - i,
    {
        gs.push(field_def_to_gp(&fds[i]));
        i = i + 1;
    }
    gs
}

/// Converts an enum value definition to a `graphql_parser` enum value.
pub fn enum_value_def_to_gp(evd: &ast::EnumValueDefinition) -> (g: gp::EnumValue)
    ensures
        enum_value_def_to_gp_rel(*evd, g),
{
    gp::EnumValue {
        position: pos_from_span(&evd.span),
        description: description_to_gp(&evd.description),
        name: evd.name.value.clone(),
        directives: directives_to_gp(&evd.directives),
    }
}

/// Converts enum value definitions, in order.
pub fn enum_value_defs_to_gp(evds: &Vec<ast::EnumValueDefinition>) -> (gs: Vec<gp::EnumValue>)
    ensures
        enum_value_defs_to_gp_rel(evds@, gs@),
{
    let mut gs: Vec<gp::EnumValue> = Vec::new();
    let mut i: usize = 0;
    while i < evds.len()
        invariant
            i <= evds.len(),
            gs.len() == i,
            forall|k: int| 0 <= k < i ==> enum_value_def_to_gp_rel(evds@[k], #[trigger] gs@[k]),
        decreases evds.len() - i,
    {
        gs.push(enum_value_def_to_gp(&evds[i]));
        i = i + 1;
    }
    gs
}

// ── Directive locations ─────────────────────────────────────────────

/// The `graphql_parser` directive location of a location kind.
pub open spec fn location_to_gp(kind: ast::DirectiveLocationKind) -> gp::DirectiveLocation {
    match kind {
        ast::DirectiveLocationKind::ArgumentDefinition => gp::DirectiveLocation::ArgumentDefinition,
        ast::DirectiveLocationKind::Enum => gp::DirectiveLocation::Enum,
        ast::DirectiveLocationKind::EnumValue => gp::DirectiveLocation::EnumValue,
        ast::DirectiveLocationKind::Field => gp::DirectiveLocation::Field,
        ast::DirectiveLocationKind::FieldDefinition => gp::DirectiveLocation::FieldDefinition,
        ast::DirectiveLocationKind::FragmentDefinition => gp::DirectiveLocation::FragmentDefinition,
        ast::DirectiveLocationKind::FragmentSpread => gp::DirectiveLocation::FragmentSpread,
        ast::DirectiveLocationKind::InlineFragment => gp::DirectiveLocation::InlineFragment,
        ast::DirectiveLocationKind::InputFieldDefinition => gp::DirectiveLocation::InputFieldDefinition,
        ast::DirectiveLocationKind::InputObject => gp::DirectiveLocation::InputObject,
        ast::DirectiveLocationKind::Interface => gp::DirectiveLocation::Interface,
        ast::DirectiveLocationKind::Mutation => gp::DirectiveLocation::Mutation,
        ast::DirectiveLocationKind::Object => gp::DirectiveLocation::Object,
        ast::DirectiveLocationKind::Query => gp::DirectiveLocation::Query,
        ast::DirectiveLocationKind::Scalar => gp::DirectiveLocation::Scalar,
        ast::DirectiveLocationKind::Schema => gp::DirectiveLocation::Schema,
        ast::DirectiveLocationKind::Subscription => gp::DirectiveLocation::Subscription,
        ast::DirectiveLocationKind::Union => gp::DirectiveLocation::Union,
        ast::DirectiveLocationKind::VariableDefinition => gp::DirectiveLocation::VariableDefinition,
    }
}

/// Converts a directive location kind to a `graphql_parser` directive location.
pub fn directive_location_to_gp(kind: &ast::DirectiveLocationKind) -> (g: gp::DirectiveLocation)
    ensures
        g == location_to_gp(*kind),
{
    match kind {
        ast::DirectiveLocationKind::ArgumentDefinition => gp::DirectiveLocation::ArgumentDefinition,
        ast::DirectiveLocationKind::Enum => gp::DirectiveLocation::Enum,
        ast::DirectiveLocationKind::EnumValue => gp::DirectiveLocation::EnumValue,
        ast::DirectiveLocationKind::Field => gp::DirectiveLocation::Field,
        ast::DirectiveLocationKind::FieldDefinition => gp::DirectiveLocation::FieldDefinition,
        ast::DirectiveLocationKind::FragmentDefinition => gp::DirectiveLocation::FragmentDefinition,
        ast::DirectiveLocationKind::FragmentSpread => gp::DirectiveLocation::FragmentSpread,
        ast::DirectiveLocationKind::InlineFragment => gp::DirectiveLocation::InlineFragment,
        ast::DirectiveLocationKind::InputFieldDefinition => gp::DirectiveLocation::InputFieldDefinition,
        ast::DirectiveLocationKind::InputObject => gp::DirectiveLocation::InputObject,
        ast::DirectiveLocationKind::Interface => gp::DirectiveLocation::Interface,
        ast::DirectiveLocationKind::Mutation => gp::DirectiveLocation::Mutation,
        ast::DirectiveLocationKind::Object => gp::DirectiveLocation::Object,
        ast::DirectiveLocationKind::Query => gp::DirectiveLocation::Query,
        ast::DirectiveLocationKind::Scalar => gp::DirectiveLocation::Scalar,
        ast::DirectiveLocationKind::Schema => gp::DirectiveLocation::Schema,
        ast::DirectiveLocationKind::Subscription => gp::DirectiveLocation::Subscription,
        ast::DirectiveLocationKind::Union => gp::DirectiveLocation::Union,
        ast::DirectiveLocationKind::VariableDefinition => gp::DirectiveLocation::VariableDefinition,
    }
}

/// Converting a directive location keeps its name: the `graphql_parser`
/// location is the one whose name is the GraphQL name of the location
/// converted.
pub proof fn law_location_to_gp_keeps_name(k: ast::DirectiveLocationKind)
    ensures
        gp::gp_location_name(location_to_gp(k)) == directive_location_name(k),
{
}

} // verus!
