//! Parsing of directive definitions and directive locations, with
//! suggestions for misspelled locations.

use crate::ast;
use crate::graphql_parse_error::GraphQLParseError;
use crate::graphql_parse_error_kind::GraphQLParseErrorKind;
use crate::graphql_parser::advanced;
use crate::graphql_parser::is_keyword;
use crate::graphql_parser::is_name_token;
use crate::graphql_parser::name_of;
use crate::graphql_parser::name_text;
use crate::graphql_parser::progressed;
use crate::graphql_parser::type_system::input_value_defs_are_const;
use crate::graphql_parser::type_system::arg_defs_written;
use crate::graphql_parser::values::tokens_span;
use crate::graphql_parser::consumed;
use crate::graphql_parser::spanned;
use crate::token::GraphQLToken;
use crate::graphql_parser::GraphQLParser;
use crate::text::str_eq;
use crate::token::GraphQLTokenKind;
use vstd::prelude::*;
use vstd::string::StrSliceExecFns;
use vstd::string::StringExecFns;
use vstd::utf8::is_ascii_chars;

verus! {

/// The directive location that the name `s` denotes, if any.
pub open spec fn directive_location_kind(s: Seq<char>) -> Option<ast::DirectiveLocationKind> {
    if s == "QUERY"@ {
        Some(ast::DirectiveLocationKind::Query)
    } else if s == "MUTATION"@ {
        Some(ast::DirectiveLocationKind::Mutation)
    } else if s == "SUBSCRIPTION"@ {
        Some(ast::DirectiveLocationKind::Subscription)
    } else if s == "FIELD"@ {
        Some(ast::DirectiveLocationKind::Field)
    } else if s == "FRAGMENT_DEFINITION"@ {
        Some(ast::DirectiveLocationKind::FragmentDefinition)
    } else if s == "FRAGMENT_SPREAD"@ {
        Some(ast::DirectiveLocationKind::FragmentSpread)
    } else if s == "INLINE_FRAGMENT"@ {
        Some(ast::DirectiveLocationKind::InlineFragment)
    } else if s == "VARIABLE_DEFINITION"@ {
        Some(ast::DirectiveLocationKind::VariableDefinition)
    } else if s == "SCHEMA"@ {
        Some(ast::DirectiveLocationKind::Schema)
    } else if s == "SCALAR"@ {
        Some(ast::DirectiveLocationKind::Scalar)
    } else if s == "OBJECT"@ {
        Some(ast::DirectiveLocationKind::Object)
    } else if s == "FIELD_DEFINITION"@ {
        Some(ast::DirectiveLocationKind::FieldDefinition)
    } else if s == "ARGUMENT_DEFINITION"@ {
        Some(ast::DirectiveLocationKind::ArgumentDefinition)
    } else if s == "INTERFACE"@ {
        Some(ast::DirectiveLocationKind::Interface)
    } else if s == "UNION"@ {
        Some(ast::DirectiveLocationKind::Union)
    } else if s == "ENUM"@ {
        Some(ast::DirectiveLocationKind::Enum)
    } else if s == "ENUM_VALUE"@ {
        Some(ast::DirectiveLocationKind::EnumValue)
    } else if s == "INPUT_OBJECT"@ {
        Some(ast::DirectiveLocationKind::InputObject)
    } else if s == "INPUT_FIELD_DEFINITION"@ {
        Some(ast::DirectiveLocationKind::InputFieldDefinition)
    } else {
        None
    }
}

/// The name the GraphQL specification gives each directive location
/// (`ArgumentDefinition` is `ARGUMENT_DEFINITION`, and so on).
pub open spec fn directive_location_name(k: ast::DirectiveLocationKind) -> Seq<char> {
    match k {
        ast::DirectiveLocationKind::Query => "QUERY"@,
        ast::DirectiveLocationKind::Mutation => "MUTATION"@,
        ast::DirectiveLocationKind::Subscription => "SUBSCRIPTION"@,
        ast::DirectiveLocationKind::Field => "FIELD"@,
        ast::DirectiveLocationKind::FragmentDefinition => "FRAGMENT_DEFINITION"@,
        ast::DirectiveLocationKind::FragmentSpread => "FRAGMENT_SPREAD"@,
        ast::DirectiveLocationKind::InlineFragment => "INLINE_FRAGMENT"@,
        ast::DirectiveLocationKind::VariableDefinition => "VARIABLE_DEFINITION"@,
        ast::DirectiveLocationKind::Schema => "SCHEMA"@,
        ast::DirectiveLocationKind::Scalar => "SCALAR"@,
        ast::DirectiveLocationKind::Object => "OBJECT"@,
        ast::DirectiveLocationKind::FieldDefinition => "FIELD_DEFINITION"@,
        ast::DirectiveLocationKind::ArgumentDefinition => "ARGUMENT_DEFINITION"@,
        ast::DirectiveLocationKind::Interface => "INTERFACE"@,
        ast::DirectiveLocationKind::Union => "UNION"@,
        ast::DirectiveLocationKind::Enum => "ENUM"@,
        ast::DirectiveLocationKind::EnumValue => "ENUM_VALUE"@,
        ast::DirectiveLocationKind::InputObject => "INPUT_OBJECT"@,
        ast::DirectiveLocationKind::InputFieldDefinition => "INPUT_FIELD_DEFINITION"@,
    }
}

/// Reading a directive location name gives the location of that name, and
/// nothing else: whatever location `directive_location_kind` finds for a
/// name `s`, the specification's name of that location is `s`. So distinct
/// names give distinct locations.
pub proof fn law_directive_location_of_name(s: Seq<char>)
    ensures
        directive_location_kind(s) matches Some(k) ==> directive_location_name(k) == s,
{
}

/// Every directive location is read from its own name.
pub proof fn law_directive_location_names_read(k: ast::DirectiveLocationKind)
    ensures
        directive_location_kind(directive_location_name(k)) == Some(k),
{
    reveal_strlit("QUERY");
    reveal_strlit("MUTATION");
    reveal_strlit("SUBSCRIPTION");
    reveal_strlit("FIELD");
    reveal_strlit("FRAGMENT_DEFINITION");
    reveal_strlit("FRAGMENT_SPREAD");
    reveal_strlit("INLINE_FRAGMENT");
    reveal_strlit("VARIABLE_DEFINITION");
    reveal_strlit("SCHEMA");
    reveal_strlit("SCALAR");
    reveal_strlit("OBJECT");
    reveal_strlit("FIELD_DEFINITION");
    reveal_strlit("ARGUMENT_DEFINITION");
    reveal_strlit("INTERFACE");
    reveal_strlit("UNION");
    reveal_strlit("ENUM");
    reveal_strlit("ENUM_VALUE");
    reveal_strlit("INPUT_OBJECT");
    reveal_strlit("INPUT_FIELD_DEFINITION");
    match k {
        ast::DirectiveLocationKind::Query => {

        },
        ast::DirectiveLocationKind::Mutation => {
            assert("MUTATION"@.len() != "QUERY"@.len());
        },
        ast::DirectiveLocationKind::Subscription => {
            assert("SUBSCRIPTION"@.len() != "QUERY"@.len());
            assert("SUBSCRIPTION"@.len() != "MUTATION"@.len());
        },
        ast::DirectiveLocationKind::Field => {
            assert("FIELD"@[0] != "QUERY"@[0]);
            assert("FIELD"@.len() != "MUTATION"@.len());
            assert("FIELD"@.len() != "SUBSCRIPTION"@.len());
        },
        ast::DirectiveLocationKind::FragmentDefinition => {
            assert("FRAGMENT_DEFINITION"@.len() != "QUERY"@.len());
            assert("FRAGMENT_DEFINITION"@.len() != "MUTATION"@.len());
            assert("FRAGMENT_DEFINITION"@.len() != "SUBSCRIPTION"@.len());
            assert("FRAGMENT_DEFINITION"@.len() != "FIELD"@.len());
        },
        ast::DirectiveLocationKind::FragmentSpread => {
            assert("FRAGMENT_SPREAD"@.len() != "QUERY"@.len());
            assert("FRAGMENT_SPREAD"@.len() != "MUTATION"@.len());
            assert("FRAGMENT_SPREAD"@.len() != "SUBSCRIPTION"@.len());
            assert("FRAGMENT_SPREAD"@.len() != "FIELD"@.len());
            assert("FRAGMENT_SPREAD"@.len() != "FRAGMENT_DEFINITION"@.len());
        },
        ast::DirectiveLocationKind::InlineFragment => {
            assert("INLINE_FRAGMENT"@.len() != "QUERY"@.len());
            assert("INLINE_FRAGMENT"@.len() != "MUTATION"@.len());
            assert("INLINE_FRAGMENT"@.len() != "SUBSCRIPTION"@.len());
            assert("INLINE_FRAGMENT"@.len() != "FIELD"@.len());
            assert("INLINE_FRAGMENT"@.len() != "FRAGMENT_DEFINITION"@.len());
            assert("INLINE_FRAGMENT"@[0] != "FRAGMENT_SPREAD"@[0]);
        },
        ast::DirectiveLocationKind::VariableDefinition => {
            assert("VARIABLE_DEFINITION"@.len() != "QUERY"@.len());
            assert("VARIABLE_DEFINITION"@.len() != "MUTATION"@.len());
            assert("VARIABLE_DEFINITION"@.len() != "SUBSCRIPTION"@.len());
            assert("VARIABLE_DEFINITION"@.len() != "FIELD"@.len());
            assert("VARIABLE_DEFINITION"@[0] != "FRAGMENT_DEFINITION"@[0]);
            assert("VARIABLE_DEFINITION"@.len() != "FRAGMENT_SPREAD"@.len());
            assert("VARIABLE_DEFINITION"@.len() != "INLINE_FRAGMENT"@.len());
        },
        ast::DirectiveLocationKind::Schema => {
            assert("SCHEMA"@.len() != "QUERY"@.len());
            assert("SCHEMA"@.len() != "MUTATION"@.len());
            assert("SCHEMA"@.len() != "SUBSCRIPTION"@.len());
            assert("SCHEMA"@.len() != "FIELD"@.len());
            assert("SCHEMA"@.len() != "FRAGMENT_DEFINITION"@.len());
            assert("SCHEMA"@.len() != "FRAGMENT_SPREAD"@.len());
            assert("SCHEMA"@.len() != "INLINE_FRAGMENT"@.len());
            assert("SCHEMA"@.len() != "VARIABLE_DEFINITION"@.len());
        },
        ast::DirectiveLocationKind::Scalar => {
            assert("SCALAR"@.len() != "QUERY"@.len());
            assert("SCALAR"@.len() != "MUTATION"@.len());
            assert("SCALAR"@.len() != "SUBSCRIPTION"@.len());
            assert("SCALAR"@.len() != "FIELD"@.len());
            assert("SCALAR"@.len() != "FRAGMENT_DEFINITION"@.len());
            assert("SCALAR"@.len() != "FRAGMENT_SPREAD"@.len());
            assert("SCALAR"@.len() != "INLINE_FRAGMENT"@.len());
            assert("SCALAR"@.len() != "VARIABLE_DEFINITION"@.len());
            assert("SCALAR"@[2] != "SCHEMA"@[2]);
        },
        ast::DirectiveLocationKind::Object => {
            assert("OBJECT"@.len() != "QUERY"@.len());
            assert("OBJECT"@.len() != "MUTATION"@.len());
            assert("OBJECT"@.len() != "SUBSCRIPTION"@.len());
            assert("OBJECT"@.len() != "FIELD"@.len());
            assert("OBJECT"@.len() != "FRAGMENT_DEFINITION"@.len());
            assert("OBJECT"@.len() != "FRAGMENT_SPREAD"@.len());
            assert("OBJECT"@.len() != "INLINE_FRAGMENT"@.len());
            assert("OBJECT"@.len() != "VARIABLE_DEFINITION"@.len());
            assert("OBJECT"@[0] != "SCHEMA"@[0]);
            assert("OBJECT"@[0] != "SCALAR"@[0]);
        },
        ast::DirectiveLocationKind::FieldDefinition => {
            assert("FIELD_DEFINITION"@.len() != "QUERY"@.len());
            assert("FIELD_DEFINITION"@.len() != "MUTATION"@.len());
            assert("FIELD_DEFINITION"@.len() != "SUBSCRIPTION"@.len());
            assert("FIELD_DEFINITION"@.len() != "FIELD"@.len());
            assert("FIELD_DEFINITION"@.len() != "FRAGMENT_DEFINITION"@.len());
            assert("FIELD_DEFINITION"@.len() != "FRAGMENT_SPREAD"@.len());
            assert("FIELD_DEFINITION"@.len() != "INLINE_FRAGMENT"@.len());
            assert("FIELD_DEFINITION"@.len() != "VARIABLE_DEFINITION"@.len());
            assert("FIELD_DEFINITION"@.len() != "SCHEMA"@.len());
            assert("FIELD_DEFINITION"@.len() != "SCALAR"@.len());
            assert("FIELD_DEFINITION"@.len() != "OBJECT"@.len());
        },
        ast::DirectiveLocationKind::ArgumentDefinition => {
            assert("ARGUMENT_DEFINITION"@.len() != "QUERY"@.len());
            assert("ARGUMENT_DEFINITION"@.len() != "MUTATION"@.len());
            assert("ARGUMENT_DEFINITION"@.len() != "SUBSCRIPTION"@.len());
            assert("ARGUMENT_DEFINITION"@.len() != "FIELD"@.len());
            assert("ARGUMENT_DEFINITION"@[0] != "FRAGMENT_DEFINITION"@[0]);
            assert("ARGUMENT_DEFINITION"@.len() != "FRAGMENT_SPREAD"@.len());
            assert("ARGUMENT_DEFINITION"@.len() != "INLINE_FRAGMENT"@.len());
            assert("ARGUMENT_DEFINITION"@[0] != "VARIABLE_DEFINITION"@[0]);
            assert("ARGUMENT_DEFINITION"@.len() != "SCHEMA"@.len());
            assert("ARGUMENT_DEFINITION"@.len() != "SCALAR"@.len());
            assert("ARGUMENT_DEFINITION"@.len() != "OBJECT"@.len());
            assert("ARGUMENT_DEFINITION"@.len() != "FIELD_DEFINITION"@.len());
        },
        ast::DirectiveLocationKind::Interface => {
            assert("INTERFACE"@.len() != "QUERY"@.len());
            assert("INTERFACE"@.len() != "MUTATION"@.len());
            assert("INTERFACE"@.len() != "SUBSCRIPTION"@.len());
            assert("INTERFACE"@.len() != "FIELD"@.len());
            assert("INTERFACE"@.len() != "FRAGMENT_DEFINITION"@.len());
            assert("INTERFACE"@.len() != "FRAGMENT_SPREAD"@.len());
            assert("INTERFACE"@.len() != "INLINE_FRAGMENT"@.len());
            assert("INTERFACE"@.len() != "VARIABLE_DEFINITION"@.len());
            assert("INTERFACE"@.len() != "SCHEMA"@.len());
            assert("INTERFACE"@.len() != "SCALAR"@.len());
            assert("INTERFACE"@.len() != "OBJECT"@.len());
            assert("INTERFACE"@.len() != "FIELD_DEFINITION"@.len());
            assert("INTERFACE"@.len() != "ARGUMENT_DEFINITION"@.len());
        },
        ast::DirectiveLocationKind::Union => {
            assert("UNION"@[0] != "QUERY"@[0]);
            assert("UNION"@.len() != "MUTATION"@.len());
            assert("UNION"@.len() != "SUBSCRIPTION"@.len());
            assert("UNION"@[0] != "FIELD"@[0]);
            assert("UNION"@.len() != "FRAGMENT_DEFINITION"@.len());
            assert("UNION"@.len() != "FRAGMENT_SPREAD"@.len());
            assert("UNION"@.len() != "INLINE_FRAGMENT"@.len());
            assert("UNION"@.len() != "VARIABLE_DEFINITION"@.len());
            assert("UNION"@.len() != "SCHEMA"@.len());
            assert("UNION"@.len() != "SCALAR"@.len());
            assert("UNION"@.len() != "OBJECT"@.len());
            assert("UNION"@.len() != "FIELD_DEFINITION"@.len());
            assert("UNION"@.len() != "ARGUMENT_DEFINITION"@.len());
            assert("UNION"@.len() != "INTERFACE"@.len());
        },
        ast::DirectiveLocationKind::Enum => {
            assert("ENUM"@.len() != "QUERY"@.len());
            assert("ENUM"@.len() != "MUTATION"@.len());
            assert("ENUM"@.len() != "SUBSCRIPTION"@.len());
            assert("ENUM"@.len() != "FIELD"@.len());
            assert("ENUM"@.len() != "FRAGMENT_DEFINITION"@.len());
            assert("ENUM"@.len() != "FRAGMENT_SPREAD"@.len());
            assert("ENUM"@.len() != "INLINE_FRAGMENT"@.len());
            assert("ENUM"@.len() != "VARIABLE_DEFINITION"@.len());
            assert("ENUM"@.len() != "SCHEMA"@.len());
            assert("ENUM"@.len() != "SCALAR"@.len());
            assert("ENUM"@.len() != "OBJECT"@.len());
            assert("ENUM"@.len() != "FIELD_DEFINITION"@.len());
            assert("ENUM"@.len() != "ARGUMENT_DEFINITION"@.len());
            assert("ENUM"@.len() != "INTERFACE"@.len());
            assert("ENUM"@.len() != "UNION"@.len());
        },
        ast::DirectiveLocationKind::EnumValue => {
            assert("ENUM_VALUE"@.len() != "QUERY"@.len());
            assert("ENUM_VALUE"@.len() != "MUTATION"@.len());
            assert("ENUM_VALUE"@.len() != "SUBSCRIPTION"@.len());
            assert("ENUM_VALUE"@.len() != "FIELD"@.len());
            assert("ENUM_VALUE"@.len() != "FRAGMENT_DEFINITION"@.len());
            assert("ENUM_VALUE"@.len() != "FRAGMENT_SPREAD"@.len());
            assert("ENUM_VALUE"@.len() != "INLINE_FRAGMENT"@.len());
            assert("ENUM_VALUE"@.len() != "VARIABLE_DEFINITION"@.len());
            assert("ENUM_VALUE"@.len() != "SCHEMA"@.len());
            assert("ENUM_VALUE"@.len() != "SCALAR"@.len());
            assert("ENUM_VALUE"@.len() != "OBJECT"@.len());
            assert("ENUM_VALUE"@.len() != "FIELD_DEFINITION"@.len());
            assert("ENUM_VALUE"@.len() != "ARGUMENT_DEFINITION"@.len());
            assert("ENUM_VALUE"@.len() != "INTERFACE"@.len());
            assert("ENUM_VALUE"@.len() != "UNION"@.len());
            assert("ENUM_VALUE"@.len() != "ENUM"@.len());
        },
        ast::DirectiveLocationKind::InputObject => {
            assert("INPUT_OBJECT"@.len() != "QUERY"@.len());
            assert("INPUT_OBJECT"@.len() != "MUTATION"@.len());
            assert("INPUT_OBJECT"@[0] != "SUBSCRIPTION"@[0]);
            assert("INPUT_OBJECT"@.len() != "FIELD"@.len());
            assert("INPUT_OBJECT"@.len() != "FRAGMENT_DEFINITION"@.len());
            assert("INPUT_OBJECT"@.len() != "FRAGMENT_SPREAD"@.len());
            assert("INPUT_OBJECT"@.len() != "INLINE_FRAGMENT"@.len());
            assert("INPUT_OBJECT"@.len() != "VARIABLE_DEFINITION"@.len());
            assert("INPUT_OBJECT"@.len() != "SCHEMA"@.len());
            assert("INPUT_OBJECT"@.len() != "SCALAR"@.len());
            assert("INPUT_OBJECT"@.len() != "OBJECT"@.len());
            assert("INPUT_OBJECT"@.len() != "FIELD_DEFINITION"@.len());
            assert("INPUT_OBJECT"@.len() != "ARGUMENT_DEFINITION"@.len());
            assert("INPUT_OBJECT"@.len() != "INTERFACE"@.len());
            assert("INPUT_OBJECT"@.len() != "UNION"@.len());
            assert("INPUT_OBJECT"@.len() != "ENUM"@.len());
            assert("INPUT_OBJECT"@.len() != "ENUM_VALUE"@.len());
        },
        ast::DirectiveLocationKind::InputFieldDefinition => {
            assert("INPUT_FIELD_DEFINITION"@.len() != "QUERY"@.len());
            assert("INPUT_FIELD_DEFINITION"@.len() != "MUTATION"@.len());
            assert("INPUT_FIELD_DEFINITION"@.len() != "SUBSCRIPTION"@.len());
            assert("INPUT_FIELD_DEFINITION"@.len() != "FIELD"@.len());
            assert("INPUT_FIELD_DEFINITION"@.len() != "FRAGMENT_DEFINITION"@.len());
            assert("INPUT_FIELD_DEFINITION"@.len() != "FRAGMENT_SPREAD"@.len());
            assert("INPUT_FIELD_DEFINITION"@.len() != "INLINE_FRAGMENT"@.len());
            assert("INPUT_FIELD_DEFINITION"@.len() != "VARIABLE_DEFINITION"@.len());
            assert("INPUT_FIELD_DEFINITION"@.len() != "SCHEMA"@.len());
            assert("INPUT_FIELD_DEFINITION"@.len() != "SCALAR"@.len());
            assert("INPUT_FIELD_DEFINITION"@.len() != "OBJECT"@.len());
            assert("INPUT_FIELD_DEFINITION"@.len() != "FIELD_DEFINITION"@.len());
            assert("INPUT_FIELD_DEFINITION"@.len() != "ARGUMENT_DEFINITION"@.len());
            assert("INPUT_FIELD_DEFINITION"@.len() != "INTERFACE"@.len());
            assert("INPUT_FIELD_DEFINITION"@.len() != "UNION"@.len());
            assert("INPUT_FIELD_DEFINITION"@.len() != "ENUM"@.len());
            assert("INPUT_FIELD_DEFINITION"@.len() != "ENUM_VALUE"@.len());
            assert("INPUT_FIELD_DEFINITION"@.len() != "INPUT_OBJECT"@.len());
        },
    }
}

/// The mapping from names to directive locations is injective: two names
/// that give the same location are the same name.
pub proof fn law_directive_location_injective(s1: Seq<char>, s2: Seq<char>)
    requires
        directive_location_kind(s1) is Some,
        directive_location_kind(s1) == directive_location_kind(s2),
    ensures
        s1 == s2,
{
    law_directive_location_of_name(s1);
    law_directive_location_of_name(s2);
}

/// The number of directive location names.
pub open spec fn location_count() -> nat {
    19
}

/// The directive location names, in the order suggestions consider them.
pub open spec fn location_names() -> Seq<Seq<char>> {
    seq![
        "QUERY"@,
        "MUTATION"@,
        "SUBSCRIPTION"@,
        "FIELD"@,
        "FRAGMENT_DEFINITION"@,
        "FRAGMENT_SPREAD"@,
        "INLINE_FRAGMENT"@,
        "VARIABLE_DEFINITION"@,
        "SCHEMA"@,
        "SCALAR"@,
        "OBJECT"@,
        "FIELD_DEFINITION"@,
        "ARGUMENT_DEFINITION"@,
        "INTERFACE"@,
        "UNION"@,
        "ENUM"@,
        "ENUM_VALUE"@,
        "INPUT_OBJECT"@,
        "INPUT_FIELD_DEFINITION"@,
    ]
}

/// The smallest of three numbers.
pub open spec fn min3(x: nat, y: nat, z: nat) -> nat {
    if x <= y && x <= z {
        x
    } else if y <= z {
        y
    } else {
        z
    }
}

/// The Levenshtein distance between `a` and `b`: the fewest single-character
/// insertions, deletions and substitutions that turn one into the other.
pub open spec fn lev(a: Seq<char>, b: Seq<char>) -> nat
    decreases a.len() + b.len(),
{
    if a.len() == 0 {
        b.len()
    } else if b.len() == 0 {
        a.len()
    } else {
        min3(
            lev(a.drop_last(), b) + 1,
            lev(a, b.drop_last()) + 1,
            lev(a.drop_last(), b.drop_last()) + if a.last() == b.last() {
                0nat
            } else {
                1nat
            },
        )
    }
}

/// Among the first `k` location names, the index and distance of the first
/// one nearest to `a`, if one is within distance three.
pub open spec fn best_location(a: Seq<char>, k: nat) -> Option<(nat, nat)>
    decreases k,
{
    if k == 0 {
        None
    } else {
        let prev = best_location(a, (k - 1) as nat);
        let d = lev(a, location_names()[k - 1]);
        match prev {
            Some((i, bd)) => if d < bd {
                Some(((k - 1) as nat, d))
            } else {
                prev
            },
            None => if d <= 3 {
                Some(((k - 1) as nat, d))
            } else {
                None
            },
        }
    }
}

/// The suggested location name for the (uppercased) text `a`: the first
/// nearest one within distance three.
pub open spec fn suggestion(a: Seq<char>) -> Option<Seq<char>> {
    match best_location(a, location_count()) {
        Some((i, _)) => Some(location_names()[i as int]),
        None => None,
    }
}

/// The text `s` with each ASCII lowercase letter made uppercase.
pub open spec fn ascii_upper(s: Seq<char>) -> Seq<char> {
    s.map_values(
        |c: char|
            if 'a' <= c && c <= 'z' {
                ((c as u32) - 32) as char
            } else {
                c
            },
    )
}

/// std's `str::to_uppercase`. On ASCII text, which is all this library
/// asks of it, each lowercase letter becomes uppercase and every other
/// character stays; on other text the result is left unstated.
#[verifier::external_body]
fn to_uppercase(s: &str) -> (r: String)
    ensures
        is_ascii_chars(s@) ==> r@ == ascii_upper(s@),
{
    s.to_uppercase()
}

/// `lev` is at most the sum of the lengths.
proof fn lemma_lev_bound(a: Seq<char>, b: Seq<char>)
    ensures
        lev(a, b) <= a.len() + b.len(),
    decreases a.len() + b.len(),
{
    if a.len() > 0 && b.len() > 0 {
        lemma_lev_bound(a.drop_last(), b);
    }
}

/// `lev` is at least the difference of the lengths.
proof fn lemma_lev_lower(a: Seq<char>, b: Seq<char>)
    ensures
        lev(a, b) >= a.len() - b.len(),
        lev(a, b) >= b.len() - a.len(),
    decreases a.len() + b.len(),
{
    if a.len() > 0 && b.len() > 0 {
        lemma_lev_lower(a.drop_last(), b);
        lemma_lev_lower(a, b.drop_last());
        lemma_lev_lower(a.drop_last(), b.drop_last());
    }
}

/// The characters of `s`.
fn chars_of(s: &str) -> (v: Vec<char>)
    ensures
        v@ == s@,
{
    let n = s.unicode_len();
    let mut v: Vec<char> = Vec::new();
    let mut i: usize = 0;
    while i < n
        invariant
            n == s@.len(),
            i <= n,
            v@ == s@.subrange(0, i as int),
        decreases n - i,
    {
        v.push(s.get_char(i));
        i = i + 1;
        assert(v@ =~= s@.subrange(0, i as int));
    }
    assert(v@ =~= s@);
    v
}

/// The Levenshtein distance between `a` and `b`.
fn edit_distance(a: &Vec<char>, b: &Vec<char>) -> (r: usize)
    requires
        a@.len() + b@.len() < 100000,
    ensures
        r == lev(a@, b@),
{
    let m = a.len();
    let n = b.len();
    if m == 0 {
        return n;
    }
    if n == 0 {
        return m;
    }
    // prev[j] is the distance between the first i - 1 characters of `a`
    // and the first j characters of `b`.
    let mut prev: Vec<usize> = Vec::new();
    let mut j: usize = 0;
    while j <= n
        invariant
            n == b@.len(),
            n < 100000,
            j <= n + 1,
            prev@.len() == j,
            forall|k: int| 0 <= k < j ==> prev@[k] == k,
        decreases n + 1 - j,
    {
        prev.push(j);
        j = j + 1;
    }
    proof {
        assert forall|k: int| 0 <= k <= n implies prev@[k] == lev(a@.subrange(0, 0), b@.subrange(0, k)) by {
        }
    }
    let mut i: usize = 1;
    while i <= m
        invariant
            m == a@.len(),
            n == b@.len(),
            m + n < 100000,
            1 <= i <= m + 1,
            prev@.len() == n + 1,
            forall|k: int| 0 <= k <= n ==> prev@[k] == lev(a@.subrange(0, i - 1), #[trigger] b@.subrange(0, k)),
        decreases m + 1 - i,
    {
        let mut curr: Vec<usize> = Vec::new();
        curr.push(i);
        proof {
            assert(lev(a@.subrange(0, i as int), b@.subrange(0, 0)) == i);
        }
        let mut jj: usize = 1;
        while jj <= n
            invariant
                m == a@.len(),
                n == b@.len(),
                m + n < 100000,
                1 <= i <= m,
                1 <= jj <= n + 1,
                prev@.len() == n + 1,
                curr@.len() == jj,
                forall|k: int| 0 <= k <= n ==> prev@[k] == lev(a@.subrange(0, i - 1), #[trigger] b@.subrange(0, k)),
                forall|k: int| 0 <= k < jj ==> curr@[k] == lev(a@.subrange(0, i as int), #[trigger] b@.subrange(0, k)),
            decreases n + 1 - jj,
        {
            let ghost ai = a@.subrange(0, i as int);
            let ghost bj = b@.subrange(0, jj as int);
            proof {
                assert(ai.drop_last() =~= a@.subrange(0, i - 1));
                assert(bj.drop_last() =~= b@.subrange(0, jj - 1));
                assert(ai.last() == a@[i - 1]);
                assert(bj.last() == b@[jj - 1]);
                lemma_lev_bound(a@.subrange(0, i - 1), b@.subrange(0, jj as int));
                lemma_lev_bound(ai, b@.subrange(0, jj - 1));
                lemma_lev_bound(a@.subrange(0, i - 1), b@.subrange(0, jj - 1));
            }
            let cost: usize = if a[i - 1] == b[jj - 1] {
                0
            } else {
                1
            };
            let del = prev[jj] + 1;
            let ins = curr[jj - 1] + 1;
            let sub = prev[jj - 1] + cost;
            let best = if del <= ins && del <= sub {
                del
            } else if ins <= sub {
                ins
            } else {
                sub
            };
            curr.push(best);
            proof {
                assert(curr@[jj as int] == lev(ai, bj));
            }
            jj = jj + 1;
        }
        prev = curr;
        i = i + 1;
    }
    proof {
        assert(a@.subrange(0, m as int) =~= a@);
        assert(b@.subrange(0, n as int) =~= b@);
    }
    prev[n]
}

/// The location name at index `i` of the suggestion order.
fn location_name(i: usize) -> (r: &'static str)
    requires
        i < location_count(),
    ensures
        r@ == location_names()[i as int],
{
    if i == 0 { "QUERY" }
    else if i == 1 { "MUTATION" }
    else if i == 2 { "SUBSCRIPTION" }
    else if i == 3 { "FIELD" }
    else if i == 4 { "FRAGMENT_DEFINITION" }
    else if i == 5 { "FRAGMENT_SPREAD" }
    else if i == 6 { "INLINE_FRAGMENT" }
    else if i == 7 { "VARIABLE_DEFINITION" }
    else if i == 8 { "SCHEMA" }
    else if i == 9 { "SCALAR" }
    else if i == 10 { "OBJECT" }
    else if i == 11 { "FIELD_DEFINITION" }
    else if i == 12 { "ARGUMENT_DEFINITION" }
    else if i == 13 { "INTERFACE" }
    else if i == 14 { "UNION" }
    else if i == 15 { "ENUM" }
    else if i == 16 { "ENUM_VALUE" }
    else if i == 17 { "INPUT_OBJECT" }
    else { "INPUT_FIELD_DEFINITION" }
}

/// The directive location `l` is written with the name token `t`.
pub open spec fn location_written(l: ast::DirectiveLocation, t: GraphQLToken) -> bool {
    &&& is_name_token(t)
    &&& directive_location_kind(name_text(t.kind)) == Some(l.kind)
    &&& l.span == t.span
}

/// The first locations of a list: `locs` written from the start of `ts`
/// after `lead` leading `|`, separated by `|`.
pub open spec fn locations_prefix_written(locs: Seq<ast::DirectiveLocation>, ts: Seq<GraphQLToken>, lead: int) -> bool {
    &&& (lead == 0 || lead == 1)
    &&& lead + 2 * locs.len() - 1 <= ts.len()
    &&& (lead == 1 ==> ts[0].kind is Pipe)
    &&& forall|k: int| 0 <= k < locs.len() ==> location_written(locs[k], #[trigger] ts[lead + 2 * k])
    &&& forall|k: int| 1 <= k < locs.len() ==> (#[trigger] ts[lead + 2 * k - 1]).kind is Pipe
}

/// The locations `locs` are written with exactly the tokens `ts`: an
/// optional leading `|`, then the location names separated by `|`. There
/// is at least one.
pub open spec fn locations_written(locs: Seq<ast::DirectiveLocation>, ts: Seq<GraphQLToken>) -> bool {
    let lead = ts.len() - (2 * locs.len() - 1);
    &&& locs.len() > 0
    &&& locations_prefix_written(locs, ts, lead)
    &&& lead + 2 * locs.len() - 1 == ts.len()
}

/// The directive definition `dd`, after its description, is written with
/// exactly the tokens `ts`: `directive`, `@`, its name, its parenthesized
/// arguments (which may be left out when there are none), `repeatable` when
/// it is, `on` and its locations. Its span covers those tokens.
#[verifier::opaque]
pub open spec fn directive_def_written(dd: ast::DirectiveDefinition, ts: Seq<GraphQLToken>, retain: bool) -> bool {
    &&& ts.len() >= 4
    &&& is_keyword(ts[0], "directive"@)
    &&& ts[1].kind is At
    &&& is_name_token(ts[2])
    &&& name_of(dd.name, ts[2])
    &&& dd.span == tokens_span(ts[0], ts.last())
    &&& exists|a: int|
        #![trigger ts.subrange(3, a)]
        {
            let o = a + if dd.repeatable {
                1int
            } else {
                0int
            };
            &&& 3 <= a
            &&& o < ts.len()
            &&& (a == 3 ==> dd.arguments@.len() == 0)
            &&& (a > 3 ==> arg_defs_written(dd.arguments@, ts.subrange(3, a), retain))
            &&& (dd.repeatable ==> is_keyword(ts[a], "repeatable"@))
            &&& is_keyword(ts[o], "on"@)
            &&& locations_written(dd.locations@, ts.subrange(o + 1, ts.len() as int))
        }
}

/// Assembles what parsing a directive definition established.
#[verifier::spinoff_prover]
#[verifier::rlimit(100)]
proof fn lemma_directive_def_written<'src>(
    dd: ast::DirectiveDefinition,
    s0: GraphQLParser<'src>,
    s2: GraphQLParser<'src>,
    s3: GraphQLParser<'src>,
    s4: GraphQLParser<'src>,
    s5: GraphQLParser<'src>,
    s6: GraphQLParser<'src>,
    s7: GraphQLParser<'src>,
)
    requires
        s0.inv(),
        advanced(s0, s2),
        advanced(s2, s3),
        advanced(s3, s4),
        advanced(s4, s5),
        advanced(s5, s6),
        advanced(s6, s7),
        s0.rest().len() > 2,
        is_keyword(s0.rest()[0], "directive"@),
        s0.rest()[1].kind is At,
        is_name_token(s0.rest()[2]),
        name_of(dd.name, s0.rest()[2]),
        s2.pos() == s0.pos() + 2,
        s3.pos() == s2.pos() + 1,
        s4.pos() == s3.pos() ==> dd.arguments@.len() == 0,
        s4.pos() > s3.pos() ==> arg_defs_written(dd.arguments@, consumed(s3, s4), s0.spec_config().retain_syntax),
        dd.repeatable ==> s5.pos() == s4.pos() + 1 && s4.rest().len() > 0 && is_keyword(s4.rest()[0], "repeatable"@),
        !dd.repeatable ==> s5.pos() == s4.pos(),
        s6.pos() == s5.pos() + 1,
        s5.rest().len() > 0,
        is_keyword(s5.rest()[0], "on"@),
        locations_written(dd.locations@, consumed(s6, s7)),
        dd.span == spanned(s0.rest()[0].span.start_inclusive, s7.last_end()),
    ensures
        directive_def_written(dd, consumed(s0, s7), s0.spec_config().retain_syntax),
{
    reveal(directive_def_written);
    GraphQLParser::lemma_consumed(s0, s3, s4);
    GraphQLParser::lemma_consumed(s0, s4, s5);
    GraphQLParser::lemma_consumed(s0, s5, s6);
    GraphQLParser::lemma_consumed(s0, s6, s7);
    GraphQLParser::lemma_last_end(s0, s7);
    let ts = consumed(s0, s7);
    let a = s4.pos() - s0.pos();
    let o = s5.pos() - s0.pos();
    assert(ts[0] == s0.rest()[0]);
    assert(ts[1] == s0.rest()[1]);
    assert(ts[2] == s0.rest()[2]);
    assert(ts.subrange(3, a) == consumed(s3, s4)) by {
        assert(ts.subrange(3, a) =~= consumed(s0, s4).subrange(3, a));
    }
    if dd.repeatable {
        assert(ts[a] == consumed(s0, s5)[a]);
    }
    assert(ts[o] == consumed(s0, s6)[o]);
    assert(ts.subrange(o + 1, ts.len() as int) == consumed(s6, s7));
}

impl<'src> GraphQLParser<'src> {
    /// The location name nearest to `input` (compared in uppercase), if one
    /// is within edit distance three; ties go to the earlier name.
    pub(crate) fn suggest_directive_location(input: &str) -> (r: Option<&'static str>)
        ensures
            is_ascii_chars(input@) ==> match suggestion(ascii_upper(input@)) {
                Some(s) => r is Some && r->0@ == s,
                None => r is None,
            },
    {
        let upper = to_uppercase(input);
        let a = chars_of(upper.as_str());
        if a.len() > 25 {
            proof {
                assert forall|k: nat| k <= location_count() implies best_location(a@, k) is None by {
                    lemma_best_none_when_far(a@, k);
                }
            }
            return None;
        }
        let mut best: Option<usize> = None;
        let mut best_distance: usize = 0;
        let mut i: usize = 0;
        while i < 19
            invariant
                a@.len() <= 25,
                a@ == upper@,
                is_ascii_chars(input@) ==> upper@ == ascii_upper(input@),
                i <= 19,
                match best_location(a@, i as nat) {
                    Some((bi, bd)) => best == Some(bi as usize) && best_distance == bd,
                    None => best is None,
                },
                best matches Some(bi) ==> bi < i,
            decreases 19 - i,
        {
            let name = location_name(i);
            let b = chars_of(name);
            proof {
                reveal_strlit("QUERY");
                reveal_strlit("MUTATION");
                reveal_strlit("SUBSCRIPTION");
                reveal_strlit("FIELD");
                reveal_strlit("FRAGMENT_DEFINITION");
                reveal_strlit("FRAGMENT_SPREAD");
                reveal_strlit("INLINE_FRAGMENT");
                reveal_strlit("VARIABLE_DEFINITION");
                reveal_strlit("SCHEMA");
                reveal_strlit("SCALAR");
                reveal_strlit("OBJECT");
                reveal_strlit("FIELD_DEFINITION");
                reveal_strlit("ARGUMENT_DEFINITION");
                reveal_strlit("INTERFACE");
                reveal_strlit("UNION");
                reveal_strlit("ENUM");
                reveal_strlit("ENUM_VALUE");
                reveal_strlit("INPUT_OBJECT");
                reveal_strlit("INPUT_FIELD_DEFINITION");
                assert(b@.len() <= 22);
            }
            let d = edit_distance(&a, &b);
            match best {
                Some(_) => {
                    if d < best_distance {
                        best = Some(i);
                        best_distance = d;
                    }
                },
                None => {
                    if d <= 3 {
                        best = Some(i);
                        best_distance = d;
                    }
                },
            }
            i = i + 1;
        }
        assert(location_count() == 19);
        proof {
            lemma_best_index(a@, 19);
        }
        match best {
            Some(k) => Some(location_name(k)),
            None => None,
        }
    }

    /// The directive location that `name` denotes, if any.
    fn directive_location_from_name(name: &str) -> (r: Option<ast::DirectiveLocationKind>)
        ensures
            r == directive_location_kind(name@),
    {
        if str_eq(name, "QUERY") {
            Some(ast::DirectiveLocationKind::Query)
        } else if str_eq(name, "MUTATION") {
            Some(ast::DirectiveLocationKind::Mutation)
        } else if str_eq(name, "SUBSCRIPTION") {
            Some(ast::DirectiveLocationKind::Subscription)
        } else if str_eq(name, "FIELD") {
            Some(ast::DirectiveLocationKind::Field)
        } else if str_eq(name, "FRAGMENT_DEFINITION") {
            Some(ast::DirectiveLocationKind::FragmentDefinition)
        } else if str_eq(name, "FRAGMENT_SPREAD") {
            Some(ast::DirectiveLocationKind::FragmentSpread)
        } else if str_eq(name, "INLINE_FRAGMENT") {
            Some(ast::DirectiveLocationKind::InlineFragment)
        } else if str_eq(name, "VARIABLE_DEFINITION") {
            Some(ast::DirectiveLocationKind::VariableDefinition)
        } else if str_eq(name, "SCHEMA") {
            Some(ast::DirectiveLocationKind::Schema)
        } else if str_eq(name, "SCALAR") {
            Some(ast::DirectiveLocationKind::Scalar)
        } else if str_eq(name, "OBJECT") {
            Some(ast::DirectiveLocationKind::Object)
        } else if str_eq(name, "FIELD_DEFINITION") {
            Some(ast::DirectiveLocationKind::FieldDefinition)
        } else if str_eq(name, "ARGUMENT_DEFINITION") {
            Some(ast::DirectiveLocationKind::ArgumentDefinition)
        } else if str_eq(name, "INTERFACE") {
            Some(ast::DirectiveLocationKind::Interface)
        } else if str_eq(name, "UNION") {
            Some(ast::DirectiveLocationKind::Union)
        } else if str_eq(name, "ENUM") {
            Some(ast::DirectiveLocationKind::Enum)
        } else if str_eq(name, "ENUM_VALUE") {
            Some(ast::DirectiveLocationKind::EnumValue)
        } else if str_eq(name, "INPUT_OBJECT") {
            Some(ast::DirectiveLocationKind::InputObject)
        } else if str_eq(name, "INPUT_FIELD_DEFINITION") {
            Some(ast::DirectiveLocationKind::InputFieldDefinition)
        } else {
            None
        }
    }

    /// Parses one directive location; an unknown name is reported, with a
    /// suggestion when one is near.
    fn parse_directive_location(&mut self) -> (r: Result<ast::DirectiveLocation, ()>)
        requires
            old(self).inv(),
        ensures
            advanced(*old(self), *final(self)),
            progressed(*old(self), *final(self), r),
            r is Ok <==> old(self).rest().len() > 0 && is_name_token(old(self).rest()[0])
                && directive_location_kind(name_text(old(self).rest()[0].kind)) is Some,
            r is Ok ==> Some(r->Ok_0.kind) == directive_location_kind(name_text(old(self).rest()[0].kind))
                && r->Ok_0.span == old(self).rest()[0].span,
            r is Ok ==> final(self).pos() == old(self).pos() + 1 && final(self).spec_errors() == old(self).spec_errors(),
    {
        let name = self.expect_ast_name()?;
        match GraphQLParser::directive_location_from_name(name.value.as_str()) {
            Some(kind) => Ok(ast::DirectiveLocation { kind, span: name.span }),
            None => {
                let mut message = "unknown directive location `".to_owned();
                message.append(name.value.as_str());
                message.append("`");
                let mut error = GraphQLParseError::new(
                    message,
                    GraphQLParseErrorKind::InvalidSyntax,
                    name.span.to_source_span(),
                );
                match GraphQLParser::suggest_directive_location(name.value.as_str()) {
                    Some(suggestion) => {
                        let mut help = "did you mean `".to_owned();
                        help.append(suggestion);
                        help.append("`?");
                        error.add_help(help);
                    },
                    None => {},
                }
                self.record_error(error);
                Err(())
            },
        }
    }

    /// Parses directive locations `A | B`, with an optional leading `|`.
    fn parse_directive_locations(&mut self) -> (r: Result<Vec<ast::DirectiveLocation>, ()>)
        requires
            old(self).inv(),
        ensures
            advanced(*old(self), *final(self)),
            progressed(*old(self), *final(self), r),
            r is Ok ==> r->Ok_0@.len() > 0,
            r is Ok ==> final(self).spec_errors() == old(self).spec_errors() && locations_written(
                r->Ok_0@,
                consumed(*old(self), *final(self)),
            ),
    {
        let mut lead: usize = 0;
        if self.peek_is(&GraphQLTokenKind::Pipe) {
            self.take_token();
            lead = 1;
        }
        let mut locations: Vec<ast::DirectiveLocation> = Vec::new();
        let first = self.parse_directive_location()?;
        locations.push(first);
        proof {
            GraphQLParser::lemma_advanced(*old(self), *self);
        }
        while self.peek_is(&GraphQLTokenKind::Pipe)
            invariant
                advanced(*old(self), *self),
                self.pos() > old(self).pos(),
                locations@.len() > 0,
                old(self).inv(),
                self.spec_errors() == old(self).spec_errors(),
                lead <= 1,
                self.pos() - old(self).pos() == lead + 2 * locations@.len() - 1,
                locations_prefix_written(locations@, old(self).rest(), lead as int),
            decreases self.rest().len(),
        {
            let ghost before = *self;
            self.take_token();
            let ghost mid = *self;
            let l = self.parse_directive_location()?;
            locations.push(l);
            proof {
                GraphQLParser::lemma_advanced(*old(self), before);
                GraphQLParser::lemma_advanced(*old(self), mid);
                let k = locations@.len() - 1;
                assert(old(self).rest()[lead + 2 * k - 1] == before.rest()[0]);
                assert(old(self).rest()[lead + 2 * k] == mid.rest()[0]);
                assert forall|j: int| 0 <= j < locations@.len() implies location_written(
                    locations@[j],
                    #[trigger] old(self).rest()[lead + 2 * j],
                ) by {
                    if j < k {
                        assert(locations@[j] == locations@.drop_last()[j]);
                    }
                }
            }
        }
        proof {
            let ts = consumed(*old(self), *self);
            GraphQLParser::lemma_advanced(*old(self), *self);
            assert forall|k: int| 0 <= k < locations@.len() implies location_written(
                locations@[k],
                #[trigger] ts[lead + 2 * k],
            ) by {
                assert(ts[lead + 2 * k] == old(self).rest()[lead + 2 * k]);
            }
            assert forall|k: int| 1 <= k < locations@.len() implies (#[trigger] ts[lead + 2 * k - 1]).kind is Pipe by {
                assert(ts[lead + 2 * k - 1] == old(self).rest()[lead + 2 * k - 1]);
            }
            if lead == 1 {
                assert(ts[0] == old(self).rest()[0]);
            }
        }
        Ok(locations)
    }

    /// Parses a directive definition `directive @name(arguments) repeatable
    /// on LOCATIONS`.
    pub(crate) fn parse_directive_definition(&mut self, description: Option<ast::StringValue>) -> (r:
        Result<ast::DirectiveDefinition, ()>)
        requires
            old(self).inv(),
        ensures
            old(self).rest().len() > 0 && is_keyword(old(self).rest()[0], "directive"@) ==> final(self).pos() > old(self).pos(),
            advanced(*old(self), *final(self)),
            progressed(*old(self), *final(self), r),
            r is Ok ==> old(self).rest().len() > 2 && is_keyword(old(self).rest()[0], "directive"@)
                && old(self).rest()[1].kind is At && name_of(r->Ok_0.name, old(self).rest()[2])
                && r->Ok_0.description == description && r->Ok_0.span.start_inclusive == old(self).rest()[0].span.start_inclusive && input_value_defs_are_const(r->Ok_0.arguments@)
                && r->Ok_0.locations@.len() > 0,
            r is Ok && final(self).spec_errors().len() == old(self).spec_errors().len() ==> directive_def_written(
                r->Ok_0,
                consumed(*old(self), *final(self)),
                old(self).spec_config().retain_syntax,
            ),
    {
        let ghost s0 = *self;
        let keyword = self.expect_keyword("directive")?;
        let ghost s1 = *self;
        proof {
            GraphQLParser::lemma_advanced(s0, s1);
        }
        self.expect(&GraphQLTokenKind::At)?;
        let ghost s2 = *self;
        proof {
            GraphQLParser::lemma_advanced(s0, s2);
        }
        let name = self.expect_ast_name()?;
        let ghost s3 = *self;
        let arguments = if self.peek_is(&GraphQLTokenKind::ParenOpen) {
            self.parse_arguments_definition()?
        } else {
            Vec::new()
        };
        let ghost s4 = *self;
        let repeatable = if self.peek_is_keyword("repeatable") {
            self.take_token();
            true
        } else {
            false
        };
        let ghost s5 = *self;
        self.expect_keyword("on")?;
        let ghost s6 = *self;
        let locations = self.parse_directive_locations()?;
        let span = self.span_from(keyword.span.start_inclusive);
        let dd = ast::DirectiveDefinition { arguments, description, locations, name, repeatable, span };
        proof {
            if self.spec_errors().len() == s0.spec_errors().len() {
                lemma_directive_def_written(dd, s0, s2, s3, s4, s5, s6, *self);
            }
        }
        Ok(dd)
    }
}

/// The index that `best_location` picks is among the names considered.
proof fn lemma_best_index(a: Seq<char>, k: nat)
    ensures
        best_location(a, k) matches Some((i, _)) ==> i < k,
    decreases k,
{
    if k > 0 {
        lemma_best_index(a, (k - 1) as nat);
    }
}

/// A text longer than 25 characters is more than three edits away from
/// every location name.
proof fn lemma_best_none_when_far(a: Seq<char>, k: nat)
    requires
        a.len() > 25,
        k <= location_count(),
    ensures
        best_location(a, k) is None,
    decreases k,
{
    reveal_strlit("QUERY");
    reveal_strlit("MUTATION");
    reveal_strlit("SUBSCRIPTION");
    reveal_strlit("FIELD");
    reveal_strlit("FRAGMENT_DEFINITION");
    reveal_strlit("FRAGMENT_SPREAD");
    reveal_strlit("INLINE_FRAGMENT");
    reveal_strlit("VARIABLE_DEFINITION");
    reveal_strlit("SCHEMA");
    reveal_strlit("SCALAR");
    reveal_strlit("OBJECT");
    reveal_strlit("FIELD_DEFINITION");
    reveal_strlit("ARGUMENT_DEFINITION");
    reveal_strlit("INTERFACE");
    reveal_strlit("UNION");
    reveal_strlit("ENUM");
    reveal_strlit("ENUM_VALUE");
    reveal_strlit("INPUT_OBJECT");
    reveal_strlit("INPUT_FIELD_DEFINITION");
    if k > 0 {
        lemma_best_none_when_far(a, (k - 1) as nat);
        let b = location_names()[k - 1];
        assert(b.len() <= 22);
        lemma_lev_lower(a, b);
    }
}

} // verus!
