//! The lexer: GraphQL source text to tokens.
//!
//! Whitespace, line terminators and a byte order mark are skipped; commas
//! and comments are kept as trivia on the token that follows them. Every
//! token carries the span of its text; the last token is always `Eof`, at
//! the end of the source. Characters that start no
//! token become `Error` tokens, so lexing never fails.

use crate::graphql_error_note::GraphQLErrorNotes;
use crate::graphql_source_span::GraphQLSourceSpan;
use crate::source_map::count_scalars;
use crate::source_map::count_utf16_units;
use crate::source_map::fits_offsets;
use crate::source_map::is_line_start;
use crate::source_map::is_continuation_byte;
use crate::source_position::SourcePosition;
use crate::source_position::SourcePositionView;
use crate::text::string_push;
use crate::text::str_subslice;
use crate::text::at_boundary;
use crate::token::GraphQLToken;
use crate::token::GraphQLTokenKind;
use crate::token::GraphQLTriviaToken;
use vstd::prelude::*;
use vstd::string::StringSliceAdditionalSpecFns;
use vstd::string::StringExecFns;
use vstd::utf8::encode_utf8;
use vstd::utf8::decode_utf8;

verus! {

// ── Character classes and token texts ──────────────────────────────

/// `_`, `A`-`Z` or `a`-`z`.
pub open spec fn is_name_start(b: u8) -> bool {
    b == 95 || (65 <= b <= 90) || (97 <= b <= 122)
}

/// A name start or a digit.
pub open spec fn is_name_continue(b: u8) -> bool {
    is_name_start(b) || is_digit(b)
}

/// `0`-`9`.
pub open spec fn is_digit(b: u8) -> bool {
    48 <= b <= 57
}

/// A name: a name start followed by name characters.
pub open spec fn is_name_text(s: Seq<u8>) -> bool {
    &&& s.len() > 0
    &&& is_name_start(s[0])
    &&& forall|i: int| 1 <= i < s.len() ==> is_name_continue(#[trigger] s[i])
}

/// The characters of ASCII bytes.
pub open spec fn ascii_chars(s: Seq<u8>) -> Seq<char> {
    s.map_values(|b: u8| b as char)
}

/// The number of digits of `s` from index `i` on.
pub open spec fn digits_run(s: Seq<u8>, i: int) -> nat
    decreases s.len() - i,
{
    if 0 <= i < s.len() && is_digit(s[i]) {
        1 + digits_run(s, i + 1)
    } else {
        0
    }
}

/// The length of the optional minus sign at the start of `s`.
pub open spec fn sign_len(s: Seq<u8>) -> int {
    if s.len() > 0 && s[0] == 45 {
        1
    } else {
        0
    }
}

/// The end of the integer part of a number: sign and digits.
pub open spec fn int_part_end(s: Seq<u8>) -> int {
    sign_len(s) + digits_run(s, sign_len(s))
}

/// The integer part of `s` is `-?(0|[1-9][0-9]*)`.
pub open spec fn valid_int_part(s: Seq<u8>) -> bool {
    let k = sign_len(s);
    digits_run(s, k) > 0 && (s[k] != 48 || digits_run(s, k) == 1)
}

/// An integer literal.
pub open spec fn is_int_text(s: Seq<u8>) -> bool {
    valid_int_part(s) && int_part_end(s) == s.len()
}

/// The end of the fractional part of a number (the integer part's end if
/// there is none).
pub open spec fn frac_end(s: Seq<u8>) -> int {
    let e = int_part_end(s);
    if e < s.len() && s[e] == 46 {
        e + 1 + digits_run(s, e + 1)
    } else {
        e
    }
}

/// The fractional part, if present, has a digit.
pub open spec fn valid_frac(s: Seq<u8>) -> bool {
    let e = int_part_end(s);
    e < s.len() && s[e] == 46 ==> digits_run(s, e + 1) > 0
}

/// `e` or `E`.
pub open spec fn is_exp_mark(b: u8) -> bool {
    b == 101 || b == 69
}

/// `+` or `-`.
pub open spec fn is_sign(b: u8) -> bool {
    b == 43 || b == 45
}

/// The start of the exponent digits of a number whose exponent mark is at
/// `f`.
pub open spec fn exp_digits_start(s: Seq<u8>, f: int) -> int {
    if f + 1 < s.len() && is_sign(s[f + 1]) {
        f + 2
    } else {
        f + 1
    }
}

/// A float literal: a valid integer part followed by a fractional part,
/// an exponent part, or both.
pub open spec fn is_float_text(s: Seq<u8>) -> bool {
    let f = frac_end(s);
    &&& valid_int_part(s)
    &&& valid_frac(s)
    &&& if f < s.len() && is_exp_mark(s[f]) {
        let d = exp_digits_start(s, f);
        digits_run(s, d) > 0 && d + digits_run(s, d) == s.len()
    } else {
        f == s.len() && f > int_part_end(s)
    }
}

/// The bytes of `true`.
pub open spec fn true_bytes() -> Seq<u8> {
    seq![116u8, 114u8, 117u8, 101u8]
}

/// The bytes of `false`.
pub open spec fn false_bytes() -> Seq<u8> {
    seq![102u8, 97u8, 108u8, 115u8, 101u8]
}

/// The bytes of `null`.
pub open spec fn null_bytes() -> Seq<u8> {
    seq![110u8, 117u8, 108u8, 108u8]
}

/// The bytes of `...`.
pub open spec fn ellipsis_bytes() -> Seq<u8> {
    seq![46u8, 46u8, 46u8]
}

/// The punctuator byte of a one-byte punctuator token kind.
pub open spec fn punctuator_byte(kind: GraphQLTokenKind) -> Option<u8> {
    match kind {
        GraphQLTokenKind::Ampersand => Some(38u8),
        GraphQLTokenKind::At => Some(64u8),
        GraphQLTokenKind::Bang => Some(33u8),
        GraphQLTokenKind::Colon => Some(58u8),
        GraphQLTokenKind::CurlyBraceClose => Some(125u8),
        GraphQLTokenKind::CurlyBraceOpen => Some(123u8),
        GraphQLTokenKind::Dollar => Some(36u8),
        GraphQLTokenKind::Equals => Some(61u8),
        GraphQLTokenKind::ParenClose => Some(41u8),
        GraphQLTokenKind::ParenOpen => Some(40u8),
        GraphQLTokenKind::Pipe => Some(124u8),
        GraphQLTokenKind::SquareBracketClose => Some(93u8),
        GraphQLTokenKind::SquareBracketOpen => Some(91u8),
        _ => None,
    }
}

/// The one-byte punctuator that the byte `b` is, if it is one.
pub open spec fn punctuator_of(b: u8) -> Option<GraphQLTokenKind> {
    if b == 38 {
        Some(GraphQLTokenKind::Ampersand)
    } else if b == 64 {
        Some(GraphQLTokenKind::At)
    } else if b == 33 {
        Some(GraphQLTokenKind::Bang)
    } else if b == 58 {
        Some(GraphQLTokenKind::Colon)
    } else if b == 125 {
        Some(GraphQLTokenKind::CurlyBraceClose)
    } else if b == 123 {
        Some(GraphQLTokenKind::CurlyBraceOpen)
    } else if b == 36 {
        Some(GraphQLTokenKind::Dollar)
    } else if b == 61 {
        Some(GraphQLTokenKind::Equals)
    } else if b == 41 {
        Some(GraphQLTokenKind::ParenClose)
    } else if b == 40 {
        Some(GraphQLTokenKind::ParenOpen)
    } else if b == 124 {
        Some(GraphQLTokenKind::Pipe)
    } else if b == 93 {
        Some(GraphQLTokenKind::SquareBracketClose)
    } else if b == 91 {
        Some(GraphQLTokenKind::SquareBracketOpen)
    } else {
        None
    }
}

/// The number of bytes of a UTF-8 character whose first byte is `b`.
pub open spec fn utf8_width(b: u8) -> nat {
    if b >= 0xF0 {
        4
    } else if b >= 0xE0 {
        3
    } else if b >= 0xC0 {
        2
    } else {
        1
    }
}

/// A name ends at offset `e`: no name character follows it, so it is the
/// longest name there.
pub open spec fn name_ends_at(bytes: Seq<u8>, e: int) -> bool {
    e == bytes.len() || !is_name_continue(bytes[e])
}

/// A number ends at offset `e`: neither a digit, a name character nor a
/// `.` follows it, so it is the longest number there.
pub open spec fn number_ends_at(bytes: Seq<u8>, e: int) -> bool {
    e == bytes.len() || !(is_name_continue(bytes[e]) || bytes[e] == 46)
}

/// A number token (an integer or a float) can be read from offset `s` to
/// offset `e`: its text is a number, and it runs as far as it can.
pub open spec fn number_token_at(bytes: Seq<u8>, s: int, e: int) -> bool {
    &&& 0 <= s < e <= bytes.len()
    &&& is_int_text(bytes.subrange(s, e)) || is_float_text(bytes.subrange(s, e))
    &&& number_ends_at(bytes, e)
}

/// Where the digits of a number at `a` start (after an optional `-`).
spec fn num_d0(bytes: Seq<u8>, a: int) -> int {
    if bytes[a] == 45 {
        a + 1
    } else {
        a
    }
}

/// Where the integer digits of a number at `a` end.
spec fn num_d1(bytes: Seq<u8>, a: int) -> int {
    num_d0(bytes, a) + digits_run(bytes, num_d0(bytes, a))
}

/// Whether a number at `a` has a fractional part.
spec fn num_has_frac(bytes: Seq<u8>, a: int) -> bool {
    num_d1(bytes, a) < bytes.len() && bytes[num_d1(bytes, a)] == 46
}

/// Where the fractional part of a number at `a` ends.
spec fn num_fe(bytes: Seq<u8>, a: int) -> int {
    if num_has_frac(bytes, a) {
        num_d1(bytes, a) + 1 + digits_run(bytes, num_d1(bytes, a) + 1)
    } else {
        num_d1(bytes, a)
    }
}

/// Whether a number at `a` has an exponent.
spec fn num_has_exp(bytes: Seq<u8>, a: int) -> bool {
    num_fe(bytes, a) < bytes.len() && is_exp_mark(bytes[num_fe(bytes, a)])
}

/// Where the exponent digits of a number at `a` start.
spec fn num_x(bytes: Seq<u8>, a: int) -> int {
    let fe = num_fe(bytes, a);
    if fe + 1 < bytes.len() && is_sign(bytes[fe + 1]) {
        fe + 2
    } else {
        fe + 1
    }
}

/// Where a number at `a` ends.
spec fn num_end(bytes: Seq<u8>, a: int) -> int {
    if num_has_exp(bytes, a) {
        num_x(bytes, a) + digits_run(bytes, num_x(bytes, a))
    } else {
        num_fe(bytes, a)
    }
}

/// Whether reading a number at `a` succeeds.
spec fn num_ok(bytes: Seq<u8>, a: int) -> bool {
    let d0 = num_d0(bytes, a);
    let d1 = num_d1(bytes, a);
    &&& d1 > d0 && (bytes[d0] != 48 || d1 == d0 + 1)
    &&& num_has_frac(bytes, a) ==> digits_run(bytes, d1 + 1) > 0
    &&& num_has_exp(bytes, a) ==> digits_run(bytes, num_x(bytes, a)) > 0
    &&& !(num_end(bytes, a) < bytes.len() && (bytes[num_end(bytes, a)] == 46 || is_name_start(
        bytes[num_end(bytes, a)],
    )))
}

/// The digit runs of a number's text agree with those of the source when
/// no digit follows the text.
proof fn lemma_digits_run_prefix(bytes: Seq<u8>, a: int, e: int, i: int)
    requires
        0 <= a <= e <= bytes.len(),
        0 <= i <= e - a,
        e == bytes.len() || !is_digit(bytes[e]),
    ensures
        digits_run(bytes.subrange(a, e), i) == digits_run(bytes, a + i),
    decreases e - a - i,
{
    if i < e - a {
        lemma_digits_run_prefix(bytes, a, e, i + 1);
        assert(bytes.subrange(a, e)[i] == bytes[a + i]);
    }
}

/// The digit run from `i` is at least one long exactly when a digit is at
/// `i`, and no digit follows it.
proof fn lemma_digits_run_end(bytes: Seq<u8>, i: int)
    requires
        0 <= i <= bytes.len(),
    ensures
        i + digits_run(bytes, i) <= bytes.len(),
        i + digits_run(bytes, i) == bytes.len() || !is_digit(bytes[i + digits_run(bytes, i)]),
    decreases bytes.len() - i,
{
    if i < bytes.len() && is_digit(bytes[i]) {
        lemma_digits_run_end(bytes, i + 1);
    }
}

/// A number token at `a` is what reading a number there finds.
proof fn lemma_number_token_read(bytes: Seq<u8>, a: int, e: int)
    requires
        number_token_at(bytes, a, e),
    ensures
        num_ok(bytes, a),
        num_end(bytes, a) == e,
{
    let t = bytes.subrange(a, e);
    assert(number_ends_at(bytes, e));
    assert(e == bytes.len() || !is_digit(bytes[e]));
    let k = sign_len(t);
    assert(t[0] == bytes[a]);
    assert(num_d0(bytes, a) == a + k);
    lemma_digits_run_prefix(bytes, a, e, k);
    let ie = int_part_end(t);
    assert(num_d1(bytes, a) == a + ie);
    assert(t[k] == bytes[a + k]);
    let d1 = a + ie;
    if ie < t.len() {
        assert(t[ie] == bytes[d1]);
    }
    if ie < t.len() && t[ie] == 46 {
        lemma_digits_run_prefix(bytes, a, e, ie + 1);
    }
    let f = frac_end(t);
    assert(num_fe(bytes, a) == a + f);
    if f < t.len() {
        assert(t[f] == bytes[a + f]);
    }
    if f < t.len() && is_exp_mark(t[f]) {
        if f + 1 < t.len() {
            assert(t[f + 1] == bytes[a + f + 1]);
        }
        let xd = exp_digits_start(t, f);
        lemma_digits_run_prefix(bytes, a, e, xd);
        assert(num_x(bytes, a) == a + xd);
    }
}

/// The start and end byte offsets of a token.
pub open spec fn token_start(t: GraphQLToken) -> int {
    t.span.start_inclusive@.byte_offset as int
}

/// The end byte offset of a token.
pub open spec fn token_end(t: GraphQLToken) -> int {
    t.span.end_exclusive@.byte_offset as int
}

/// The token is made of the source text at its span, and its span's
/// start and end carry the lines and columns of their offsets: a punctuator of its
/// byte(s), a name or a number of its text, a keyword of its word, a
/// string between quotes (a one-line string holding its text with escape
/// sequences replaced; a block string ending at the first unescaped triple
/// quote), `Eof` at the end; names and numbers run as far as they can; an
/// error never starts where a name, a punctuator or `...` does, nor where
/// a well-formed string or number does.
pub open spec fn token_matches(bytes: Seq<u8>, t: GraphQLToken) -> bool {
    let s = token_start(t);
    let e = token_end(t);
    let text = bytes.subrange(s, e);
    &&& 0 <= s <= e <= bytes.len()
    &&& t.span.file_path is None
    &&& span_placed(bytes, t.span)
    &&& match t.kind {
        GraphQLTokenKind::Name(v) => is_name_text(text) && v@ == ascii_chars(text) && text != true_bytes()
            && text != false_bytes() && text != null_bytes() && name_ends_at(bytes, e),
        GraphQLTokenKind::True => text == true_bytes() && name_ends_at(bytes, e),
        GraphQLTokenKind::False => text == false_bytes() && name_ends_at(bytes, e),
        GraphQLTokenKind::Null => text == null_bytes() && name_ends_at(bytes, e),
        GraphQLTokenKind::IntValue(v) => is_int_text(text) && v@ == ascii_chars(text) && number_ends_at(bytes, e),
        GraphQLTokenKind::FloatValue(v) => is_float_text(text) && v@ == ascii_chars(text) && number_ends_at(bytes, e),
        GraphQLTokenKind::Ellipsis => text == ellipsis_bytes(),
        GraphQLTokenKind::StringValue { value, is_block } => e >= s + 2 && bytes[s] == 34 && bytes[e - 1] == 34 && (
        !is_block ==> string_body(bytes, s + 1) == Some((value@, e - 1))) && (is_block ==> e >= s + 6
            && block_end_from(bytes, s + 3) == Some(e - 3) && encode_utf8(value@) == block_string_value(bytes, s + 3, e - 3)) && (is_block <==> (s + 3 <= bytes.len() && bytes[s + 1]
            == 34 && bytes[s + 2] == 34)),
        GraphQLTokenKind::Eof => s == e && e == bytes.len(),
        GraphQLTokenKind::Error { .. } => s < e && !is_name_start(bytes[s]) && punctuator_of(bytes[s]) is None
            && !(s + 3 <= bytes.len() && bytes.subrange(s, s + 3) == ellipsis_bytes()) && (bytes[s] == 34 ==> if s
            + 3 <= bytes.len() && bytes[s + 1] == 34 && bytes[s + 2] == 34 {
            block_end_from(bytes, s + 3) is None
        } else {
            string_body(bytes, s + 1) is None
        }) && ((bytes[s] == 45 || is_digit(bytes[s])) ==> forall|e2: int| !#[trigger] number_token_at(bytes, s, e2)),
        _ => e == s + 1 && punctuator_byte(t.kind) == Some(bytes[s]),
    }
}

/// The span of a trivia token.
pub open spec fn trivia_span(t: GraphQLTriviaToken) -> GraphQLSourceSpan {
    match t {
        GraphQLTriviaToken::Comment { span, .. } => span,
        GraphQLTriviaToken::Comma { span } => span,
    }
}

/// The start byte offset of a trivia token.
pub open spec fn trivia_start(t: GraphQLTriviaToken) -> int {
    trivia_span(t).start_inclusive@.byte_offset as int
}

/// The end byte offset of a trivia token.
pub open spec fn trivia_end(t: GraphQLTriviaToken) -> int {
    trivia_span(t).end_exclusive@.byte_offset as int
}

/// The trivia token is made of the source text at its span: a comma of
/// the byte `,`; a comment of `#` and the rest of its line, which is its
/// value.
pub open spec fn trivia_matches(bytes: Seq<u8>, t: GraphQLTriviaToken) -> bool {
    let s = trivia_start(t);
    let e = trivia_end(t);
    &&& 0 <= s < e <= bytes.len()
    &&& trivia_span(t).file_path is None
    &&& span_placed(bytes, trivia_span(t))
    &&& match t {
        GraphQLTriviaToken::Comma { .. } => e == s + 1 && bytes[s] == 44,
        GraphQLTriviaToken::Comment { value, .. } => {
            &&& bytes[s] == 35
            &&& encode_utf8(value@) == bytes.subrange(s + 1, e)
            &&& (e == bytes.len() || bytes[e] == 10 || bytes[e] == 13)
            &&& forall|k: int| s < k < e ==> #[trigger] bytes[k] != 10 && bytes[k] != 13
        },
    }
}

/// The trivia tokens each match their text, lie between offsets `a` and
/// `b`, and come in order without overlapping.
pub open spec fn trivia_between(bytes: Seq<u8>, tr: Seq<GraphQLTriviaToken>, a: int, b: int) -> bool {
    &&& forall|k: int|
        0 <= k < tr.len() ==> trivia_matches(bytes, #[trigger] tr[k]) && a <= trivia_start(tr[k])
            && trivia_end(tr[k]) <= b
    &&& forall|k: int, l: int| 0 <= k < l < tr.len() ==> trivia_end(#[trigger] tr[k]) <= trivia_start(#[trigger] tr[l])
}

/// Where the text before token `i` starts: the end of the token before it,
/// or the start of the source.
pub open spec fn gap_start(ts: Seq<GraphQLToken>, i: int) -> int {
    if i == 0 {
        0
    } else {
        token_end(ts[i - 1])
    }
}

/// Whether `bytes` holds a byte order mark (`EF BB BF`) at offset `a`.
pub open spec fn is_bom_at(bytes: Seq<u8>, a: int) -> bool {
    0 <= a && a + 2 < bytes.len() && bytes[a] == 0xEF && bytes[a + 1] == 0xBB && bytes[a + 2] == 0xBF
}

/// Where the text from offset `a` on stops being ignored: whitespace (space
/// and tab), line terminators, commas, byte order marks and comments (`#`
/// to the end of the line) are ignored; `in_comment` says whether `a` lies
/// inside a comment.
pub open spec fn skip_from(bytes: Seq<u8>, a: int, in_comment: bool) -> int
    decreases bytes.len() - a,
{
    if a < 0 || a >= bytes.len() {
        a
    } else if in_comment {
        if bytes[a] == 10 || bytes[a] == 13 {
            skip_from(bytes, a + 1, false)
        } else {
            skip_from(bytes, a + 1, true)
        }
    } else if bytes[a] == 32 || bytes[a] == 9 || bytes[a] == 10 || bytes[a] == 13 || bytes[a] == 44 {
        skip_from(bytes, a + 1, false)
    } else if bytes[a] == 35 {
        skip_from(bytes, a + 1, true)
    } else if is_bom_at(bytes, a) {
        skip_from(bytes, a + 3, false)
    } else {
        a
    }
}

/// Where the comment text that runs from offset `k` ends: at the next line
/// terminator or the end of the source.
pub open spec fn comment_end(bytes: Seq<u8>, k: int) -> int
    decreases bytes.len() - k,
{
    if k < 0 || k >= bytes.len() || bytes[k] == 10 || bytes[k] == 13 {
        k
    } else {
        comment_end(bytes, k + 1)
    }
}

/// A comment's text ends no earlier than it starts.
pub proof fn lemma_comment_end(bytes: Seq<u8>, k: int)
    ensures
        k >= 0 ==> k <= comment_end(bytes, k),
        0 <= k <= bytes.len() ==> comment_end(bytes, k) <= bytes.len(),
    decreases bytes.len() - k,
{
    if 0 <= k < bytes.len() && bytes[k] != 10 && bytes[k] != 13 {
        lemma_comment_end(bytes, k + 1);
    }
}

/// The start and end offsets of the commas and comments in the ignored
/// text that starts at offset `a`, in order.
pub open spec fn trivia_spans(bytes: Seq<u8>, a: int) -> Seq<(int, int)>
    decreases bytes.len() - a,
{
    if a < 0 || a >= bytes.len() {
        Seq::empty()
    } else if bytes[a] == 32 || bytes[a] == 9 || bytes[a] == 10 || bytes[a] == 13 {
        trivia_spans(bytes, a + 1)
    } else if bytes[a] == 44 {
        seq![(a, a + 1)] + trivia_spans(bytes, a + 1)
    } else if bytes[a] == 35 {
        let e = comment_end(bytes, a + 1);
        proof {
            lemma_comment_end(bytes, a + 1);
        }
        seq![(a, e)] + trivia_spans(bytes, e)
    } else if is_bom_at(bytes, a) {
        trivia_spans(bytes, a + 3)
    } else {
        Seq::empty()
    }
}

/// The start and end offsets of trivia tokens.
pub open spec fn spans_of(tr: Seq<GraphQLTriviaToken>) -> Seq<(int, int)> {
    tr.map_values(|t: GraphQLTriviaToken| (trivia_start(t), trivia_end(t)))
}

/// Where the ignored text that starts at offset `a` ends: the offset of
/// the next token, or the end of the source.
pub open spec fn skip_end(bytes: Seq<u8>, a: int) -> int {
    skip_from(bytes, a, false)
}

/// The tokens of a source: each matches its text, they come in order
/// without overlapping, and the last one, and only it, is `Eof`. Each
/// token starts where the ignored text after the token before it (or after
/// the start of the source) ends, so nothing but ignored text lies between
/// tokens. The trivia of each token are exactly the commas and comments
/// of the ignored text before it, in order.
pub open spec fn tokens_wf(bytes: Seq<u8>, ts: Seq<GraphQLToken>) -> bool {
    &&& ts.len() > 0
    &&& forall|i: int| 0 <= i < ts.len() ==> token_start(#[trigger] ts[i]) == skip_end(bytes, gap_start(ts, i))
    &&& forall|i: int| 0 <= i < ts.len() ==> spans_of((#[trigger] ts[i]).preceding_trivia@) == trivia_spans(bytes, gap_start(ts, i))
    &&& forall|i: int|
        0 <= i < ts.len() ==> trivia_between(
            bytes,
            (#[trigger] ts[i]).preceding_trivia@,
            gap_start(ts, i),
            token_start(ts[i]),
        )
    &&& ts.last().kind is Eof
    &&& forall|i: int| 0 <= i < ts.len() - 1 ==> !(#[trigger] ts[i].kind is Eof)
    &&& forall|i: int| 0 <= i < ts.len() ==> token_matches(bytes, #[trigger] ts[i])
    &&& forall|i: int, j: int| 0 <= i < j < ts.len() ==> token_end(#[trigger] ts[i]) <= token_start(#[trigger] ts[j])
}

// ── Positions ───────────────────────────────────────────────────────

/// The number of lines that start after the start of the text and at or
/// before offset `k`: the 0-based line of `k`.
pub open spec fn line_count(bytes: Seq<u8>, k: int) -> nat
    decreases k,
{
    if k <= 0 {
        0
    } else {
        line_count(bytes, k - 1) + if is_line_start(bytes, k) {
            1nat
        } else {
            0nat
        }
    }
}

/// The start of the line holding offset `k`: the last line start at or
/// before it.
pub open spec fn line_start_of(bytes: Seq<u8>, k: int) -> int
    decreases k,
{
    if k <= 0 {
        0
    } else if is_line_start(bytes, k) {
        k
    } else {
        line_start_of(bytes, k - 1)
    }
}

/// The position of offset `k` in `bytes`: its 0-based line, and its column
/// in characters and in UTF-16 code units from the start of its line.
pub open spec fn position_at(bytes: Seq<u8>, k: int) -> SourcePositionView {
    let seg = bytes.subrange(line_start_of(bytes, k), k);
    SourcePositionView {
        line: line_count(bytes, k),
        col_utf8: count_scalars(seg),
        col_utf16: Some(count_utf16_units(seg)),
        byte_offset: k as nat,
    }
}

/// A span of source text whose start and end positions are those of their
/// byte offsets in `bytes`.
pub open spec fn span_placed(bytes: Seq<u8>, sp: GraphQLSourceSpan) -> bool {
    &&& sp.start_inclusive@ == position_at(bytes, sp.start_inclusive@.byte_offset as int)
    &&& sp.end_exclusive@ == position_at(bytes, sp.end_exclusive@.byte_offset as int)
}

/// Where the lexer stands: byte offset, 0-based line, and the column in
/// characters and in UTF-16 code units.
#[derive(Clone, Copy)]
struct Cursor {
    off: usize,
    line: usize,
    col8: usize,
    col16: usize,
}

impl Cursor {
    /// The counters stay below the offset (twice the offset for UTF-16),
    /// and give the position of the offset in `bytes`.
    spec fn ok(self, bytes: Seq<u8>) -> bool {
        &&& self.line <= self.off && self.col8 <= self.off && self.col16 <= 2 * self.off
        &&& self.off <= bytes.len()
        &&& position_at(bytes, self.off as int) == SourcePositionView {
            line: self.line as nat,
            col_utf8: self.col8 as nat,
            col_utf16: Some(self.col16 as nat),
            byte_offset: self.off as nat,
        }
    }

    fn position(&self, Ghost(bytes): Ghost<Seq<u8>>) -> (p: SourcePosition)
        requires
            self.ok(bytes),
        ensures
            p@ == position_at(bytes, self.off as int),
    {
        SourcePosition::new(self.line, self.col8, Some(self.col16), self.off)
    }
}

/// The line start of an offset lies at or before it.
proof fn lemma_line_start_of(bytes: Seq<u8>, k: int)
    requires
        0 <= k,
    ensures
        0 <= line_start_of(bytes, k) <= k,
    decreases k,
{
    if k > 0 && !is_line_start(bytes, k) {
        lemma_line_start_of(bytes, k - 1);
    }
}

/// The position of the offset after `k` follows from that of `k` and the
/// byte at `k`.
proof fn lemma_step_position(bytes: Seq<u8>, k: int)
    requires
        0 <= k < bytes.len(),
    ensures
        ({
            let p = position_at(bytes, k);
            let q = position_at(bytes, k + 1);
            let b = bytes[k];
            if is_line_start(bytes, k + 1) {
                q.line == p.line + 1 && q.col_utf8 == 0 && q.col_utf16 == Some(0nat)
            } else {
                &&& q.line == p.line
                &&& q.col_utf8 == p.col_utf8 + if is_continuation_byte(b) {
                    0nat
                } else {
                    1nat
                }
                &&& q.col_utf16 == Some(
                    p.col_utf16->0 + if b >= 0xF0 {
                        2nat
                    } else if is_continuation_byte(b) {
                        0nat
                    } else {
                        1nat
                    },
                )
            }
        }),
        is_line_start(bytes, k + 1) <==> (bytes[k] == 10 || (bytes[k] == 13 && (k + 1 == bytes.len() || bytes[k
            + 1] != 10))),
{
    lemma_line_start_of(bytes, k);
    let ls = line_start_of(bytes, k);
    if is_line_start(bytes, k + 1) {
        assert(bytes.subrange(k + 1, k + 1).len() == 0);
    } else {
        let seg = bytes.subrange(ls, k);
        let seg2 = bytes.subrange(ls, k + 1);
        assert(seg2.drop_last() =~= seg);
        assert(seg2.last() == bytes[k]);
    }
}

/// Steps over the byte at the cursor: a line terminator (`\n`, `\r\n`,
/// `\r`) starts a new line; a continuation byte does not move the column;
/// a four-byte character takes two UTF-16 code units.
fn step(bytes: &[u8], c: Cursor) -> (r: Cursor)
    requires
        c.off < bytes@.len(),
        c.ok(bytes@),
        fits_offsets(bytes@),
    ensures
        r.off == c.off + 1,
        r.ok(bytes@),
{
    let b = bytes[c.off];
    proof {
        lemma_step_position(bytes@, c.off as int);
    }
    if b == 10 {
        Cursor { off: c.off + 1, line: c.line + 1, col8: 0, col16: 0 }
    } else if b == 13 {
        if c.off + 1 < bytes.len() && bytes[c.off + 1] == 10 {
            // The `\r` of `\r\n` stays on its line until the `\n`.
            Cursor { off: c.off + 1, line: c.line, col8: c.col8 + 1, col16: c.col16 + 1 }
        } else {
            Cursor { off: c.off + 1, line: c.line + 1, col8: 0, col16: 0 }
        }
    } else if 0x80 <= b && b < 0xC0 {
        Cursor { off: c.off + 1, ..c }
    } else if b >= 0xF0 {
        Cursor { off: c.off + 1, line: c.line, col8: c.col8 + 1, col16: c.col16 + 2 }
    } else {
        Cursor { off: c.off + 1, line: c.line, col8: c.col8 + 1, col16: c.col16 + 1 }
    }
}

/// Steps over `n` bytes.
fn step_n(bytes: &[u8], c: Cursor, n: usize) -> (r: Cursor)
    requires
        c.off + n <= bytes@.len(),
        c.ok(bytes@),
        fits_offsets(bytes@),
    ensures
        r.off == c.off + n,
        r.ok(bytes@),
{
    let mut r = c;
    let mut k: usize = 0;
    while k < n
        invariant
            k <= n,
            r.off == c.off + k,
            c.off + n <= bytes@.len(),
            r.ok(bytes@),
            fits_offsets(bytes@),
        decreases n - k,
    {
        r = step(bytes, r);
        k = k + 1;
    }
    r
}

/// The span from `start` to `end`.
fn span_between(start: Cursor, end: Cursor, Ghost(bytes): Ghost<Seq<u8>>) -> (s: GraphQLSourceSpan)
    requires
        start.ok(bytes),
        end.ok(bytes),
    ensures
        s.start_inclusive@.byte_offset == start.off,
        s.end_exclusive@.byte_offset == end.off,
        s.file_path is None,
        span_placed(bytes, s),
{
    GraphQLSourceSpan::new(start.position(Ghost(bytes)), end.position(Ghost(bytes)))
}

// ── Skipping ────────────────────────────────────────────────────────

/// Skips whitespace, line terminators, commas, comments and byte order
/// marks, and returns the commas and comments as trivia.
fn skip_ignored(source: &str, bytes: &[u8], c: Cursor) -> (r: (Cursor, Vec<GraphQLTriviaToken>))
    requires
        bytes@ == source.spec_bytes(),
        c.off <= bytes@.len(),
        c.ok(bytes@),
        fits_offsets(bytes@),
    ensures
        c.off <= r.0.off <= bytes@.len(),
        r.0.ok(bytes@),
        trivia_between(bytes@, r.1@, c.off as int, r.0.off as int),
        r.0.off == skip_end(bytes@, c.off as int),
        spans_of(r.1@) == trivia_spans(bytes@, c.off as int),
{
    let mut r = c;
    let mut trivia: Vec<GraphQLTriviaToken> = Vec::new();
    while r.off < bytes.len()
        invariant
            bytes@ == source.spec_bytes(),
            c.off <= r.off <= bytes@.len(),
            r.ok(bytes@),
            fits_offsets(bytes@),
            trivia_between(bytes@, trivia@, c.off as int, r.off as int),
            skip_end(bytes@, c.off as int) == skip_from(bytes@, r.off as int, false),
            spans_of(trivia@) + trivia_spans(bytes@, r.off as int) == trivia_spans(bytes@, c.off as int),
        ensures
            c.off <= r.off <= bytes@.len(),
            r.ok(bytes@),
            trivia_between(bytes@, trivia@, c.off as int, r.off as int),
            r.off == skip_end(bytes@, c.off as int),
            spans_of(trivia@) == trivia_spans(bytes@, c.off as int),
        decreases bytes@.len() - r.off,
    {
        let b = bytes[r.off];
        let ghost tr0 = trivia@;
        let ghost r0 = r.off as int;
        if b == 32 || b == 9 || b == 10 || b == 13 {
            r = step(bytes, r);
        } else if b == 44 {
            let next = step(bytes, r);
            let t = GraphQLTriviaToken::Comma { span: span_between(r, next, Ghost(bytes@)) };
            trivia.push(t);
            proof {
                assert(spans_of(trivia@) =~= spans_of(tr0).push((r0, r0 + 1)));
                assert(spans_of(tr0).push((r0, r0 + 1)) + trivia_spans(bytes@, r0 + 1) =~= spans_of(tr0) + (seq![(r0, r0 + 1)] + trivia_spans(bytes@, r0 + 1)));
            }
            r = next;
        } else if b == 35 {
            // A comment runs to the end of the line.
            let start = r;
            r = step(bytes, r);
            let text_start = r.off;
            while r.off < bytes.len() && bytes[r.off] != 10 && bytes[r.off] != 13
                invariant
                    c.off <= start.off < text_start <= r.off <= bytes@.len(),
                    text_start == start.off + 1,
                    bytes@[start.off as int] == 35,
                    skip_end(bytes@, c.off as int) == skip_from(bytes@, r.off as int, true),
                    comment_end(bytes@, text_start as int) == comment_end(bytes@, r.off as int),
                    forall|k: int| start.off < k < r.off ==> #[trigger] bytes@[k] != 10 && bytes@[k] != 13,
                    r.ok(bytes@),
                    fits_offsets(bytes@),
                decreases bytes@.len() - r.off,
            {
                r = step(bytes, r);
            }
            let value = str_subslice(source, text_start, r.off).to_owned();
            let t = GraphQLTriviaToken::Comment { value, span: span_between(start, r, Ghost(bytes@)) };
            proof {
                assert(trivia_matches(bytes@, t));
                assert(comment_end(bytes@, r.off as int) == r.off);
                let e = r.off as int;
                assert(trivia_spans(bytes@, r0) == seq![(r0, e)] + trivia_spans(bytes@, e));
            }
            trivia.push(t);
            proof {
                let e = r.off as int;
                assert(spans_of(trivia@) =~= spans_of(tr0).push((r0, e)));
                assert(spans_of(tr0).push((r0, e)) + trivia_spans(bytes@, e) =~= spans_of(tr0) + (seq![(r0, e)] + trivia_spans(bytes@, e)));
            }
        } else if b == 0xEF && r.off + 2 < bytes.len() && bytes[r.off + 1] == 0xBB && bytes[r.off + 2] == 0xBF {
            r = step_n(bytes, r, 3);
        } else {
            assert(trivia_spans(bytes@, r0) =~= Seq::<(int, int)>::empty());
            assert(spans_of(trivia@) + trivia_spans(bytes@, r0) =~= spans_of(trivia@));
            break;
        }
    }
    proof {
        if r.off == bytes@.len() {
            assert(skip_from(bytes@, r.off as int, false) == r.off);
        }
    }
    (r, trivia)
}

// ── Names, keywords and punctuators ─────────────────────────────────

/// The characters of the ASCII bytes `bytes[a..b]`.
fn ascii_string(bytes: &[u8], a: usize, b: usize) -> (s: String)
    requires
        a <= b <= bytes@.len(),
    ensures
        s@ == ascii_chars(bytes@.subrange(a as int, b as int)),
{
    let mut s = String::new();
    let mut i = a;
    while i < b
        invariant
            a <= i <= b <= bytes@.len(),
            s@ == ascii_chars(bytes@.subrange(a as int, i as int)),
        decreases b - i,
    {
        string_push(&mut s, bytes[i] as char);
        proof {
            assert(bytes@.subrange(a as int, i + 1) =~= bytes@.subrange(a as int, i as int).push(bytes@[i as int]));
        }
        i = i + 1;
    }
    s
}

/// The end of the name starting at `i`.
fn scan_name(bytes: &[u8], i: usize) -> (j: usize)
    requires
        i < bytes@.len(),
        fits_offsets(bytes@),
        is_name_start(bytes@[i as int]),
    ensures
        i < j <= bytes@.len(),
        is_name_text(bytes@.subrange(i as int, j as int)),
        j == bytes@.len() || !is_name_continue(bytes@[j as int]),
{
    let mut j = i + 1;
    while j < bytes.len() && (bytes[j] == 95 || (65 <= bytes[j] && bytes[j] <= 90) || (97 <= bytes[j]
        && bytes[j] <= 122) || (48 <= bytes[j] && bytes[j] <= 57))
        invariant
            i < j <= bytes@.len(),
            is_name_start(bytes@[i as int]),
            forall|k: int| i < k < j ==> is_name_continue(#[trigger] bytes@[k]),
        decreases bytes@.len() - j,
    {
        j = j + 1;
    }
    assert forall|k: int| 1 <= k < j - i implies is_name_continue(#[trigger] bytes@.subrange(i as int, j as int)[k]) by {
        assert(bytes@.subrange(i as int, j as int)[k] == bytes@[i + k]);
    }
    j
}

/// Whether `bytes[a..b]` is the word `w`.
fn is_word(bytes: &[u8], a: usize, b: usize, w: &[u8]) -> (r: bool)
    requires
        a <= b <= bytes@.len(),
    ensures
        r == (bytes@.subrange(a as int, b as int) == w@),
{
    if b - a != w.len() {
        proof {
            assert(bytes@.subrange(a as int, b as int).len() != w@.len());
        }
        return false;
    }
    let mut k: usize = 0;
    while k < w.len()
        invariant
            b - a == w@.len(),
            a <= b <= bytes@.len(),
            k <= w@.len(),
            forall|m: int| 0 <= m < k ==> bytes@[a + m] == w@[m],
        decreases w@.len() - k,
    {
        if bytes[a + k] != w[k] {
            proof {
                assert(bytes@.subrange(a as int, b as int)[k as int] != w@[k as int]);
            }
            return false;
        }
        k = k + 1;
    }
    proof {
        assert(bytes@.subrange(a as int, b as int) =~= w@);
    }
    true
}

/// A name, or the keyword `true`, `false` or `null`, starting at `c`.
fn lex_name(bytes: &[u8], c: Cursor) -> (r: (GraphQLToken, Cursor))
    requires
        c.off < bytes@.len(),
        is_name_start(bytes@[c.off as int]),
        c.ok(bytes@),
        fits_offsets(bytes@),
    ensures
        token_matches(bytes@, r.0),
        token_start(r.0) == c.off,
        token_end(r.0) == r.1.off,
        c.off < r.1.off <= bytes@.len(),
        r.1.ok(bytes@),
        !(r.0.kind is Eof),
{
    let e = scan_name(bytes, c.off);
    let end = step_n(bytes, c, e - c.off);
    let span = span_between(c, end, Ghost(bytes@));
    let t: [u8; 4] = [116, 114, 117, 101];
    let f: [u8; 5] = [102, 97, 108, 115, 101];
    let n: [u8; 4] = [110, 117, 108, 108];
    proof {
        assert(t@ == true_bytes());
        assert(f@ == false_bytes());
        assert(n@ == null_bytes());
    }
    let kind = if is_word(bytes, c.off, e, &t) {
        GraphQLTokenKind::True
    } else if is_word(bytes, c.off, e, &f) {
        GraphQLTokenKind::False
    } else if is_word(bytes, c.off, e, &n) {
        GraphQLTokenKind::Null
    } else {
        GraphQLTokenKind::Name(ascii_string(bytes, c.off, e))
    };
    (GraphQLToken { kind, preceding_trivia: Vec::new(), span }, end)
}

/// The one-byte punctuator token kind of `b`, if it is one.
fn punctuator(b: u8) -> (k: Option<GraphQLTokenKind>)
    ensures
        k == punctuator_of(b),
        k matches Some(kind) ==> punctuator_byte(kind) == Some(b) && !(kind is Eof) && !(kind is Error),
{
    if b == 38 {
        Some(GraphQLTokenKind::Ampersand)
    } else if b == 64 {
        Some(GraphQLTokenKind::At)
    } else if b == 33 {
        Some(GraphQLTokenKind::Bang)
    } else if b == 58 {
        Some(GraphQLTokenKind::Colon)
    } else if b == 125 {
        Some(GraphQLTokenKind::CurlyBraceClose)
    } else if b == 123 {
        Some(GraphQLTokenKind::CurlyBraceOpen)
    } else if b == 36 {
        Some(GraphQLTokenKind::Dollar)
    } else if b == 61 {
        Some(GraphQLTokenKind::Equals)
    } else if b == 41 {
        Some(GraphQLTokenKind::ParenClose)
    } else if b == 40 {
        Some(GraphQLTokenKind::ParenOpen)
    } else if b == 124 {
        Some(GraphQLTokenKind::Pipe)
    } else if b == 93 {
        Some(GraphQLTokenKind::SquareBracketClose)
    } else if b == 91 {
        Some(GraphQLTokenKind::SquareBracketOpen)
    } else {
        None
    }
}

// ── Numbers ─────────────────────────────────────────────────────────

/// The end of the run of digits starting at `i`.
fn scan_digits(bytes: &[u8], i: usize) -> (j: usize)
    requires
        i <= bytes@.len(),
    ensures
        j == i + digits_run(bytes@, i as int),
        j <= bytes@.len(),
        j == bytes@.len() || !is_digit(bytes@[j as int]),
{
    let mut j = i;
    while j < bytes.len() && 48 <= bytes[j] && bytes[j] <= 57
        invariant
            i <= j <= bytes@.len(),
            digits_run(bytes@, i as int) == (j - i) + digits_run(bytes@, j as int),
        decreases bytes@.len() - j,
    {
        j = j + 1;
    }
    j
}

/// A run of digits inside `bytes[a..b]` is the same run in the text.
proof fn lemma_digits_run_sub(bytes: Seq<u8>, a: int, b: int, i: int)
    requires
        0 <= a <= b <= bytes.len(),
        0 <= i,
        a + i <= b,
        a + i + digits_run(bytes, a + i) <= b,
    ensures
        digits_run(bytes.subrange(a, b), i) == digits_run(bytes, a + i),
    decreases b - a - i,
{
    if a + i < b && is_digit(bytes[a + i]) {
        lemma_digits_run_sub(bytes, a, b, i + 1);
    }
}

/// A run of digits in `bytes` that ends at a non-digit (or at `b`) is a
/// run in the text `bytes[a..b]`.
proof fn lemma_digits_run_stop(bytes: Seq<u8>, a: int, b: int, i: int)
    requires
        0 <= a <= b <= bytes.len(),
        0 <= i,
        a + i <= b,
        a + i + digits_run(bytes, a + i) >= b,
    ensures
        digits_run(bytes.subrange(a, b), i) == b - a - i,
    decreases b - a - i,
{
    if a + i < b {
        assert(is_digit(bytes[a + i]));
        lemma_digits_run_stop(bytes, a, b, i + 1);
    }
}

/// The text `bytes[a..e]` scanned as a number is an integer literal (with
/// neither fraction nor exponent) or a float literal.
proof fn lemma_number_text(
    bytes: Seq<u8>,
    a: int,
    d0: int,
    d1: int,
    fe: int,
    x: int,
    e: int,
    has_frac: bool,
    has_exp: bool,
)
    requires
        0 <= a <= d0 <= d1 <= fe <= e <= bytes.len(),
        d0 == a + sign_len(bytes.subrange(a, e)),
        d0 == a + 1 ==> bytes[a] == 45,
        d0 == a ==> bytes[a] != 45,
        d1 == d0 + digits_run(bytes, d0),
        d1 > d0,
        bytes[d0] != 48 || d1 == d0 + 1,
        has_frac ==> d1 < bytes.len() && bytes[d1] == 46 && fe == d1 + 1 + digits_run(bytes, d1 + 1) && fe
            > d1 + 1,
        !has_frac ==> fe == d1 && (d1 < bytes.len() ==> bytes[d1] != 46),
        has_exp ==> fe < bytes.len() && is_exp_mark(bytes[fe]) && x == (if fe + 1 < bytes.len() && is_sign(
            bytes[fe + 1],
        ) {
            fe + 2
        } else {
            fe + 1
        }) && e == x + digits_run(bytes, x) && e > x,
        !has_exp ==> e == fe && (fe < bytes.len() ==> !is_exp_mark(bytes[fe])),
    ensures
        !has_frac && !has_exp ==> is_int_text(bytes.subrange(a, e)),
        has_frac || has_exp ==> is_float_text(bytes.subrange(a, e)),
{
    let text = bytes.subrange(a, e);
    let k = d0 - a;
    lemma_digits_run_sub(bytes, a, e, k);
    assert(int_part_end(text) == d1 - a);
    assert(text[k] == bytes[d0]);
    if has_frac {
        assert(text[d1 - a] == 46);
        lemma_digits_run_sub(bytes, a, e, d1 - a + 1);
        assert(frac_end(text) == fe - a);
    } else {
        if d1 < e {
            assert(text[d1 - a] == bytes[d1]);
        }
        assert(frac_end(text) == fe - a);
    }
    if has_exp {
        assert(text[fe - a] == bytes[fe]);
        if fe + 1 < e {
            assert(text[fe - a + 1] == bytes[fe + 1]);
        }
        assert(exp_digits_start(text, fe - a) == x - a);
        lemma_digits_run_stop(bytes, a, e, x - a);
    }
}

/// A number token starting at `c` (at `-` or a digit): an integer or a
/// float literal, or an error token for a malformed number.
fn lex_number(bytes: &[u8], c: Cursor) -> (r: (GraphQLToken, Cursor))
    requires
        c.off < bytes@.len(),
        bytes@[c.off as int] == 45 || is_digit(bytes@[c.off as int]),
        c.ok(bytes@),
        fits_offsets(bytes@),
    ensures
        token_matches(bytes@, r.0),
        token_start(r.0) == c.off,
        token_end(r.0) == r.1.off,
        c.off < r.1.off <= bytes@.len(),
        r.1.ok(bytes@),
        !(r.0.kind is Eof),
{
    let a = c.off;
    let d0 = if bytes[a] == 45 {
        a + 1
    } else {
        a
    };
    let d1 = scan_digits(bytes, d0);
    let mut ok = d1 > d0 && (bytes[d0] != 48 || d1 == d0 + 1);
    let mut fe = d1;
    let mut has_frac = false;
    if ok && d1 < bytes.len() && bytes[d1] == 46 {
        let f1 = scan_digits(bytes, d1 + 1);
        if f1 == d1 + 1 {
            ok = false;
        } else {
            has_frac = true;
        }
        fe = f1;
    }
    let mut e = fe;
    let mut x = fe;
    let mut has_exp = false;
    if ok && fe < bytes.len() && (bytes[fe] == 101 || bytes[fe] == 69) {
        x = if fe + 1 < bytes.len() && (bytes[fe + 1] == 43 || bytes[fe + 1] == 45) {
            fe + 2
        } else {
            fe + 1
        };
        let x1 = scan_digits(bytes, x);
        if x1 == x {
            ok = false;
        } else {
            has_exp = true;
        }
        e = x1;
    }
    if ok && e < bytes.len() && (bytes[e] == 46 || bytes[e] == 95 || (65 <= bytes[e] && bytes[e] <= 90) || (97
        <= bytes[e] && bytes[e] <= 122)) {
        ok = false;
    }
    proof {
        assert(d0 == num_d0(bytes@, a as int));
        assert(d1 == num_d1(bytes@, a as int));
        if ok {
            assert(fe == num_fe(bytes@, a as int));
            assert(e == num_end(bytes@, a as int));
        }
        assert(ok == num_ok(bytes@, a as int));
        if !ok {
            assert forall|e2: int| !#[trigger] number_token_at(bytes@, a as int, e2) by {
                if number_token_at(bytes@, a as int, e2) {
                    lemma_number_token_read(bytes@, a as int, e2);
                }
            }
        }
    }
    if !ok {
        let end_off = if e > a {
            e
        } else {
            a + 1
        };
        let end = step_n(bytes, c, end_off - a);
        let kind = GraphQLTokenKind::Error {
            message: "invalid number".to_owned(),
            notes: GraphQLErrorNotes::new(),
        };
        return (GraphQLToken { kind, preceding_trivia: Vec::new(), span: span_between(c, end, Ghost(bytes@)) }, end);
    }
    proof {
        assert(bytes@.subrange(a as int, e as int)[0] == bytes@[a as int]);
        lemma_number_text(bytes@, a as int, d0 as int, d1 as int, fe as int, x as int, e as int, has_frac, has_exp);
    }
    let value = ascii_string(bytes, a, e);
    let kind = if has_frac || has_exp {
        GraphQLTokenKind::FloatValue(value)
    } else {
        GraphQLTokenKind::IntValue(value)
    };
    let end = step_n(bytes, c, e - a);
    (GraphQLToken { kind, preceding_trivia: Vec::new(), span: span_between(c, end, Ghost(bytes@)) }, end)
}

// ── Strings ─────────────────────────────────────────────────────────

/// The character with the given code point, if it is one (std's
/// `char::from_u32`).
#[verifier::external_body]
fn char_from_u32(u: u32) -> (r: Option<char>)
    ensures
        r is Some <==> (u <= 0x10FFFF && !(0xD800 <= u <= 0xDFFF)),
        r matches Some(ch) ==> ch as u32 == u,
{
    char::from_u32(u)
}

/// A hexadecimal digit.
pub open spec fn is_hex_digit(b: u8) -> bool {
    (48 <= b <= 57) || (65 <= b <= 70) || (97 <= b <= 102)
}

/// The value of a hexadecimal digit.
pub open spec fn hex_digit_value(b: u8) -> int {
    if 48 <= b <= 57 {
        b - 48
    } else if 65 <= b <= 70 {
        b - 55
    } else {
        b - 87
    }
}

/// The value of the `k` hexadecimal digits at `i`.
pub open spec fn hex_prefix_value(bytes: Seq<u8>, i: int, k: nat) -> int
    decreases k,
{
    if k == 0 {
        0
    } else {
        hex_prefix_value(bytes, i, (k - 1) as nat) * 16 + hex_digit_value(bytes[i + k - 1])
    }
}

/// Four hexadecimal digits stand at `i`.
pub open spec fn hex_digits_at(bytes: Seq<u8>, i: int) -> bool {
    &&& 0 <= i
    &&& i + 4 <= bytes.len()
    &&& forall|k: int| i <= k < i + 4 ==> is_hex_digit(#[trigger] bytes[k])
}

/// The code unit of the four hexadecimal digits at `i`.
pub open spec fn hex4_value(bytes: Seq<u8>, i: int) -> int {
    hex_prefix_value(bytes, i, 4)
}

/// A Unicode scalar value: a code point that is not a surrogate.
pub open spec fn is_scalar_value(v: int) -> bool {
    0 <= v <= 0x10FFFF && !(0xD800 <= v <= 0xDFFF)
}

/// The character of the `\uXXXX` escape at `i` (the backslash), with the
/// offset after it: a high surrogate must be followed by a `\uXXXX` low
/// surrogate escape, and the two make one character.
pub open spec fn unicode_escape_at(bytes: Seq<u8>, i: int) -> Option<(char, int)> {
    if !hex_digits_at(bytes, i + 2) {
        None
    } else {
        let hi = hex4_value(bytes, i + 2);
        if 0xD800 <= hi <= 0xDBFF {
            if i + 8 <= bytes.len() && bytes[i + 6] == 92 && bytes[i + 7] == 117 && hex_digits_at(bytes, i + 8)
                && 0xDC00 <= hex4_value(bytes, i + 8) <= 0xDFFF {
                let code = 0x10000 + (hi - 0xD800) * 0x400 + (hex4_value(bytes, i + 8) - 0xDC00);
                if is_scalar_value(code) {
                    Some(((code as u32) as char, i + 12))
                } else {
                    None
                }
            } else {
                None
            }
        } else if is_scalar_value(hi) {
            Some(((hi as u32) as char, i + 6))
        } else {
            None
        }
    }
}

/// The value of a hexadecimal digit.
fn hex_value(b: u8) -> (r: Option<u32>)
    ensures
        r is Some <==> is_hex_digit(b),
        r matches Some(v) ==> v < 16 && v == hex_digit_value(b),
{
    if 48 <= b && b <= 57 {
        Some((b - 48) as u32)
    } else if 65 <= b && b <= 70 {
        Some((b - 55) as u32)
    } else if 97 <= b && b <= 102 {
        Some((b - 87) as u32)
    } else {
        None
    }
}

/// The code unit of the four hexadecimal digits at `i`, if they are.
fn hex4(bytes: &[u8], i: usize) -> (r: Option<u32>)
    requires
        i <= bytes@.len(),
        fits_offsets(bytes@),
    ensures
        r matches Some(v) ==> v < 0x10000 && i + 4 <= bytes@.len() && forall|k: int|
            i <= k < i + 4 ==> is_hex_digit(#[trigger] bytes@[k]),
        r is Some <==> hex_digits_at(bytes@, i as int),
        r matches Some(v) ==> v == hex4_value(bytes@, i as int),
{
    if bytes.len() - i < 4 {
        return None;
    }
    proof {
        reveal_with_fuel(hex_prefix_value, 5);
    }
    let mut v: u32 = 0;
    let mut k: usize = 0;
    while k < 4
        invariant
            i + 4 <= bytes@.len(),
            k <= 4,
            k == 0 ==> v == 0,
            k == 1 ==> v < 16,
            k == 2 ==> v < 256,
            k == 3 ==> v < 4096,
            k == 4 ==> v < 65536,
            fits_offsets(bytes@),
            forall|m: int| i <= m < i + k ==> is_hex_digit(#[trigger] bytes@[m]),
            v == hex_prefix_value(bytes@, i as int, k as nat),
        decreases 4 - k,
    {
        match hex_value(bytes[i + k]) {
            Some(d) => {
                v = v * 16 + d;
            },
            None => {
                proof {
                    assert(!is_hex_digit(bytes@[i + k]));
                }
                return None;
            },
        }
        k = k + 1;
    }
    Some(v)
}

/// The character of the `\uXXXX` escape at `i` (the backslash), with the
/// offset after it; a high surrogate followed by a `\uXXXX` low surrogate
/// escape makes one character.
fn unicode_escape(bytes: &[u8], i: usize) -> (r: Option<(char, usize)>)
    requires
        i + 2 <= bytes@.len(),
        fits_offsets(bytes@),
    ensures
        r matches Some(p) ==> i + 6 <= p.1 <= bytes@.len() && bytes@[p.1 - 1] < 0x80,
        match unicode_escape_at(bytes@, i as int) {
            Some((ch, n)) => r == Some((ch, n as usize)),
            None => r is None,
        },
{
    let hi = match hex4(bytes, i + 2) {
        Some(v) => v,
        None => {
            return None;
        },
    };
    assert(is_hex_digit(bytes@[i + 5]));
    if 0xD800 <= hi && hi <= 0xDBFF {
        if i + 8 <= bytes.len() && bytes[i + 6] == 92 && bytes[i + 7] == 117 {
            match hex4(bytes, i + 8) {
                Some(lo) => {
                    if 0xDC00 <= lo && lo <= 0xDFFF {
                        let code = 0x10000 + ((hi - 0xD800) * 0x400) + (lo - 0xDC00);
                        match char_from_u32(code) {
                            Some(ch) => {
                                assert(is_hex_digit(bytes@[i + 11]));
                                proof {
                                    vstd::utf8::char_u32_cast(ch, code);
                                }
                                return Some((ch, i + 12));
                            },
                            None => {
                                return None;
                            },
                        }
                    }
                },
                None => {},
            }
        }
        return None;
    }
    match char_from_u32(hi) {
        Some(ch) => {
            proof {
                vstd::utf8::char_u32_cast(ch, hi);
            }
            Some((ch, i + 6))
        },
        None => None,
    }
}

/// The character a one-letter escape sequence `\e` stands for, if `e` is
/// one.
pub open spec fn simple_escape(e: u8) -> Option<char> {
    if e == 34 {
        Some('"')
    } else if e == 92 {
        Some('\\')
    } else if e == 47 {
        Some('/')
    } else if e == 98 {
        Some('\u{8}')
    } else if e == 102 {
        Some('\u{c}')
    } else if e == 110 {
        Some('\n')
    } else if e == 114 {
        Some('\r')
    } else if e == 116 {
        Some('\t')
    } else {
        None
    }
}

/// The rest of a one-line string body after an escape sequence that ends
/// before offset `i`, with the character `c` in front.
pub open spec fn body_after_escape(bytes: Seq<u8>, i: int, c: char) -> Option<(Seq<char>, int)> {
    match string_body(bytes, i) {
        Some((v, e)) => Some((seq![c] + v, e)),
        None => None,
    }
}

/// The escape sequences of GraphQL strings stand for the characters the
/// GraphQL specification assigns them: `\"` for U+0022, `\\` for U+005C,
/// `\/` for U+002F, `\b` for U+0008, `\f` for U+000C, `\n` for U+000A, `\r`
/// for U+000D and `\t` for U+0009. A string body that starts with one of
/// them holds that character, followed by the body that comes after it.
pub proof fn law_string_escapes(bytes: Seq<u8>, i: int)
    requires
        0 <= i,
        i + 1 < bytes.len(),
        bytes[i] == 92,
    ensures
        bytes[i + 1] == 34 ==> string_body(bytes, i) == body_after_escape(bytes, i + 2, '\u{22}'),
        bytes[i + 1] == 92 ==> string_body(bytes, i) == body_after_escape(bytes, i + 2, '\u{5c}'),
        bytes[i + 1] == 47 ==> string_body(bytes, i) == body_after_escape(bytes, i + 2, '\u{2f}'),
        bytes[i + 1] == 98 ==> string_body(bytes, i) == body_after_escape(bytes, i + 2, '\u{8}'),
        bytes[i + 1] == 102 ==> string_body(bytes, i) == body_after_escape(bytes, i + 2, '\u{c}'),
        bytes[i + 1] == 110 ==> string_body(bytes, i) == body_after_escape(bytes, i + 2, '\u{a}'),
        bytes[i + 1] == 114 ==> string_body(bytes, i) == body_after_escape(bytes, i + 2, '\u{d}'),
        bytes[i + 1] == 116 ==> string_body(bytes, i) == body_after_escape(bytes, i + 2, '\u{9}'),
{
}

/// Hexadecimal digits have the values their characters name: the `d`-th
/// character of `0123456789abcdef`, and of `0123456789ABCDEF`, is a digit
/// worth `d`.
pub proof fn law_hex_digit_values(d: int)
    requires
        0 <= d < 16,
    ensures
        is_hex_digit("0123456789abcdef"@[d] as u8) && hex_digit_value("0123456789abcdef"@[d] as u8) == d,
        is_hex_digit("0123456789ABCDEF"@[d] as u8) && hex_digit_value("0123456789ABCDEF"@[d] as u8) == d,
{
    reveal_strlit("0123456789abcdef");
    reveal_strlit("0123456789ABCDEF");
}

/// A `\uXXXX` escape whose four hexadecimal digits name a code point that
/// is not a surrogate stands for the character with that code point,
/// followed by the body after the escape.
pub proof fn law_unicode_escape(bytes: Seq<u8>, i: int)
    requires
        0 <= i,
        i + 6 <= bytes.len(),
        bytes[i] == 92,
        bytes[i + 1] == 117,
        hex_digits_at(bytes, i + 2),
        !(0xD800 <= 4096 * hex_digit_value(bytes[i + 2]) + 256 * hex_digit_value(bytes[i + 3]) + 16
            * hex_digit_value(bytes[i + 4]) + hex_digit_value(bytes[i + 5]) <= 0xDFFF),
    ensures
        ({
            let v = 4096 * hex_digit_value(bytes[i + 2]) + 256 * hex_digit_value(bytes[i + 3]) + 16
                * hex_digit_value(bytes[i + 4]) + hex_digit_value(bytes[i + 5]);
            string_body(bytes, i) == body_after_escape(bytes, i + 6, (v as u32) as char)
        }),
{
    reveal_with_fuel(hex_prefix_value, 5);
    assert forall|k: int| i + 2 <= k < i + 6 implies 0 <= #[trigger] hex_digit_value(bytes[k]) < 16 by {
        assert(is_hex_digit(bytes[k]));
    }
}

/// A byte that ends a run of plain string text: a quote, a backslash or a
/// line terminator.
pub open spec fn is_string_special(b: u8) -> bool {
    b == 34 || b == 92 || b == 10 || b == 13
}

/// Where the run of plain string text from `i` ends.
pub open spec fn run_end(bytes: Seq<u8>, i: int) -> int
    decreases bytes.len() - i,
{
    if i < 0 || i >= bytes.len() || is_string_special(bytes[i]) {
        i
    } else {
        run_end(bytes, i + 1)
    }
}

/// A run ends at or after where it starts.
pub proof fn lemma_run_end(bytes: Seq<u8>, i: int)
    requires
        0 <= i,
    ensures
        i <= run_end(bytes, i),
        run_end(bytes, i) <= bytes.len() || run_end(bytes, i) == i,
        i < bytes.len() && !is_string_special(bytes[i]) ==> i < run_end(bytes, i),
    decreases bytes.len() - i,
{
    if i < bytes.len() && !is_string_special(bytes[i]) {
        lemma_run_end(bytes, i + 1);
    }
}

/// The value of a one-line string whose text after the opening quote
/// starts at `i`, with the offset of its closing quote: plain text as it
/// is, escape sequences replaced by the characters they stand for. None
/// when a line terminator or the end of the source comes first, or an
/// escape sequence is invalid.
pub open spec fn string_body(bytes: Seq<u8>, i: int) -> Option<(Seq<char>, int)>
    decreases bytes.len() - i,
{
    if i < 0 || i >= bytes.len() || bytes[i] == 10 || bytes[i] == 13 {
        None
    } else if bytes[i] == 34 {
        Some((Seq::empty(), i))
    } else if bytes[i] == 92 {
        if i + 1 >= bytes.len() {
            None
        } else {
            match simple_escape(bytes[i + 1]) {
                Some(ch) => match string_body(bytes, i + 2) {
                    Some((v, e)) => Some((seq![ch] + v, e)),
                    None => None,
                },
                None => if bytes[i + 1] == 117 {
                    match unicode_escape_at(bytes, i) {
                        Some((ch, n)) => if n > i {
                            match string_body(bytes, n) {
                                Some((v, e)) => Some((seq![ch] + v, e)),
                                None => None,
                            }
                        } else {
                            None
                        },
                        None => None,
                    }
                } else {
                    None
                },
            }
        }
    } else {
        let j = run_end(bytes, i);
        proof {
            lemma_run_end(bytes, i);
        }
        if j > i {
            match string_body(bytes, j) {
                Some((v, e)) => Some((decode_utf8(bytes.subrange(i, j)) + v, e)),
                None => None,
            }
        } else {
            None
        }
    }
}

/// A run of plain text from `run` stopped at `i` ends there.
proof fn lemma_run_to(bytes: Seq<u8>, run: int, i: int)
    requires
        0 <= run <= i <= bytes.len(),
        forall|k: int| run <= k < i ==> !is_string_special(#[trigger] bytes[k]),
        i == bytes.len() || is_string_special(bytes[i]),
    ensures
        run_end(bytes, run) == i,
    decreases i - run,
{
    if run < i {
        lemma_run_to(bytes, run + 1, i);
    }
}

/// The value of a string from `run` is its plain text up to `i` followed by
/// its value from `i`.
proof fn lemma_body_run(bytes: Seq<u8>, run: int, i: int)
    requires
        0 <= run <= i <= bytes.len(),
        forall|k: int| run <= k < i ==> !is_string_special(#[trigger] bytes[k]),
        i == bytes.len() || is_string_special(bytes[i]),
    ensures
        string_body(bytes, run) == match string_body(bytes, i) {
            Some((v, e)) => Some((decode_utf8(bytes.subrange(run, i)) + v, e)),
            None => None::<(Seq<char>, int)>,
        },
{
    if run < i {
        lemma_run_to(bytes, run, i);
        assert(!is_string_special(bytes[run]));
    } else {
        assert(bytes.subrange(run, i) =~= Seq::<u8>::empty());
        assert(decode_utf8(Seq::<u8>::empty()) =~= Seq::<char>::empty());
        match string_body(bytes, i) {
            Some((v, e)) => {
                assert(Seq::<char>::empty() + v =~= v);
            },
            None => {},
        }
    }
}

/// An error token from `c` to `end`.
fn error_token(c: Cursor, end: Cursor, message: &str, Ghost(bytes): Ghost<Seq<u8>>) -> (t: GraphQLToken)
    requires
        c.ok(bytes),
        end.ok(bytes),
    ensures
        t.kind is Error,
        token_start(t) == c.off,
        token_end(t) == end.off,
        t.span.file_path is None,
        span_placed(bytes, t.span),
{
    GraphQLToken {
        kind: GraphQLTokenKind::Error { message: message.to_owned(), notes: GraphQLErrorNotes::new() },
        preceding_trivia: Vec::new(),
        span: span_between(c, end, Ghost(bytes)),
    }
}

/// A string token starting at the quote at `c`: a block string if three
/// quotes open it, else a one-line string with escape sequences. An
/// unterminated string or a bad escape sequence gives an error token.
fn lex_string(source: &str, bytes: &[u8], c: Cursor) -> (r: (GraphQLToken, Cursor))
    requires
        bytes@ == source.spec_bytes(),
        c.off < bytes@.len(),
        bytes@[c.off as int] == 34,
        c.ok(bytes@),
        fits_offsets(bytes@),
    ensures
        token_matches(bytes@, r.0),
        token_start(r.0) == c.off,
        token_end(r.0) == r.1.off,
        c.off < r.1.off <= bytes@.len(),
        r.1.ok(bytes@),
        !(r.0.kind is Eof),
        !(bytes@.len() - c.off >= 3 && bytes@[c.off + 1] == 34 && bytes@[c.off + 2] == 34) ==> match string_body(
            bytes@,
            c.off + 1,
        ) {
            Some((v, e)) => (r.0.kind matches GraphQLTokenKind::StringValue { value, is_block } && value@ == v
                && !is_block) && token_end(r.0) == e + 1,
            None => r.0.kind is Error,
        },
{
    if bytes.len() - c.off >= 3 && bytes[c.off + 1] == 34 && bytes[c.off + 2] == 34 {
        return lex_block_string(source, bytes, c);
    }
    let mut value = String::new();
    let mut i = c.off + 1;
    let mut run = i;
    let mut bad = false;
    let ghost start = c.off + 1;
    proof {
        assert(value@ + Seq::<char>::empty() =~= Seq::<char>::empty());
    }
    loop
        invariant
            bytes@ == source.spec_bytes(),
            c.off < run <= i <= bytes@.len(),
            bytes@[run - 1] < 0x80,
            bytes@[c.off as int] == 34,
            !(c.off + 3 <= bytes@.len() && bytes@[c.off + 1] == 34 && bytes@[c.off + 2] == 34),
            c.ok(bytes@),
            fits_offsets(bytes@),
            start == c.off + 1,
            !bad ==> forall|k: int| run <= k < i ==> !is_string_special(#[trigger] bytes@[k]),
            !bad ==> string_body(bytes@, start) == match string_body(bytes@, run as int) {
                Some((v, e)) => Some((value@ + v, e)),
                None => None::<(Seq<char>, int)>,
            },
            bad ==> string_body(bytes@, start) is None,
        decreases bytes@.len() - i,
    {
        if i == bytes.len() || bytes[i] == 10 || bytes[i] == 13 {
            proof {
                if !bad {
                    lemma_body_run(bytes@, run as int, i as int);
                }
            }
            let end = step_n(bytes, c, i - c.off);
            return (error_token(c, end, "unterminated string", Ghost(bytes@)), end);
        }
        let b = bytes[i];
        if b == 34 {
            if bad {
                let end = step_n(bytes, c, i + 1 - c.off);
                return (error_token(c, end, "invalid escape sequence in string", Ghost(bytes@)), end);
            }
            proof {
                lemma_body_run(bytes@, run as int, i as int);
            }
            let piece = str_subslice(source, run, i);
            proof {
                vstd::utf8::encode_utf8_decode_utf8(piece@);
                assert(piece@ == decode_utf8(bytes@.subrange(run as int, i as int)));
                assert(value@ + piece@ + Seq::<char>::empty() =~= value@ + piece@);
            }
            value.append(piece);
            let end = step_n(bytes, c, i + 1 - c.off);
            let kind = GraphQLTokenKind::StringValue { value, is_block: false };
            return (GraphQLToken { kind, preceding_trivia: Vec::new(), span: span_between(c, end, Ghost(bytes@)) }, end);
        } else if b == 92 {
            let ghost before = value@;
            if !bad {
                proof {
                    lemma_body_run(bytes@, run as int, i as int);
                }
                let piece = str_subslice(source, run, i);
                proof {
                    vstd::utf8::encode_utf8_decode_utf8(piece@);
                    assert(piece@ == decode_utf8(bytes@.subrange(run as int, i as int)));
                }
                value.append(piece);
            }
            let ghost after_run = value@;
            proof {
                if !bad {
                    assert(string_body(bytes@, start) == match string_body(bytes@, i as int) {
                        Some((v, e)) => Some((after_run + v, e)),
                        None => None::<(Seq<char>, int)>,
                    }) by {
                        match string_body(bytes@, i as int) {
                            Some((v, e)) => {
                                assert(before + (decode_utf8(bytes@.subrange(run as int, i as int)) + v) =~= after_run + v);
                            },
                            None => {},
                        }
                    }
                }
            }
            if i + 1 == bytes.len() {
                let end = step_n(bytes, c, i + 1 - c.off);
                return (error_token(c, end, "unterminated string", Ghost(bytes@)), end);
            }
            let e = bytes[i + 1];
            let simple = if e == 34 {
                Some('"')
            } else if e == 92 {
                Some('\\')
            } else if e == 47 {
                Some('/')
            } else if e == 98 {
                Some('\u{8}')
            } else if e == 102 {
                Some('\u{c}')
            } else if e == 110 {
                Some('\n')
            } else if e == 114 {
                Some('\r')
            } else if e == 116 {
                Some('\t')
            } else {
                None
            };
            proof {
                assert(simple == simple_escape(e));
            }
            match simple {
                Some(ch) => {
                    string_push(&mut value, ch);
                    i = i + 2;
                    proof {
                        if !bad {
                            lemma_prepend(after_run, ch, string_body(bytes@, i as int));
                        }
                    }
                },
                None => {
                    if e == 117 {
                        match unicode_escape(bytes, i) {
                            Some((ch, next)) => {
                                string_push(&mut value, ch);
                                i = next;
                                proof {
                                    if !bad {
                                        lemma_prepend(after_run, ch, string_body(bytes@, i as int));
                                    }
                                }
                            },
                            None => {
                                bad = true;
                                i = i + 2;
                            },
                        }
                    } else {
                        bad = true;
                        i = i + 1;
                    }
                },
            }
            if !bad {
                run = i;
            }
        } else {
            i = i + 1;
        }
    }
}

/// A value prepended with one character, through an optional value.
proof fn lemma_prepend(pre: Seq<char>, ch: char, rest: Option<(Seq<char>, int)>)
    ensures
        match (match rest {
            Some((v, e)) => Some((seq![ch] + v, e)),
            None => None::<(Seq<char>, int)>,
        }) {
            Some((v, e)) => Some((pre + v, e)),
            None => None::<(Seq<char>, int)>,
        } == match rest {
            Some((v, e)) => Some((pre.push(ch) + v, e)),
            None => None::<(Seq<char>, int)>,
        },
{
    match rest {
        Some((v, e)) => {
            assert(pre + (seq![ch] + v) =~= pre.push(ch) + v);
        },
        None => {},
    }
}

/// A line of a block string: its start, end and indentation (in bytes of
/// the source), with the text before its start and its indentation ASCII.
pub open spec fn block_line_ok(bytes: Seq<u8>, s: int, q: int, line: (usize, usize, usize)) -> bool {
    let (ls, le, ind) = line;
    &&& s <= ls <= ls + ind <= le <= q <= bytes.len()
    &&& ls >= 1 && bytes[ls - 1] < 0x80
    &&& forall|k: int| ls <= k < ls + ind ==> (#[trigger] bytes[k] == 32 || bytes[k] == 9)
    &&& (le == q || bytes[le as int] == 10 || bytes[le as int] == 13)
}

/// Three quotes stand at `i` in `bytes`, before `b`.
pub open spec fn triple_quote_at(bytes: Seq<u8>, i: int, b: int) -> bool {
    &&& 0 <= i
    &&& i + 3 <= b
    &&& b <= bytes.len()
    &&& bytes[i] == 34
    &&& bytes[i + 1] == 34
    &&& bytes[i + 2] == 34
}

/// The bytes `bytes[j..b]` of block string text with each escaped triple
/// quote (a backslash and three quotes) replaced by three quotes.
pub open spec fn block_unescape(bytes: Seq<u8>, j: int, b: int) -> Seq<u8>
    decreases b - j,
{
    if j < 0 || j >= b {
        Seq::empty()
    } else if bytes[j] == 92 && triple_quote_at(bytes, j + 1, b) {
        seq![34u8, 34u8, 34u8] + block_unescape(bytes, j + 4, b)
    } else {
        seq![bytes[j]] + block_unescape(bytes, j + 1, b)
    }
}

/// The encoding of two character sequences one after the other is their
/// encodings one after the other.
proof fn lemma_encode_concat(x: Seq<char>, y: Seq<char>)
    ensures
        encode_utf8(x + y) == encode_utf8(x) + encode_utf8(y),
    decreases x.len(),
{
    if x.len() == 0 {
        assert(x + y =~= y);
        assert(encode_utf8(x) =~= Seq::<u8>::empty());
        assert(Seq::<u8>::empty() + encode_utf8(y) =~= encode_utf8(y));
    } else {
        lemma_encode_concat(x.drop_first(), y);
        assert((x + y).drop_first() =~= x.drop_first() + y);
        assert((x + y)[0] == x[0]);
        assert(encode_utf8(x + y) =~= encode_utf8(x) + encode_utf8(y));
    }
}

/// A quote character is encoded as the byte 34.
proof fn lemma_encode_quote(s: Seq<char>)
    ensures
        encode_utf8(s.push('"')) == encode_utf8(s) + seq![34u8],
{
    lemma_encode_concat(s, seq!['"']);
    assert(s + seq!['"'] =~= s.push('"'));
    let q: u32 = '"' as u32;
    assert(q == 34);
    assert((34u32 & 0x7F) as u8 == 34u8) by (bit_vector);
    let one = seq!['"'];
    assert(one.drop_first() =~= Seq::<char>::empty());
    assert(one[0] as u32 == 34u32);
    assert(vstd::utf8::has_width_1_encoding(34u32));
    assert(vstd::utf8::leading_byte_width_1(34u32) == 34u8);
    assert(vstd::utf8::encode_scalar(34u32) =~= seq![34u8]);
    assert(encode_utf8(one.drop_first()) =~= Seq::<u8>::empty());
    assert(encode_utf8(one) == vstd::utf8::encode_scalar(one[0] as u32) + encode_utf8(one.drop_first()));
    assert(encode_utf8(one) =~= seq![34u8]);
}

/// The number of spaces and tabs that open `bytes[a..b]`.
pub open spec fn indent_len(bytes: Seq<u8>, a: int, b: int) -> nat
    decreases b - a,
{
    if a < b && (bytes[a] == 32 || bytes[a] == 9) {
        1 + indent_len(bytes, a + 1, b)
    } else {
        0
    }
}

/// The lines (start and end offsets, without their terminators) of block
/// string text from the line that starts at `ls`, scanning from `j`, up to
/// the closing quotes at `q`; `\n`, `\r\n` and `\r` end a line.
pub open spec fn block_lines(bytes: Seq<u8>, ls: int, j: int, q: int) -> Seq<(int, int)>
    decreases q + 1 - j,
{
    if j < ls || j > q {
        Seq::empty()
    } else if j == q {
        seq![(ls, q)]
    } else if bytes[j] == 10 || bytes[j] == 13 {
        let nj = if bytes[j] == 13 && j + 1 < q && bytes[j + 1] == 10 {
            j + 2
        } else {
            j + 1
        };
        seq![(ls, j)] + block_lines(bytes, nj, nj, q)
    } else {
        block_lines(bytes, ls, j + 1, q)
    }
}

/// The line holds only spaces and tabs.
pub open spec fn is_blank_line(bytes: Seq<u8>, l: (int, int)) -> bool {
    l.0 + indent_len(bytes, l.0, l.1) == l.1
}

/// The index of the first line among the first `k` that is not blank.
pub open spec fn first_text_line(bytes: Seq<u8>, lines: Seq<(int, int)>, k: int) -> Option<int>
    decreases k,
{
    if k <= 0 {
        None
    } else {
        match first_text_line(bytes, lines, k - 1) {
            Some(f) => Some(f),
            None => if !is_blank_line(bytes, lines[k - 1]) {
                Some(k - 1)
            } else {
                None
            },
        }
    }
}

/// The index of the last line among the first `k` that is not blank (0
/// when there is none).
pub open spec fn last_text_line(bytes: Seq<u8>, lines: Seq<(int, int)>, k: int) -> int
    decreases k,
{
    if k <= 0 {
        0
    } else if !is_blank_line(bytes, lines[k - 1]) {
        k - 1
    } else {
        last_text_line(bytes, lines, k - 1)
    }
}

/// The least indentation of the lines after the first, among the first
/// `k`, that are not blank (`None` when there is none).
pub open spec fn common_indent(bytes: Seq<u8>, lines: Seq<(int, int)>, k: int) -> Option<int>
    decreases k,
{
    if k <= 1 {
        None
    } else {
        let c = common_indent(bytes, lines, k - 1);
        let l = lines[k - 1];
        if is_blank_line(bytes, l) {
            c
        } else {
            let i = indent_len(bytes, l.0, l.1) as int;
            match c {
                Some(m) => Some(
                    if i < m {
                        i
                    } else {
                        m
                    },
                ),
                None => Some(i),
            }
        }
    }
}

/// The indentation a block string removes from its lines after the first is
/// the least indentation of those of them (among the first `k`) that are not
/// blank, and there is none when all of them are blank: the first line never
/// lowers it.
pub proof fn law_common_indent(bytes: Seq<u8>, lines: Seq<(int, int)>, k: int)
    requires
        0 <= k <= lines.len(),
    ensures
        common_indent(bytes, lines, k) is None <==> forall|i: int|
            1 <= i < k ==> is_blank_line(bytes, #[trigger] lines[i]),
        common_indent(bytes, lines, k) matches Some(m) ==> {
            &&& forall|i: int|
                1 <= i < k && !is_blank_line(bytes, #[trigger] lines[i]) ==> m <= indent_len(
                    bytes,
                    lines[i].0,
                    lines[i].1,
                )
            &&& exists|i: int|
                1 <= i < k && !is_blank_line(bytes, #[trigger] lines[i]) && m == indent_len(
                    bytes,
                    lines[i].0,
                    lines[i].1,
                )
        },
    decreases k,
{
    if k > 1 {
        law_common_indent(bytes, lines, k - 1);
        let l = lines[k - 1];
        let c = common_indent(bytes, lines, k - 1);
        if !is_blank_line(bytes, l) {
            let ind = indent_len(bytes, l.0, l.1) as int;
            match c {
                Some(m0) => {
                    if ind < m0 {
                        assert(1 <= k - 1 < k && !is_blank_line(bytes, lines[k - 1]));
                    } else {
                        let w = choose|i: int|
                            1 <= i < k - 1 && !is_blank_line(bytes, #[trigger] lines[i]) && m0 == indent_len(
                                bytes,
                                lines[i].0,
                                lines[i].1,
                            );
                        assert(1 <= w < k && !is_blank_line(bytes, lines[w]));
                    }
                },
                None => {
                    assert(1 <= k - 1 < k && !is_blank_line(bytes, lines[k - 1]));
                },
            }
        } else {
            if let Some(m0) = c {
                let w = choose|i: int|
                    1 <= i < k - 1 && !is_blank_line(bytes, #[trigger] lines[i]) && m0 == indent_len(
                        bytes,
                        lines[i].0,
                        lines[i].1,
                    );
                assert(1 <= w < k && !is_blank_line(bytes, lines[w]));
            }
        }
    }
}

/// The first line of a block string keeps all its indentation; a later
/// line loses the common indentation, or all of its own when it has less.
pub proof fn law_block_line_dedent(bytes: Seq<u8>, lines: Seq<(int, int)>, common: Option<int>, k: int)
    requires
        0 <= k < lines.len(),
    ensures
        k == 0 ==> block_line_text(bytes, lines, common, k) == block_unescape(bytes, lines[0].0, lines[0].1),
        k > 0 && common is Some && common->0 <= indent_len(bytes, lines[k].0, lines[k].1) ==> block_line_text(
            bytes,
            lines,
            common,
            k,
        ) == block_unescape(bytes, lines[k].0 + common->0, lines[k].1),
{
}

/// A block string's value starts at its first line that is not blank:
/// every line before it is blank, it is not, and there is none exactly when
/// all lines are blank.
pub proof fn law_first_text_line(bytes: Seq<u8>, lines: Seq<(int, int)>, k: int)
    requires
        0 <= k <= lines.len(),
    ensures
        first_text_line(bytes, lines, k) is None <==> forall|i: int| 0 <= i < k ==> is_blank_line(bytes, #[trigger] lines[i]),
        first_text_line(bytes, lines, k) matches Some(f) ==> 0 <= f < k && !is_blank_line(bytes, lines[f])
            && forall|i: int| 0 <= i < f ==> is_blank_line(bytes, #[trigger] lines[i]),
    decreases k,
{
    if k > 0 {
        law_first_text_line(bytes, lines, k - 1);
    }
}

/// A block string's value ends at its last line that is not blank: every
/// line after it is blank and it is not (when any line is not blank).
pub proof fn law_last_text_line(bytes: Seq<u8>, lines: Seq<(int, int)>, k: int)
    requires
        0 <= k <= lines.len(),
        exists|i: int| 0 <= i < k && !is_blank_line(bytes, #[trigger] lines[i]),
    ensures
        0 <= last_text_line(bytes, lines, k) < k,
        !is_blank_line(bytes, lines[last_text_line(bytes, lines, k)]),
        forall|i: int| last_text_line(bytes, lines, k) < i < k ==> is_blank_line(bytes, #[trigger] lines[i]),
    decreases k,
{
    if is_blank_line(bytes, lines[k - 1]) {
        let w = choose|i: int| 0 <= i < k && !is_blank_line(bytes, #[trigger] lines[i]);
        assert(0 <= w < k - 1 && !is_blank_line(bytes, lines[w]));
        law_last_text_line(bytes, lines, k - 1);
    }
}

/// The text of line `k` with the common indentation removed (none from the
/// first line) and escaped triple quotes unescaped.
pub open spec fn block_line_text(bytes: Seq<u8>, lines: Seq<(int, int)>, common: Option<int>, k: int) -> Seq<u8> {
    let l = lines[k];
    let ind = indent_len(bytes, l.0, l.1) as int;
    let rm = if k == 0 {
        0
    } else {
        match common {
            Some(m) => if m < ind {
                m
            } else {
                ind
            },
            None => 0,
        }
    };
    block_unescape(bytes, l.0 + rm, l.1)
}

/// Lines `k` to `last`, each as its text, joined by `\n`.
pub open spec fn joined_lines(bytes: Seq<u8>, lines: Seq<(int, int)>, common: Option<int>, k: int, last: int) -> Seq<u8>
    decreases last + 1 - k,
{
    if k > last {
        Seq::empty()
    } else {
        block_line_text(bytes, lines, common, k) + (if k < last {
            seq![10u8]
        } else {
            Seq::empty()
        }) + joined_lines(bytes, lines, common, k + 1, last)
    }
}

/// The value (as UTF-8) of the block string whose text runs from `s` to
/// the closing quotes at `q`: its lines with the common indentation of the
/// lines after the first removed, leading and trailing blank lines
/// dropped, joined by `\n`.
pub open spec fn block_string_value(bytes: Seq<u8>, s: int, q: int) -> Seq<u8> {
    let lines = block_lines(bytes, s, s, q);
    match first_text_line(bytes, lines, lines.len() as int) {
        None => Seq::empty(),
        Some(f) => joined_lines(
            bytes,
            lines,
            common_indent(bytes, lines, lines.len() as int),
            f,
            last_text_line(bytes, lines, lines.len() as int),
        ),
    }
}

/// The start and end offsets of the lines collected so far.
spec fn line_spans(lines: Seq<(usize, usize, usize)>) -> Seq<(int, int)> {
    lines.map_values(|l: (usize, usize, usize)| (l.0 as int, l.1 as int))
}

/// An optional count as an optional integer.
spec fn opt_int(o: Option<usize>) -> Option<int> {
    match o {
        Some(v) => Some(v as int),
        None => None,
    }
}

/// Appending `\n` appends its byte to the encoding.
proof fn lemma_encode_newline(s: Seq<char>)
    ensures
        encode_utf8(s.push('\n')) == encode_utf8(s) + seq![10u8],
{
    lemma_encode_concat(s, seq!['\n']);
    assert(s + seq!['\n'] =~= s.push('\n'));
    assert((10u32 & 0x7F) as u8 == 10u8) by (bit_vector);
    let one = seq!['\n'];
    assert(one.drop_first() =~= Seq::<char>::empty());
    assert(one[0] as u32 == 10u32);
    assert(vstd::utf8::has_width_1_encoding(10u32));
    assert(vstd::utf8::leading_byte_width_1(10u32) == 10u8);
    assert(vstd::utf8::encode_scalar(10u32) =~= seq![10u8]);
    assert(encode_utf8(one.drop_first()) =~= Seq::<u8>::empty());
    assert(encode_utf8(one) == vstd::utf8::encode_scalar(one[0] as u32) + encode_utf8(one.drop_first()));
    assert(encode_utf8(one) =~= seq![10u8]);
}

/// Appends `bytes[a..b]` to `out`, with each escaped triple quote (a
/// backslash and three quotes) written as three quotes.
fn append_block_text(source: &str, bytes: &[u8], a: usize, b: usize, out: &mut String)
    requires
        bytes@ == source.spec_bytes(),
        1 <= a <= b <= bytes@.len(),
        bytes@[a - 1] < 0x80,
        b == bytes@.len() || bytes@[b as int] < 0x80,
        fits_offsets(bytes@),
    ensures
        encode_utf8(final(out)@) == encode_utf8(old(out)@) + block_unescape(bytes@, a as int, b as int),
{
    let mut j = a;
    let mut run = a;
    proof {
        assert(encode_utf8(out@) + bytes@.subrange(run as int, j as int) + block_unescape(bytes@, j as int, b as int)
            =~= encode_utf8(old(out)@) + block_unescape(bytes@, a as int, b as int));
    }
    while j < b
        invariant
            bytes@ == source.spec_bytes(),
            1 <= run <= j <= b <= bytes@.len(),
            bytes@[run - 1] < 0x80,
            b == bytes@.len() || bytes@[b as int] < 0x80,
            fits_offsets(bytes@),
            encode_utf8(out@) + bytes@.subrange(run as int, j as int) + block_unescape(bytes@, j as int, b as int)
                == encode_utf8(old(out)@) + block_unescape(bytes@, a as int, b as int),
        decreases b - j,
    {
        let ghost o0 = out@;
        if bytes[j] == 92 && b - j >= 4 && bytes[j + 1] == 34 && bytes[j + 2] == 34 && bytes[j + 3] == 34 {
            let piece = str_subslice(source, run, j);
            out.append(piece);
            let ghost o1 = out@;
            string_push(out, '"');
            string_push(out, '"');
            string_push(out, '"');
            proof {
                lemma_encode_concat(o0, piece@);
                lemma_encode_quote(o1);
                lemma_encode_quote(o1.push('"'));
                lemma_encode_quote(o1.push('"').push('"'));
                assert(encode_utf8(out@) + bytes@.subrange(j + 4, j + 4) + block_unescape(bytes@, j + 4, b as int)
                    =~= encode_utf8(o0) + bytes@.subrange(run as int, j as int) + block_unescape(bytes@, j as int, b as int));
            }
            j = j + 4;
            run = j;
        } else {
            proof {
                assert(encode_utf8(out@) + bytes@.subrange(run as int, j + 1) + block_unescape(bytes@, j + 1, b as int)
                    =~= encode_utf8(out@) + bytes@.subrange(run as int, j as int) + block_unescape(bytes@, j as int, b as int));
            }
            j = j + 1;
        }
    }
    let ghost o0 = out@;
    let piece = str_subslice(source, run, b);
    out.append(piece);
    proof {
        lemma_encode_concat(o0, piece@);
        assert(block_unescape(bytes@, b as int, b as int) =~= Seq::<u8>::empty());
        assert(encode_utf8(out@) =~= encode_utf8(o0) + bytes@.subrange(run as int, b as int) + block_unescape(
            bytes@,
            b as int,
            b as int,
        ));
    }
}

/// Where the three quotes closing block string text from `i` stand, if
/// they do: the first triple quote that is not escaped by a backslash.
pub open spec fn block_end_from(bytes: Seq<u8>, i: int) -> Option<int>
    decreases bytes.len() - i,
{
    if i < 0 || i >= bytes.len() {
        None
    } else if triple_quote_at(bytes, i, bytes.len() as int) {
        Some(i)
    } else if bytes[i] == 92 && triple_quote_at(bytes, i + 1, bytes.len() as int) {
        block_end_from(bytes, i + 4)
    } else {
        block_end_from(bytes, i + 1)
    }
}

/// The offset of the three quotes closing a block string whose text starts
/// at `s` (an escaped triple quote does not close it), if there are.
fn find_block_end(bytes: &[u8], s: usize) -> (r: Option<usize>)
    requires
        s <= bytes@.len(),
        fits_offsets(bytes@),
    ensures
        r matches Some(q) ==> s <= q && q + 3 <= bytes@.len() && bytes@[q as int] == 34 && bytes@[q + 1] == 34
            && bytes@[q + 2] == 34,
        match block_end_from(bytes@, s as int) {
            Some(q) => r == Some(q as usize),
            None => r is None,
        },
        r matches Some(q) ==> block_end_from(bytes@, s as int) == Some(q as int),
{
    let mut i = s;
    while i < bytes.len()
        invariant
            s <= i <= bytes@.len(),
            fits_offsets(bytes@),
            block_end_from(bytes@, s as int) == block_end_from(bytes@, i as int),
        decreases bytes@.len() - i,
    {
        if bytes.len() - i >= 3 && bytes[i] == 34 && bytes[i + 1] == 34 && bytes[i + 2] == 34 {
            return Some(i);
        }
        if bytes[i] == 92 && bytes.len() - i >= 4 && bytes[i + 1] == 34 && bytes[i + 2] == 34 && bytes[i + 3] == 34 {
            i = i + 4;
        } else {
            i = i + 1;
        }
    }
    None
}

/// A block string starting at the three quotes at `c`. Its value is its
/// text with the common indentation of its lines after the first removed,
/// its leading and trailing blank lines dropped, and its lines joined by
/// `\n`.
fn lex_block_string(source: &str, bytes: &[u8], c: Cursor) -> (r: (GraphQLToken, Cursor))
    requires
        bytes@ == source.spec_bytes(),
        c.off + 3 <= bytes@.len(),
        bytes@[c.off as int] == 34,
        bytes@[c.off + 1] == 34,
        bytes@[c.off + 2] == 34,
        c.ok(bytes@),
        fits_offsets(bytes@),
    ensures
        token_matches(bytes@, r.0),
        token_start(r.0) == c.off,
        token_end(r.0) == r.1.off,
        c.off < r.1.off <= bytes@.len(),
        r.1.ok(bytes@),
        !(r.0.kind is Eof),
{
    let s = c.off + 3;
    let q = match find_block_end(bytes, s) {
        Some(q) => q,
        None => {
            let end = step_n(bytes, c, bytes.len() - c.off);
            return (error_token(c, end, "unterminated block string", Ghost(bytes@)), end);
        },
    };
    assert(block_end_from(bytes@, s as int) == Some(q as int));
    // Split the text into lines.
    let ghost all_lines = block_lines(bytes@, s as int, s as int, q as int);
    let mut lines: Vec<(usize, usize, usize)> = Vec::new();
    let mut ls = s;
    let mut j = s;
    proof {
        assert(line_spans(lines@) + block_lines(bytes@, ls as int, j as int, q as int) =~= all_lines);
    }
    while j <= q
        invariant_except_break
            line_spans(lines@) + block_lines(bytes@, ls as int, j as int, q as int) == all_lines,
        invariant
            s <= ls <= j,
            j <= q,
            q + 3 <= bytes@.len(),
            bytes@[q as int] == 34,
            ls >= 1 && bytes@[ls - 1] < 0x80,
            ls <= q,
            s == c.off + 3,
            bytes@[c.off + 2] == 34,
            all_lines == block_lines(bytes@, s as int, s as int, q as int),
            forall|k: int| 0 <= k < lines@.len() ==> block_line_ok(bytes@, s as int, q as int, #[trigger] lines@[k]),
            forall|k: int|
                0 <= k < lines@.len() ==> (#[trigger] lines@[k]).2 == indent_len(bytes@, lines@[k].0 as int, lines@[k].1 as int),
        ensures
            line_spans(lines@) == all_lines,
            forall|k: int| 0 <= k < lines@.len() ==> block_line_ok(bytes@, s as int, q as int, #[trigger] lines@[k]),
            forall|k: int|
                0 <= k < lines@.len() ==> (#[trigger] lines@[k]).2 == indent_len(bytes@, lines@[k].0 as int, lines@[k].1 as int),
        decreases q + 1 - j,
    {
        let ghost lines0 = lines@;
        if j == q || bytes[j] == 10 || bytes[j] == 13 {
            let mut ind: usize = 0;
            while ls + ind < j && (bytes[ls + ind] == 32 || bytes[ls + ind] == 9)
                invariant
                    ls + ind <= j,
                    j <= q,
                    q + 3 <= bytes@.len(),
                    forall|k: int| ls <= k < ls + ind ==> (#[trigger] bytes@[k] == 32 || bytes@[k] == 9),
                    indent_len(bytes@, ls as int, j as int) == ind + indent_len(bytes@, (ls + ind) as int, j as int),
                decreases j - ls - ind,
            {
                ind = ind + 1;
            }
            lines.push((ls, j, ind));
            proof {
                assert(lines@[lines@.len() - 1] == (ls, j, ind));
                assert(line_spans(lines@) =~= line_spans(lines0).push((ls as int, j as int)));
            }
            if j == q {
                proof {
                    assert(block_lines(bytes@, ls as int, j as int, q as int) == seq![(ls as int, q as int)]);
                    assert(line_spans(lines0).push((ls as int, j as int)) =~= line_spans(lines0) + seq![(ls as int, q as int)]);
                }
                break;
            }
            let ghost lsj = (ls as int, j as int);
            if bytes[j] == 13 && j + 1 < q && bytes[j + 1] == 10 {
                j = j + 2;
            } else {
                j = j + 1;
            }
            ls = j;
            proof {
                assert(line_spans(lines0).push(lsj) + block_lines(bytes@, ls as int, j as int, q as int) =~= line_spans(lines0)
                    + (seq![lsj] + block_lines(bytes@, ls as int, j as int, q as int)));
            }
        } else {
            j = j + 1;
        }
    }
    // The common indentation of the non-blank lines after the first, and
    // the first and last non-blank lines.
    let ghost n = all_lines.len() as int;
    let mut common: Option<usize> = None;
    let mut first: Option<usize> = None;
    let mut last: usize = 0;
    let mut k: usize = 0;
    while k < lines.len()
        invariant
            k <= lines@.len(),
            first matches Some(f) ==> f <= last < k,
            q + 3 <= bytes@.len(),
            line_spans(lines@) == all_lines,
            forall|m: int| 0 <= m < lines@.len() ==> block_line_ok(bytes@, s as int, q as int, #[trigger] lines@[m]),
            forall|m: int|
                0 <= m < lines@.len() ==> (#[trigger] lines@[m]).2 == indent_len(bytes@, lines@[m].0 as int, lines@[m].1 as int),
            opt_int(first) == first_text_line(bytes@, all_lines, k as int),
            last == last_text_line(bytes@, all_lines, k as int),
            opt_int(common) == common_indent(bytes@, all_lines, k as int),
        decreases lines@.len() - k,
    {
        let (a, b, ind) = lines[k];
        proof {
            assert(block_line_ok(bytes@, s as int, q as int, lines@[k as int]));
            assert(lines@[k as int].2 == indent_len(bytes@, lines@[k as int].0 as int, lines@[k as int].1 as int));
            assert(all_lines[k as int] == (a as int, b as int));
        }
        if a + ind < b {
            if first.is_none() {
                first = Some(k);
            }
            last = k;
            if k > 0 {
                common = match common {
                    Some(m) => if ind < m { Some(ind) } else { Some(m) },
                    None => Some(ind),
                };
            }
        }
        k = k + 1;
    }
    let mut value = String::new();
    let ghost common_i = opt_int(common);
    proof {
        assert(encode_utf8(value@) =~= Seq::<u8>::empty()) by {
            assert(value@ =~= Seq::<char>::empty());
        }
    }
    if let Some(f) = first {
        let mut k = f;
        proof {
            assert(encode_utf8(value@) + joined_lines(bytes@, all_lines, common_i, f as int, last as int) =~= joined_lines(
                bytes@,
                all_lines,
                common_i,
                f as int,
                last as int,
            ));
        }
        while k <= last
            invariant
                bytes@ == source.spec_bytes(),
                f <= k <= last + 1,
                last < lines.len(),
                fits_offsets(bytes@),
                q + 3 <= bytes@.len(),
                bytes@[q as int] == 34,
                line_spans(lines@) == all_lines,
                common_i == opt_int(common),
                forall|m: int| 0 <= m < lines@.len() ==> block_line_ok(bytes@, s as int, q as int, #[trigger] lines@[m]),
                forall|m: int|
                    0 <= m < lines@.len() ==> (#[trigger] lines@[m]).2 == indent_len(bytes@, lines@[m].0 as int, lines@[m].1 as int),
                encode_utf8(value@) + joined_lines(bytes@, all_lines, common_i, k as int, last as int) == joined_lines(
                    bytes@,
                    all_lines,
                    common_i,
                    f as int,
                    last as int,
                ),
            decreases last + 1 - k,
        {
            let (a, b, ind) = lines[k];
            proof {
                assert(block_line_ok(bytes@, s as int, q as int, lines@[k as int]));
                assert(lines@[k as int].2 == indent_len(bytes@, lines@[k as int].0 as int, lines@[k as int].1 as int));
                assert(all_lines[k as int] == (a as int, b as int));
            }
            let remove = if k == 0 {
                0
            } else {
                match common {
                    Some(m) => if m < ind { m } else { ind },
                    None => 0,
                }
            };
            proof {
                if remove > 0 {
                    assert(bytes@[a + remove - 1] == 32 || bytes@[a + remove - 1] == 9);
                }
            }
            let ghost v0 = encode_utf8(value@);
            append_block_text(source, bytes, a + remove, b, &mut value);
            let ghost piece = block_line_text(bytes@, all_lines, common_i, k as int);
            assert(encode_utf8(value@) == v0 + piece);
            if k < last {
                proof {
                    lemma_encode_newline(value@);
                }
                string_push(&mut value, '\n');
            }
            proof {
                let rest = joined_lines(bytes@, all_lines, common_i, k + 1, last as int);
                let nl: Seq<u8> = if k < last {
                    seq![10u8]
                } else {
                    Seq::empty()
                };
                assert(encode_utf8(value@) == v0 + piece + nl);
                assert(joined_lines(bytes@, all_lines, common_i, k as int, last as int) == piece + nl + rest);
                assert(v0 + (piece + nl + rest) =~= v0 + piece + nl + rest);
            }
            k = k + 1;
        }
        proof {
            assert(joined_lines(bytes@, all_lines, common_i, k as int, last as int) =~= Seq::<u8>::empty());
            assert(encode_utf8(value@) + Seq::<u8>::empty() =~= encode_utf8(value@));
        }
    }
    let end = step_n(bytes, c, q + 3 - c.off);
    let kind = GraphQLTokenKind::StringValue { value, is_block: true };
    let t = GraphQLToken { kind, preceding_trivia: Vec::new(), span: span_between(c, end, Ghost(bytes@)) };
    proof {
        assert(block_end_from(bytes@, s as int) == Some(q as int));
        assert(token_start(t) == c.off && token_end(t) == q + 3);
        assert(encode_utf8(value@) == block_string_value(bytes@, s as int, q as int));
    }
    (t, end)
}

// ── Tokens ──────────────────────────────────────────────────────────

/// The number of bytes of the UTF-8 character whose first byte is `b`.
fn char_width(b: u8) -> (w: usize)
    ensures
        1 <= w <= 4,
        w == utf8_width(b),
{
    if b >= 0xF0 {
        4
    } else if b >= 0xE0 {
        3
    } else if b >= 0xC0 {
        2
    } else {
        1
    }
}

/// The token starting at `c`, which is not at the end of the source.
fn lex_token(source: &str, bytes: &[u8], c: Cursor) -> (r: (GraphQLToken, Cursor))
    requires
        bytes@ == source.spec_bytes(),
        c.off < bytes@.len(),
        c.ok(bytes@),
        fits_offsets(bytes@),
    ensures
        token_matches(bytes@, r.0),
        token_start(r.0) == c.off,
        token_end(r.0) == r.1.off,
        c.off < r.1.off <= bytes@.len(),
        r.1.ok(bytes@),
        !(r.0.kind is Eof),
{
    let b = bytes[c.off];
    if let Some(kind) = punctuator(b) {
        let end = step(bytes, c);
        return (GraphQLToken { kind, preceding_trivia: Vec::new(), span: span_between(c, end, Ghost(bytes@)) }, end);
    }
    if b == 46 {
        if bytes.len() - c.off >= 3 && bytes[c.off + 1] == 46 && bytes[c.off + 2] == 46 {
            let end = step_n(bytes, c, 3);
            proof {
                assert(bytes@.subrange(c.off as int, c.off + 3) =~= ellipsis_bytes());
            }
            return (GraphQLToken { kind: GraphQLTokenKind::Ellipsis, preceding_trivia: Vec::new(), span: span_between(c, end, Ghost(bytes@)) }, end);
        }
        let end = step(bytes, c);
        return (error_token(c, end, "unexpected `.`", Ghost(bytes@)), end);
    }
    if b == 95 || (65 <= b && b <= 90) || (97 <= b && b <= 122) {
        return lex_name(bytes, c);
    }
    if b == 45 || (48 <= b && b <= 57) {
        return lex_number(bytes, c);
    }
    if b == 34 {
        return lex_string(source, bytes, c);
    }
    let w = char_width(b);
    let n = if w <= bytes.len() - c.off {
        w
    } else {
        bytes.len() - c.off
    };
    let end = step_n(bytes, c, n);
    (error_token(c, end, "unexpected character", Ghost(bytes@)), end)
}

/// The tokens of `source`, ending with `Eof`.
#[verifier::spinoff_prover]
#[verifier::rlimit(40)]
pub fn tokenize(source: &str) -> (ts: Vec<GraphQLToken>)
    requires
        fits_offsets(source.spec_bytes()),
    ensures
        tokens_wf(source.spec_bytes(), ts@),
{
    let bytes = source.as_bytes();
    let mut ts: Vec<GraphQLToken> = Vec::new();
    let mut c = Cursor { off: 0, line: 0, col8: 0, col16: 0 };
    loop
        invariant
            bytes@ == source.spec_bytes(),
            c.off <= bytes@.len(),
            c.ok(bytes@),
            fits_offsets(bytes@),
            c.off == gap_start(ts@, ts@.len() as int),
            forall|i: int| 0 <= i < ts@.len() ==> !(#[trigger] ts@[i].kind is Eof),
            forall|i: int| 0 <= i < ts@.len() ==> token_matches(bytes@, #[trigger] ts@[i]),
            forall|i: int| 0 <= i < ts@.len() ==> token_end(#[trigger] ts@[i]) <= c.off,
            forall|i: int, j: int|
                0 <= i < j < ts@.len() ==> token_end(#[trigger] ts@[i]) <= token_start(#[trigger] ts@[j]),
            forall|i: int|
                0 <= i < ts@.len() ==> trivia_between(
                    bytes@,
                    (#[trigger] ts@[i]).preceding_trivia@,
                    gap_start(ts@, i),
                    token_start(ts@[i]),
                ),
            forall|i: int| 0 <= i < ts@.len() ==> token_start(#[trigger] ts@[i]) == skip_end(bytes@, gap_start(ts@, i)),
            forall|i: int|
                0 <= i < ts@.len() ==> spans_of((#[trigger] ts@[i]).preceding_trivia@) == trivia_spans(
                    bytes@,
                    gap_start(ts@, i),
                ),
        decreases bytes@.len() - c.off,
    {
        let ghost old_ts = ts@;
        let (after, trivia) = skip_ignored(source, bytes, c);
        if after.off == bytes.len() {
            let eof = GraphQLToken {
                kind: GraphQLTokenKind::Eof,
                preceding_trivia: trivia,
                span: span_between(after, after, Ghost(bytes@)),
            };
            ts.push(eof);
            proof {
                assert forall|i: int| 0 <= i < ts@.len() implies gap_start(ts@, i) == gap_start(old_ts, i)
                    || i == old_ts.len() by {}
            }
            return ts;
        }
        let (mut t, next) = lex_token(source, bytes, after);
        t.preceding_trivia = trivia;
        ts.push(t);
        proof {
            assert forall|i: int| 0 <= i < old_ts.len() implies gap_start(ts@, i) == gap_start(old_ts, i) by {}
        }
        c = next;
    }
}

} // verus!
