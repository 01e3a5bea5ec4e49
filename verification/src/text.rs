//! Small verified text utilities: decimal rendering, padding, and slicing
//! of UTF-8 text at ASCII boundaries.

use vstd::prelude::*;
use vstd::string::StringSliceAdditionalSpecFns;
use vstd::utf8::*;

verus! {

broadcast use vstd::utf8::group_utf8_lib;

/// The decimal digit character for `d` (which must be below ten).
pub open spec fn digit_char(d: nat) -> char {
    if d == 0 { '0' }
    else if d == 1 { '1' }
    else if d == 2 { '2' }
    else if d == 3 { '3' }
    else if d == 4 { '4' }
    else if d == 5 { '5' }
    else if d == 6 { '6' }
    else if d == 7 { '7' }
    else if d == 8 { '8' }
    else { '9' }
}

/// The decimal rendering of `n`, without leading zeros.
pub open spec fn decimal(n: nat) -> Seq<char>
    decreases n,
{
    if n < 10 {
        seq![digit_char(n)]
    } else {
        decimal(n / 10).push(digit_char(n % 10))
    }
}

/// `n` spaces.
pub open spec fn spaces(n: nat) -> Seq<char> {
    Seq::new(n, |i: int| ' ')
}

/// `n` copies of `c`.
pub open spec fn repeat_char(c: char, n: nat) -> Seq<char> {
    Seq::new(n, |i: int| c)
}

/// `s` right-aligned in a field of `width` characters.
pub open spec fn pad_left(s: Seq<char>, width: nat) -> Seq<char> {
    if s.len() < width {
        spaces((width - s.len()) as nat) + s
    } else {
        s
    }
}

/// Appends `c` to `s` (std's `String::push`).
#[verifier::external_body]
pub fn string_push(s: &mut String, c: char)
    ensures
        final(s)@ == old(s)@.push(c),
{
    s.push(c);
}

fn digit(d: usize) -> (c: char)
    requires
        d < 10,
    ensures
        c == digit_char(d as nat),
{
    if d == 0 { '0' }
    else if d == 1 { '1' }
    else if d == 2 { '2' }
    else if d == 3 { '3' }
    else if d == 4 { '4' }
    else if d == 5 { '5' }
    else if d == 6 { '6' }
    else if d == 7 { '7' }
    else if d == 8 { '8' }
    else { '9' }
}

/// Appends the decimal rendering of `n` to `out`.
pub fn push_decimal(out: &mut String, n: usize)
    ensures
        final(out)@ == old(out)@ + decimal(n as nat),
    decreases n,
{
    if n < 10 {
        string_push(out, digit(n));
        assert(decimal(n as nat) == seq![digit_char(n as nat)]);
        assert(old(out)@.push(digit_char(n as nat)) =~= old(out)@ + decimal(n as nat));
    } else {
        push_decimal(out, n / 10);
        string_push(out, digit(n % 10));
        assert(final(out)@ =~= old(out)@ + decimal(n as nat));
    }
}

/// The decimal rendering of `n` as a new string.
pub fn usize_to_string(n: usize) -> (r: String)
    ensures
        r@ == decimal(n as nat),
{
    let mut s = String::new();
    push_decimal(&mut s, n);
    assert(s@ =~= decimal(n as nat));
    s
}

/// Appends `n` copies of `c` to `out`.
pub fn push_repeat(out: &mut String, c: char, n: usize)
    ensures
        final(out)@ == old(out)@ + repeat_char(c, n as nat),
{
    let mut i: usize = 0;
    while i < n
        invariant
            i <= n,
            out@ == old(out)@ + repeat_char(c, i as nat),
        decreases n - i,
    {
        string_push(out, c);
        i = i + 1;
        assert(out@ =~= old(out)@ + repeat_char(c, i as nat));
    }
}

/// Appends `s` right-aligned in a field of `width` characters.
pub fn push_padded(out: &mut String, s: &str, width: usize)
    ensures
        final(out)@ == old(out)@ + pad_left(s@, width as nat),
{
    let n = s.unicode_len();
    if n < width {
        push_repeat(out, ' ', width - n);
        assert(repeat_char(' ', (width - n) as nat) =~= spaces((width - n) as nat));
    }
    out.append(s);
    assert(final(out)@ =~= old(out)@ + pad_left(s@, width as nat));
}

/// The number of characters in the decimal rendering of `n`.
pub fn decimal_len(n: usize) -> (r: usize)
    ensures
        r == decimal(n as nat).len(),
    decreases n,
{
    if n < 10 {
        1
    } else {
        let r = decimal_len(n / 10);
        proof {
            lemma_decimal_len_bound((n / 10) as nat);
        }
        r + 1
    }
}

proof fn lemma_decimal_len_bound(n: nat)
    ensures
        decimal(n).len() <= n + 1,
    decreases n,
{
    if n >= 10 {
        lemma_decimal_len_bound(n / 10);
    }
}

// ── UTF-8 boundaries ─────────────────────────────────────────────────

/// Index `i` of `bytes` is at a character boundary in the simple sense used
/// here: it is an end of the text, or the byte there is not a UTF-8
/// continuation byte, or the byte before it is ASCII.
pub open spec fn at_boundary(bytes: Seq<u8>, i: int) -> bool {
    ||| i == 0
    ||| i == bytes.len()
    ||| (0 <= i < bytes.len() && !(0x80 <= bytes[i] < 0xC0))
    ||| (0 < i <= bytes.len() && bytes[i - 1] < 0x80)
}

proof fn lemma_after_ascii_is_boundary(bytes: Seq<u8>, i: int)
    requires
        valid_utf8(bytes),
        0 < i <= bytes.len(),
        bytes[i - 1] < 0x80,
    ensures
        is_char_boundary(bytes, i),
    decreases bytes.len(),
{
    if i == bytes.len() {
        is_char_boundary_start_end_of_seq(bytes);
    } else {
        let l = length_of_first_scalar(bytes);
        if i - 1 < l {
            assert(!is_continuation_byte(bytes[i - 1]));
            if i - 1 > 0 {
                assert(is_continuation_byte(bytes[i - 1]));
            }
            assert(l == 1);
            let p = pop_first_scalar(bytes);
            assert(is_char_boundary(p, 0));
        } else {
            let p = pop_first_scalar(bytes);
            assert(p[i - l - 1] == bytes[i - 1]);
            lemma_after_ascii_is_boundary(p, i - l);
        }
    }
}

proof fn lemma_at_boundary(bytes: Seq<u8>, i: int)
    requires
        valid_utf8(bytes),
        0 <= i <= bytes.len(),
        at_boundary(bytes, i),
    ensures
        is_char_boundary(bytes, i),
{
    if i == 0 || i == bytes.len() {
        is_char_boundary_start_end_of_seq(bytes);
    } else if !(0x80 <= bytes[i] < 0xC0) {
        is_char_boundary_iff_not_is_continuation_byte(bytes, i);
    } else {
        lemma_after_ascii_is_boundary(bytes, i);
    }
}

/// The part of `s` between byte offsets `a` and `b`.
pub fn str_subslice<'a>(s: &'a str, a: usize, b: usize) -> (r: &'a str)
    requires
        a <= b <= s.spec_bytes().len(),
        at_boundary(s.spec_bytes(), a as int),
        at_boundary(s.spec_bytes(), b as int),
    ensures
        r.spec_bytes() == s.spec_bytes().subrange(a as int, b as int),
{
    let ghost bytes = s.spec_bytes();
    proof {
        encode_utf8_valid_utf8(s@);
        lemma_at_boundary(bytes, a as int);
        lemma_at_boundary(bytes, b as int);
    }
    let (_, rest) = s.split_at(a);
    let ghost rb = bytes.subrange(a as int, bytes.len() as int);
    proof {
        assert(rest.spec_bytes() =~= rb);
        valid_utf8_split(bytes, a as int);
        let k = b - a;
        if k == rb.len() {
            is_char_boundary_start_end_of_seq(rb);
        } else if k == 0 {
            is_char_boundary_start_end_of_seq(rb);
        } else if !(0x80 <= bytes[b as int] < 0xC0) {
            assert(rb[k as int] == bytes[b as int]);
            is_char_boundary_iff_not_is_continuation_byte(rb, k as int);
        } else {
            assert(rb[k - 1] == bytes[b - 1]);
            lemma_after_ascii_is_boundary(rb, k as int);
        }
    }
    let (mid, _) = rest.split_at(b - a);
    assert(mid.spec_bytes() =~= bytes.subrange(a as int, b as int));
    mid
}


/// Whether `a` and `b` are the same text.
pub fn str_eq(a: &str, b: &str) -> (r: bool)
    ensures
        r == (a@ == b@),
{
    let x = a.as_bytes();
    let y = b.as_bytes();
    proof {
        encode_utf8_decode_utf8(a@);
        encode_utf8_decode_utf8(b@);
    }
    if x.len() != y.len() {
        proof {
            assert(a.spec_bytes() != b.spec_bytes());
        }
        return false;
    }
    let mut i: usize = 0;
    while i < x.len()
        invariant
            x@ == a.spec_bytes(),
            y@ == b.spec_bytes(),
            x@.len() == y@.len(),
            i <= x@.len(),
            forall|k: int| 0 <= k < i ==> x@[k] == y@[k],
        decreases x@.len() - i,
    {
        if x[i] != y[i] {
            proof {
                assert(a.spec_bytes() != b.spec_bytes());
            }
            return false;
        }
        i = i + 1;
    }
    proof {
        assert(a.spec_bytes() =~= b.spec_bytes());
    }
    true
}

} // verus!
