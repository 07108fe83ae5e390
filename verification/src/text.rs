//! Character classes, number rendering and small text helpers shared by the
//! front end and the back end.
use vstd::prelude::*;

verus! {

/// `String::push` appends one character.
pub assume_specification[ String::push ](s: &mut String, ch: char)
    ensures
        final(s)@ == old(s)@.push(ch),
;

/// `String::push_str` appends a string slice.
pub assume_specification[ String::push_str ](s: &mut String, string: &str)
    ensures
        final(s)@ == old(s)@ + string@,
;

// ---------------------------------------------------------------------------
// Character classes
// ---------------------------------------------------------------------------

/// Unicode `White_Space`, the set that `char::is_whitespace` tests.
pub open spec fn spec_is_whitespace(c: char) -> bool {
    ||| '\t' <= c && c <= '\r'
    ||| c == ' '
    ||| c == '\u{85}'
    ||| c == '\u{A0}'
    ||| c == '\u{1680}'
    ||| '\u{2000}' <= c && c <= '\u{200A}'
    ||| c == '\u{2028}'
    ||| c == '\u{2029}'
    ||| c == '\u{202F}'
    ||| c == '\u{205F}'
    ||| c == '\u{3000}'
}

/// Tests for Unicode white space.
pub fn is_whitespace(c: char) -> (r: bool)
    ensures
        r == spec_is_whitespace(c),
{
    ('\t' <= c && c <= '\r') || c == ' ' || c == '\u{85}' || c == '\u{A0}' || c == '\u{1680}'
        || ('\u{2000}' <= c && c <= '\u{200A}') || c == '\u{2028}' || c == '\u{2029}'
        || c == '\u{202F}' || c == '\u{205F}' || c == '\u{3000}'
}

/// ASCII decimal digit.
pub open spec fn spec_is_digit(c: char) -> bool {
    '0' <= c && c <= '9'
}

/// Tests for an ASCII decimal digit.
pub fn is_digit(c: char) -> (r: bool)
    ensures
        r == spec_is_digit(c),
{
    '0' <= c && c <= '9'
}

/// ASCII letter.
pub open spec fn spec_is_alpha(c: char) -> bool {
    ('a' <= c && c <= 'z') || ('A' <= c && c <= 'Z')
}

/// Tests for an ASCII letter.
pub fn is_alpha(c: char) -> (r: bool)
    ensures
        r == spec_is_alpha(c),
{
    ('a' <= c && c <= 'z') || ('A' <= c && c <= 'Z')
}

/// ASCII letter or digit.
pub open spec fn spec_is_alnum(c: char) -> bool {
    spec_is_alpha(c) || spec_is_digit(c)
}

/// Tests for an ASCII letter or digit.
pub fn is_alnum(c: char) -> (r: bool)
    ensures
        r == spec_is_alnum(c),
{
    is_alpha(c) || is_digit(c)
}

// ---------------------------------------------------------------------------
// Decimal numbers
// ---------------------------------------------------------------------------

/// The character of a decimal digit value.
pub open spec fn digit_char(d: nat) -> char {
    ((d + 48) as u32) as char
}

/// The value of a decimal digit character.
pub open spec fn digit_value(c: char) -> nat {
    ((c as u32) - 48) as nat
}

/// The decimal rendering of a natural number, most significant digit first.
pub open spec fn nat_to_decimal(n: nat) -> Seq<char>
    decreases n,
{
    if n < 10 {
        seq![digit_char(n)]
    } else {
        nat_to_decimal(n / 10).push(digit_char(n % 10))
    }
}

/// The decimal rendering of an integer, with a leading `-` when negative.
pub open spec fn int_to_decimal(i: int) -> Seq<char> {
    if i < 0 {
        seq!['-'] + nat_to_decimal((-i) as nat)
    } else {
        nat_to_decimal(i as nat)
    }
}

/// The value of a sequence of decimal digits, most significant first.
pub open spec fn digits_value(s: Seq<char>) -> nat
    decreases s.len(),
{
    if s.len() == 0 {
        0
    } else {
        digits_value(s.drop_last()) * 10 + digit_value(s.last())
    }
}

/// Every character is an ASCII digit.
pub open spec fn all_digits(s: Seq<char>) -> bool {
    forall|i: int| 0 <= i < s.len() ==> spec_is_digit(#[trigger] s[i])
}

fn digit_to_char(d: u128) -> (c: char)
    requires
        d < 10,
    ensures
        c == digit_char(d as nat),
{
    if d == 0 {
        '0'
    } else if d == 1 {
        '1'
    } else if d == 2 {
        '2'
    } else if d == 3 {
        '3'
    } else if d == 4 {
        '4'
    } else if d == 5 {
        '5'
    } else if d == 6 {
        '6'
    } else if d == 7 {
        '7'
    } else if d == 8 {
        '8'
    } else {
        '9'
    }
}

/// The value of a digit character.
pub fn char_digit_value(c: char) -> (d: u64)
    requires
        spec_is_digit(c),
    ensures
        d == digit_value(c),
        d < 10,
{
    (c as u32 - 48) as u64
}

/// Appends the decimal rendering of `n` to `s`.
pub fn push_decimal(s: &mut String, n: u128)
    ensures
        final(s)@ == old(s)@ + nat_to_decimal(n as nat),
    decreases n,
{
    if n < 10 {
        s.push(digit_to_char(n));
    } else {
        push_decimal(s, n / 10);
        s.push(digit_to_char(n % 10));
    }
}

/// Appends the decimal rendering of the signed `n` to `s` (as `n.to_string()` renders it).
pub fn push_signed_decimal(s: &mut String, n: i64)
    ensures
        final(s)@ == old(s)@ + int_to_decimal(n as int),
{
    if n < 0 {
        s.push('-');
        let m: u128 = (-(n + 1)) as u128 + 1;
        push_decimal(s, m);
    } else {
        push_decimal(s, n as u128);
    }
}

/// A lower bound of a digit string's value by the value of its prefixes.
pub proof fn lemma_digits_value_prefix(s: Seq<char>, k: int)
    requires
        0 <= k <= s.len(),
    ensures
        digits_value(s.take(k)) <= digits_value(s),
    decreases s.len(),
{
    if k < s.len() {
        assert(s.drop_last().take(k) =~= s.take(k));
        lemma_digits_value_prefix(s.drop_last(), k);
    } else {
        assert(s.take(k) =~= s);
    }
}

/// Appending a digit extends the value by Horner's rule.
pub proof fn lemma_digits_value_push(s: Seq<char>, c: char)
    ensures
        digits_value(s.push(c)) == digits_value(s) * 10 + digit_value(c),
{
    assert(s.push(c).drop_last() =~= s);
}

// ---------------------------------------------------------------------------
// Hexadecimal bytes
// ---------------------------------------------------------------------------

/// The upper-case hexadecimal digit of a value below 16.
pub open spec fn hex_digit(d: nat) -> char {
    if d < 10 {
        digit_char(d)
    } else {
        ((d + 55) as u32) as char
    }
}

/// `\XX`: a backslash and the byte in two upper-case hexadecimal digits.
pub open spec fn hex_escape(b: u8) -> Seq<char> {
    seq!['\\', hex_digit(b as nat / 16), hex_digit(b as nat % 16)]
}

fn hex_digit_char(d: u8) -> (c: char)
    requires
        d < 16,
    ensures
        c == hex_digit(d as nat),
{
    if d < 10 {
        digit_to_char(d as u128)
    } else if d == 10 {
        'A'
    } else if d == 11 {
        'B'
    } else if d == 12 {
        'C'
    } else if d == 13 {
        'D'
    } else if d == 14 {
        'E'
    } else {
        'F'
    }
}

/// Appends `\XX`, the byte in upper-case hexadecimal after a backslash.
pub fn push_hex_escape(s: &mut String, b: u8)
    ensures
        final(s)@ == old(s)@ + hex_escape(b),
{
    s.push('\\');
    s.push(hex_digit_char(b / 16));
    s.push(hex_digit_char(b % 16));
}

// ---------------------------------------------------------------------------
// Strings and characters
// ---------------------------------------------------------------------------

/// The characters of a string slice.
pub fn str_to_chars(s: &str) -> (v: Vec<char>)
    ensures
        v@ == s@,
{
    let mut v: Vec<char> = Vec::new();
    for c in it: s.chars()
        invariant
            v@ == it.seq().take(it.index() as int),
    {
        v.push(c);
    }
    v
}


// ---------------------------------------------------------------------------
// Laws of decimal rendering
// ---------------------------------------------------------------------------

/// A digit's character is a digit whose value is the digit.
pub proof fn lemma_digit_char(d: nat)
    requires
        d < 10,
    ensures
        spec_is_digit(digit_char(d)),
        digit_value(digit_char(d)) == d,
{
    let x: u32 = (d + 48) as u32;
    assert(x == d + 48);
    assert((x as char) as u32 == x);
}

/// Reading back a decimal rendering gives the number: the rendering is all
/// digits, non-empty, and starts with `0` only for zero.
pub proof fn lemma_decimal_roundtrip(n: nat)
    ensures
        nat_to_decimal(n).len() >= 1,
        all_digits(nat_to_decimal(n)),
        digits_value(nat_to_decimal(n)) == n,
        nat_to_decimal(n)[0] == '0' ==> n == 0,
    decreases n,
{
    if n < 10 {
        let d = nat_to_decimal(n);
        assert(d.drop_last() =~= Seq::<char>::empty());
        lemma_digit_char(n);
        assert(digits_value(d) == digits_value(d.drop_last()) * 10 + digit_value(d.last()));
        assert(digits_value(Seq::<char>::empty()) == 0);
        assert(digits_value(d) == n);
    } else {
        lemma_digit_char(n % 10);
        lemma_decimal_roundtrip(n / 10);
        let p = nat_to_decimal(n / 10);
        lemma_digits_value_push(p, digit_char(n % 10));
        assert(digits_value(nat_to_decimal(n)) == (n / 10) * 10 + n % 10);
        assert(nat_to_decimal(n)[0] == p[0]);
        assert forall|i: int| 0 <= i < nat_to_decimal(n).len() implies spec_is_digit(#[trigger] nat_to_decimal(n)[i]) by {
            if i < p.len() {
                assert(nat_to_decimal(n)[i] == p[i]);
            }
        }
    }
}

/// Different numbers have different decimal renderings.
pub proof fn lemma_decimal_injective(a: nat, b: nat)
    ensures
        nat_to_decimal(a) == nat_to_decimal(b) ==> a == b,
{
    lemma_decimal_roundtrip(a);
    lemma_decimal_roundtrip(b);
}

/// A fixed prefix followed by different numbers gives different texts.
pub proof fn lemma_prefixed_decimal_injective(prefix: Seq<char>, a: nat, b: nat)
    ensures
        prefix + nat_to_decimal(a) == prefix + nat_to_decimal(b) ==> a == b,
{
    if prefix + nat_to_decimal(a) == prefix + nat_to_decimal(b) {
        assert((prefix + nat_to_decimal(a)).skip(prefix.len() as int) =~= nat_to_decimal(a));
        assert((prefix + nat_to_decimal(b)).skip(prefix.len() as int) =~= nat_to_decimal(b));
        lemma_decimal_injective(a, b);
    }
}
} // verus!
