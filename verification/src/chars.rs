//! Character classes and elementary string-building operations shared by the
//! digest engine, the identifier formatter and the wire codec.

use vstd::prelude::*;

verus! {

/// True when `c` is a decimal digit `0`-`9`.
pub open spec fn is_digit_char(c: char) -> bool {
    '0' <= c && c <= '9'
}

/// True when `c` is an ASCII alphanumeric character: a letter `A`-`Z` or
/// `a`-`z`, or a digit `0`-`9`.
pub open spec fn is_alnum_char(c: char) -> bool {
    ('A' <= c && c <= 'Z') || ('a' <= c && c <= 'z') || is_digit_char(c)
}

/// Numeric value of a decimal digit character.
pub open spec fn digit_val(c: char) -> int
    recommends
        is_digit_char(c),
{
    c as int - '0' as int
}

/// True when `c` is an uppercase hexadecimal digit `0`-`9` or `A`-`F`.
pub open spec fn is_upper_hex_char(c: char) -> bool {
    is_digit_char(c) || ('A' <= c && c <= 'F')
}

/// True when `c` is a lowercase hexadecimal digit `0`-`9` or `a`-`f`.
pub open spec fn is_lower_hex_char(c: char) -> bool {
    is_digit_char(c) || ('a' <= c && c <= 'f')
}

/// Numeric value of an uppercase hexadecimal digit character.
pub open spec fn upper_hex_val(c: char) -> int
    recommends
        is_upper_hex_char(c),
{
    if is_digit_char(c) {
        digit_val(c)
    } else {
        c as int - 'A' as int + 10
    }
}

/// Numeric value of a lowercase hexadecimal digit character.
pub open spec fn lower_hex_val(c: char) -> int
    recommends
        is_lower_hex_char(c),
{
    if is_digit_char(c) {
        digit_val(c)
    } else {
        c as int - 'a' as int + 10
    }
}

/// The uppercase hexadecimal digit character for a value in `0..16`.
pub open spec fn upper_hex_char(v: int) -> char
    recommends
        0 <= v < 16,
{
    if v < 10 {
        ((v + '0' as int) as u32) as char
    } else {
        ((v - 10 + 'A' as int) as u32) as char
    }
}

/// The lowercase hexadecimal digit character for a value in `0..16`.
pub open spec fn lower_hex_char(v: int) -> char
    recommends
        0 <= v < 16,
{
    if v < 10 {
        ((v + '0' as int) as u32) as char
    } else {
        ((v - 10 + 'a' as int) as u32) as char
    }
}

/// The decimal digit character for a value in `0..10`.
pub open spec fn digit_char(v: int) -> char
    recommends
        0 <= v < 10,
{
    ((v + '0' as int) as u32) as char
}

/// Uppercase hexadecimal digits are their own parse.
pub proof fn lemma_upper_hex_char_val(v: int)
    requires
        0 <= v < 16,
    ensures
        is_upper_hex_char(upper_hex_char(v)),
        upper_hex_val(upper_hex_char(v)) == v,
{
}

/// Lowercase hexadecimal digits are their own parse.
pub proof fn lemma_lower_hex_char_val(v: int)
    requires
        0 <= v < 16,
    ensures
        is_lower_hex_char(lower_hex_char(v)),
        lower_hex_val(lower_hex_char(v)) == v,
{
}

/// Decimal digits are their own parse.
pub proof fn lemma_digit_char_val(v: int)
    requires
        0 <= v < 10,
    ensures
        is_digit_char(digit_char(v)),
        digit_val(digit_char(v)) == v,
{
}

/// Rendering an uppercase hexadecimal digit's value yields the digit back.
pub proof fn lemma_upper_hex_val_char(c: char)
    requires
        is_upper_hex_char(c),
    ensures
        0 <= upper_hex_val(c) < 16,
        upper_hex_char(upper_hex_val(c)) == c,
{
}

/// Rendering a lowercase hexadecimal digit's value yields the digit back.
pub proof fn lemma_lower_hex_val_char(c: char)
    requires
        is_lower_hex_char(c),
    ensures
        0 <= lower_hex_val(c) < 16,
        lower_hex_char(lower_hex_val(c)) == c,
{
}

/// Rendering a decimal digit's value yields the digit back.
pub proof fn lemma_digit_val_char(c: char)
    requires
        is_digit_char(c),
    ensures
        0 <= digit_val(c) < 10,
        digit_char(digit_val(c)) == c,
{
}

/// The uppercase hexadecimal digit character for a value in `0..16`.
pub fn upper_hex_char_exec(v: u8) -> (c: char)
    requires
        v < 16,
    ensures
        c == upper_hex_char(v as int),
{
    if v < 10 {
        (v + 48) as char
    } else {
        (v - 10 + 65) as char
    }
}

/// The lowercase hexadecimal digit character for a value in `0..16`.
pub fn lower_hex_char_exec(v: u8) -> (c: char)
    requires
        v < 16,
    ensures
        c == lower_hex_char(v as int),
{
    if v < 10 {
        (v + 48) as char
    } else {
        (v - 10 + 97) as char
    }
}

/// The decimal digit character for a value in `0..10`.
pub fn digit_char_exec(v: u8) -> (c: char)
    requires
        v < 10,
    ensures
        c == digit_char(v as int),
{
    (v + 48) as char
}

/// Decides whether `c` is a decimal digit.
pub fn is_digit_char_exec(c: char) -> (b: bool)
    ensures
        b == is_digit_char(c),
{
    '0' <= c && c <= '9'
}

/// Decides whether `c` is an uppercase hexadecimal digit.
pub fn is_upper_hex_char_exec(c: char) -> (b: bool)
    ensures
        b == is_upper_hex_char(c),
{
    is_digit_char_exec(c) || ('A' <= c && c <= 'F')
}

/// Decides whether `c` is a lowercase hexadecimal digit.
pub fn is_lower_hex_char_exec(c: char) -> (b: bool)
    ensures
        b == is_lower_hex_char(c),
{
    is_digit_char_exec(c) || ('a' <= c && c <= 'f')
}

/// Numeric value of a decimal digit character.
pub fn digit_val_exec(c: char) -> (v: u8)
    requires
        is_digit_char(c),
    ensures
        v as int == digit_val(c),
{
    (c as u32 - 48) as u8
}

/// Numeric value of an uppercase hexadecimal digit character.
pub fn upper_hex_val_exec(c: char) -> (v: u8)
    requires
        is_upper_hex_char(c),
    ensures
        v as int == upper_hex_val(c),
{
    if is_digit_char_exec(c) {
        digit_val_exec(c)
    } else {
        (c as u32 - 65 + 10) as u8
    }
}

/// Numeric value of a lowercase hexadecimal digit character.
pub fn lower_hex_val_exec(c: char) -> (v: u8)
    requires
        is_lower_hex_char(c),
    ensures
        v as int == lower_hex_val(c),
{
    if is_digit_char_exec(c) {
        digit_val_exec(c)
    } else {
        (c as u32 - 97 + 10) as u8
    }
}

/// Relies on `String::push`: appends the given character to the end of the
/// string and changes nothing else.
#[verifier::external_body]
pub(crate) fn push_char(s: &mut String, c: char)
    ensures
        final(s)@ == old(s)@.push(c),
{
    s.push(c);
}

/// Collects the characters of a string slice into a vector.
pub fn str_to_chars(s: &str) -> (r: Vec<char>)
    ensures
        r@ == s@,
{
    broadcast use vstd::string::group_string_axioms;

    let mut r: Vec<char> = Vec::new();
    for c in it: s.chars()
        invariant
            it.seq() == s@,
            r@ == it.seq().take(it.index()),
    {
        r.push(c);
    }
    proof {
        assert(r@ =~= s@);
    }
    r
}

} // verus!
