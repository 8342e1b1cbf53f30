//! Decimal rendering and parsing of unsigned integers, used by the wire
//! codec for the iteration count and by the stages' summary strings.

use vstd::prelude::*;

use crate::chars::{
    is_digit_char, digit_val, digit_char, digit_char_exec, is_digit_char_exec, digit_val_exec,
    push_char,
};

verus! {

/// The decimal digit characters of `n`, most significant first, with no
/// leading zeros (`0` itself is the single character `0`).
pub open spec fn dec_digits(n: int) -> Seq<char>
    recommends
        n >= 0,
    decreases n,
{
    if n < 10 {
        seq![digit_char(n)]
    } else {
        dec_digits(n / 10) + seq![digit_char(n % 10)]
    }
}

/// True when every character of `s` is a decimal digit.
pub open spec fn all_digits(s: Seq<char>) -> bool {
    forall|i: int| 0 <= i < s.len() ==> is_digit_char(#[trigger] s[i])
}

/// The numeric value of a digit string, read in base ten.
pub open spec fn dec_value(s: Seq<char>) -> int
    recommends
        all_digits(s),
    decreases s.len(),
{
    if s.len() == 0 {
        0
    } else {
        dec_value(s.drop_last()) * 10 + digit_val(s.last())
    }
}

/// A decimal rendering is nonempty, made of digits, and starts with `0`
/// only for the value zero.
pub proof fn lemma_dec_digits_shape(n: int)
    requires
        n >= 0,
    ensures
        dec_digits(n).len() >= 1,
        all_digits(dec_digits(n)),
        dec_digits(n)[0] == '0' <==> n == 0,
        n >= 10 ==> dec_digits(n).len() >= 2,
    decreases n,
{
    crate::chars::lemma_digit_char_val(if n < 10 {
        n
    } else {
        n % 10
    });
    if n >= 10 {
        lemma_dec_digits_shape(n / 10);
    }
}

/// Digit strings are nonnegative numbers.
pub proof fn lemma_dec_value_nonneg(s: Seq<char>)
    requires
        all_digits(s),
    ensures
        dec_value(s) >= 0,
    decreases s.len(),
{
    if s.len() > 0 {
        assert(is_digit_char(s.last()));
        lemma_dec_value_nonneg(s.drop_last());
    }
}

/// Reading the decimal rendering of `n` back yields `n`.
pub proof fn lemma_dec_value_of_digits(n: int)
    requires
        n >= 0,
    ensures
        dec_value(dec_digits(n)) == n,
    decreases n,
{
    if n < 10 {
        crate::chars::lemma_digit_char_val(n);
        let one = dec_digits(n);
        assert(one =~= seq![digit_char(n)]);
        assert(one.drop_last() =~= Seq::<char>::empty());
        assert(dec_value(Seq::<char>::empty()) == 0);
        assert(one.last() == digit_char(n));
        assert(dec_value(one) == dec_value(one.drop_last()) * 10 + digit_val(one.last()));
        assert(dec_value(one) == n);
    } else {
        lemma_dec_value_of_digits(n / 10);
        crate::chars::lemma_digit_char_val(n % 10);
        let whole = dec_digits(n / 10) + seq![digit_char(n % 10)];
        assert(whole.drop_last() =~= dec_digits(n / 10));
        assert(whole.last() == digit_char(n % 10));
        assert(dec_value(whole) == dec_value(dec_digits(n / 10)) * 10 + digit_val(
            digit_char(n % 10),
        ));
        assert(dec_value(whole) == (n / 10) * 10 + n % 10);
    }
}

/// Extending a digit string can only increase its value.
pub proof fn lemma_dec_value_monotone(s: Seq<char>, i: int, j: int)
    requires
        0 <= i <= j <= s.len(),
        all_digits(s.take(j)),
    ensures
        dec_value(s.take(i)) <= dec_value(s.take(j)),
    decreases j - i,
{
    if i < j {
        lemma_dec_value_monotone(s, i, j - 1);
        assert(all_digits(s.take(j - 1))) by {
            assert(forall|k: int|
                0 <= k < j - 1 ==> s.take(j - 1)[k] == #[trigger] s.take(j)[k]);
        }
        assert(s.take(j).drop_last() =~= s.take(j - 1));
        lemma_dec_value_nonneg(s.take(j - 1));
        assert(is_digit_char(s.take(j)[j - 1]));
        assert(dec_value(s.take(j)) == dec_value(s.take(j - 1)) * 10 + digit_val(s.take(j).last()));
        assert(dec_value(s.take(j - 1)) * 10 >= dec_value(s.take(j - 1)));
        assert(digit_val(s.take(j).last()) >= 0);
    }
}

/// Appends the decimal rendering of `n` to `s`.
pub fn push_decimal(s: &mut String, n: u64)
    ensures
        final(s)@ == old(s)@ + dec_digits(n as int),
    decreases n,
{
    if n < 10 {
        push_char(s, digit_char_exec(n as u8));
        proof {
            assert(s@ =~= old(s)@ + dec_digits(n as int));
        }
    } else {
        push_decimal(s, n / 10);
        push_char(s, digit_char_exec((n % 10) as u8));
        proof {
            assert(s@ =~= old(s)@ + dec_digits(n as int));
        }
    }
}

/// The decimal rendering of `n` as a fresh string.
pub fn u64_to_string(n: u64) -> (r: String)
    ensures
        r@ == dec_digits(n as int),
{
    let mut r = String::new();
    push_decimal(&mut r, n);
    proof {
        assert(r@ =~= dec_digits(n as int));
    }
    r
}

/// Parses `s` as an unsigned decimal number of at most `limit`.  The whole
/// string must consist of digits (leading zeros are accepted); a malformed
/// string or a value above `limit` yields `None`.
pub fn parse_dec_bounded(s: &str, limit: u64) -> (r: Option<u64>)
    ensures
        match r {
            Some(v) => {
                &&& s@.len() >= 1
                &&& all_digits(s@)
                &&& v as int == dec_value(s@)
                &&& v <= limit
            },
            None => !(s@.len() >= 1 && all_digits(s@) && dec_value(s@) <= limit),
        },
{
    let cs = crate::chars::str_to_chars(s);
    let n = cs.len();
    if n == 0 {
        return None;
    }
    let mut acc: u64 = 0;
    let mut i: usize = 0;
    while i < n
        invariant
            0 <= i <= n,
            n == s@.len(),
            cs@ == s@,
            all_digits(s@.take(i as int)),
            acc as int == dec_value(s@.take(i as int)),
            acc <= limit,
        decreases n - i,
    {
        let c = cs[i];
        if !is_digit_char_exec(c) {
            proof {
                assert(!is_digit_char(s@[i as int]));
                assert(!all_digits(s@));
            }
            return None;
        }
        let d = digit_val_exec(c);
        let wide: u128 = acc as u128 * 10 + d as u128;
        proof {
            assert(s@.take(i + 1).drop_last() =~= s@.take(i as int));
            assert(s@.take(i + 1).last() == s@[i as int]);
            assert(all_digits(s@.take(i + 1)));
            assert(wide as int == dec_value(s@.take(i + 1)));
        }
        if wide > limit as u128 {
            proof {
                if all_digits(s@) {
                    lemma_dec_value_monotone(s@, i + 1, n as int);
                    assert(s@.take(n as int) =~= s@);
                }
            }
            return None;
        }
        acc = wide as u64;
        i = i + 1;
    }
    proof {
        assert(s@.take(n as int) =~= s@);
    }
    Some(acc)
}

/// Digits consumed from the front of `s` before the first non-digit.
pub open spec fn digit_prefix_len(s: Seq<char>) -> int
    decreases s.len(),
{
    if s.len() > 0 && is_digit_char(s[0]) {
        1 + digit_prefix_len(s.drop_first())
    } else {
        0
    }
}

/// `digit_prefix_len` is the unique boundary between digits and the rest.
pub proof fn lemma_digit_prefix_len_is(s: Seq<char>, k: int)
    requires
        0 <= k <= s.len(),
        forall|i: int| 0 <= i < k ==> is_digit_char(#[trigger] s[i]),
        k == s.len() || !is_digit_char(s[k]),
    ensures
        digit_prefix_len(s) == k,
    decreases s.len(),
{
    if k > 0 {
        lemma_digit_prefix_len_is(s.drop_first(), k - 1);
    }
}

/// The digit prefix lies within the string and consists of digits.
pub proof fn lemma_digit_prefix_len_bounds(s: Seq<char>)
    ensures
        0 <= digit_prefix_len(s) <= s.len(),
        forall|i: int| 0 <= i < digit_prefix_len(s) ==> is_digit_char(#[trigger] s[i]),
    decreases s.len(),
{
    if s.len() > 0 && is_digit_char(s[0]) {
        lemma_digit_prefix_len_bounds(s.drop_first());
        assert(forall|i: int|
            1 <= i < digit_prefix_len(s) ==> #[trigger] s[i] == s.drop_first()[i - 1]);
    }
}

/// A digit string with no leading zero denotes a positive number.
pub proof fn lemma_dec_value_positive(s: Seq<char>)
    requires
        all_digits(s),
        s.len() >= 1,
        s[0] != '0',
    ensures
        dec_value(s) >= 1,
    decreases s.len(),
{
    if s.len() == 1 {
        assert(is_digit_char(s[0]));
    } else {
        assert(all_digits(s.drop_last())) by {
            assert(forall|i: int|
                0 <= i < s.len() - 1 ==> s.drop_last()[i] == #[trigger] s[i]);
        }
        assert(s.drop_last()[0] == s[0]);
        lemma_dec_value_positive(s.drop_last());
        assert(is_digit_char(s.last()));
    }
}

/// Rendering a digit string's value yields the string back, provided it
/// carries no leading zero.
pub proof fn lemma_dec_digits_of_value(s: Seq<char>)
    requires
        all_digits(s),
        s.len() >= 1,
        s.len() > 1 ==> s[0] != '0',
    ensures
        dec_digits(dec_value(s)) == s,
    decreases s.len(),
{
    lemma_dec_value_nonneg(s);
    if s.len() == 1 {
        assert(is_digit_char(s[0]));
        crate::chars::lemma_digit_val_char(s[0]);
        assert(s.drop_last() =~= Seq::<char>::empty());
        assert(dec_value(Seq::<char>::empty()) == 0);
        assert(s.last() == s[0]);
        assert(dec_value(s) == digit_val(s[0]));
        assert(dec_digits(dec_value(s)) =~= s);
    } else {
        let p = s.drop_last();
        assert(all_digits(p)) by {
            assert(forall|i: int| 0 <= i < s.len() - 1 ==> p[i] == #[trigger] s[i]);
        }
        assert(p[0] == s[0]);
        lemma_dec_digits_of_value(p);
        lemma_dec_value_positive(p);
        assert(is_digit_char(s.last()));
        crate::chars::lemma_digit_val_char(s.last());
        let n = dec_value(s);
        assert(n == dec_value(p) * 10 + digit_val(s.last()));
        assert(n >= 10);
        assert(n / 10 == dec_value(p) && n % 10 == digit_val(s.last())) by {
            assert(0 <= digit_val(s.last()) < 10);
        }
        assert(dec_digits(n) == dec_digits(dec_value(p)) + seq![digit_char(n % 10)]);
        assert(dec_digits(n) =~= s);
    }
}

/// Reads an iteration count from the front of `s`: the longest digit
/// prefix, which must be nonempty, free of leading zeros, and denote a
/// value that fits in sixteen bits.  Yields the value and the number of
/// characters consumed.
pub open spec fn spec_scan_u16(s: Seq<char>) -> Option<(u16, int)> {
    let k = digit_prefix_len(s);
    if k == 0 {
        None
    } else if k > 1 && s[0] == '0' {
        None
    } else if dec_value(s.take(k)) > 65535 {
        None
    } else {
        Some((dec_value(s.take(k)) as u16, k))
    }
}

/// Scanning the decimal rendering of a sixteen-bit value followed by a
/// non-digit yields the value back.
pub proof fn lemma_scan_u16_of_digits(n: u16, rest: Seq<char>)
    requires
        rest.len() == 0 || !is_digit_char(rest[0]),
    ensures
        spec_scan_u16(dec_digits(n as int) + rest) == Some((n, dec_digits(n as int).len() as int)),
{
    let d = dec_digits(n as int);
    lemma_dec_digits_shape(n as int);
    let s = d + rest;
    assert(forall|i: int| 0 <= i < d.len() ==> s[i] == #[trigger] d[i]);
    lemma_digit_prefix_len_is(s, d.len() as int);
    assert(s.take(d.len() as int) =~= d);
    lemma_dec_value_of_digits(n as int);
    if d.len() > 1 {
        assert(n as int >= 10) by {
            if (n as int) < 10 {
                assert(d.len() == 1);
            }
        }
        assert(s[0] == d[0]);
        assert(d[0] != '0');
    }
}

/// A successful scan consumed exactly the value's decimal rendering.
pub proof fn lemma_scan_u16_canonical(s: Seq<char>)
    ensures
        spec_scan_u16(s) matches Some(t) ==> s.take(t.1) == dec_digits(t.0 as int),
{
    let k = digit_prefix_len(s);
    lemma_digit_prefix_len_bounds(s);
    if spec_scan_u16(s) is Some {
        let d = s.take(k);
        assert(all_digits(d)) by {
            assert(forall|i: int| 0 <= i < k ==> d[i] == #[trigger] s[i]);
        }
        assert(k >= 1);
        assert(d.len() > 1 ==> d[0] != '0') by {
            assert(d[0] == s[0]);
        }
        lemma_dec_digits_of_value(d);
        lemma_dec_value_nonneg(d);
        assert(spec_scan_u16(s) == Some((dec_value(d) as u16, k)));
        assert((dec_value(d) as u16) as int == dec_value(d));
    }
}

} // verus!
