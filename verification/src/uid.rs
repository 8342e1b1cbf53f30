//! The document identifier: a 128-bit value rendered in the familiar
//! hyphenated, lowercase hexadecimal form and parsed back from it.

use vstd::prelude::*;

use crate::chars::{
    is_lower_hex_char, lower_hex_char, lower_hex_val, lower_hex_char_exec, is_lower_hex_char_exec,
    lower_hex_val_exec, push_char, lemma_lower_hex_char_val,
};

verus! {

use vstd::arithmetic::div_mod::{lemma_breakdown, lemma_small_mod};

/// Sixteen raised to `w`.
pub open spec fn pow16(w: nat) -> int
    decreases w,
{
    if w == 0 {
        1
    } else {
        16 * pow16((w - 1) as nat)
    }
}

pub proof fn lemma_pow16_pos(w: nat)
    ensures
        pow16(w) >= 1,
    decreases w,
{
    if w > 0 {
        lemma_pow16_pos((w - 1) as nat);
    }
}

/// `w` lowercase hexadecimal digits of `v`, most significant first; the
/// value is rendered modulo `16^w`, so short widths truncate high digits.
pub open spec fn lower_hex_fixed(v: int, w: nat) -> Seq<char>
    recommends
        v >= 0,
    decreases w,
{
    if w == 0 {
        Seq::empty()
    } else {
        lower_hex_fixed(v / 16, (w - 1) as nat) + seq![lower_hex_char(v % 16)]
    }
}

/// True when every character of `s` is a lowercase hexadecimal digit.
pub open spec fn all_lower_hex(s: Seq<char>) -> bool {
    forall|i: int| 0 <= i < s.len() ==> is_lower_hex_char(#[trigger] s[i])
}

/// The numeric value of a hexadecimal digit string, read in base sixteen.
pub open spec fn hex_value(s: Seq<char>) -> int
    recommends
        all_lower_hex(s),
    decreases s.len(),
{
    if s.len() == 0 {
        0
    } else {
        hex_value(s.drop_last()) * 16 + lower_hex_val(s.last())
    }
}

/// A fixed-width rendering has exactly its width in digits.
pub proof fn lemma_lower_hex_fixed_shape(v: int, w: nat)
    requires
        v >= 0,
    ensures
        lower_hex_fixed(v, w).len() == w,
        all_lower_hex(lower_hex_fixed(v, w)),
    decreases w,
{
    if w > 0 {
        lemma_lower_hex_fixed_shape(v / 16, (w - 1) as nat);
        lemma_lower_hex_char_val(v % 16);
    }
}

/// Reading a fixed-width rendering back yields the value modulo `16^w`.
pub proof fn lemma_hex_value_of_fixed(v: int, w: nat)
    requires
        v >= 0,
    ensures
        hex_value(lower_hex_fixed(v, w)) == v % pow16(w),
    decreases w,
{
    if w == 0 {
        lemma_small_mod(0, 1);
        assert(v % pow16(0) == v % 1);
        assert(v % 1 == 0) by (nonlinear_arith);
    } else {
        lemma_hex_value_of_fixed(v / 16, (w - 1) as nat);
        lemma_lower_hex_char_val(v % 16);
        let whole = lower_hex_fixed(v / 16, (w - 1) as nat) + seq![lower_hex_char(v % 16)];
        assert(whole.drop_last() =~= lower_hex_fixed(v / 16, (w - 1) as nat));
        assert(whole.last() == lower_hex_char(v % 16));
        let p = pow16((w - 1) as nat);
        lemma_pow16_pos((w - 1) as nat);
        lemma_breakdown(v, 16, p);
        assert(v % (16 * p) == 16 * ((v / 16) % p) + v % 16);
        assert(hex_value(whole) == ((v / 16) % p) * 16 + v % 16);
        assert(pow16(w) == 16 * p);
    }
}

/// The canonical character form of an identifier: 32 lowercase hexadecimal
/// digits in five groups of 8, 4, 4, 4 and 12, separated by hyphens.
pub open spec fn spec_uuid_chars(u: u128) -> Seq<char> {
    let d = lower_hex_fixed(u as int, 32);
    d.subrange(0, 8) + seq!['-'] + d.subrange(8, 12) + seq!['-'] + d.subrange(12, 16) + seq!['-']
        + d.subrange(16, 20) + seq!['-'] + d.subrange(20, 32)
}

/// The 32 digit characters of a 36-character identifier rendering, with the
/// four hyphens removed.
pub open spec fn uuid_digits(s: Seq<char>) -> Seq<char>
    recommends
        s.len() == 36,
{
    s.subrange(0, 8) + s.subrange(9, 13) + s.subrange(14, 18) + s.subrange(19, 23) + s.subrange(
        24,
        36,
    )
}

/// Parses the canonical identifier form: exactly 36 characters, hyphens at
/// positions 8, 13, 18 and 23, lowercase hexadecimal digits elsewhere.
pub open spec fn spec_parse_uuid(s: Seq<char>) -> Option<u128> {
    if s.len() == 36 && s[8] == '-' && s[13] == '-' && s[18] == '-' && s[23] == '-'
        && all_lower_hex(uuid_digits(s)) {
        Some(hex_value(uuid_digits(s)) as u128)
    } else {
        None
    }
}

pub proof fn lemma_uuid_chars_len(u: u128)
    ensures
        spec_uuid_chars(u).len() == 36,
{
    lemma_lower_hex_fixed_shape(u as int, 32);
}

/// Hexadecimal digit strings denote values below `16^len`.
pub proof fn lemma_hex_value_bound(s: Seq<char>)
    requires
        all_lower_hex(s),
    ensures
        0 <= hex_value(s) < pow16(s.len() as nat),
    decreases s.len(),
{
    if s.len() == 0 {
    } else {
        assert(all_lower_hex(s.drop_last())) by {
            assert(forall|i: int| 0 <= i < s.len() - 1 ==> s.drop_last()[i] == #[trigger] s[i]);
        }
        lemma_hex_value_bound(s.drop_last());
        assert(is_lower_hex_char(s.last()));
        assert(0 <= lower_hex_val(s.last()) < 16);
        assert(pow16(s.len() as nat) == 16 * pow16((s.len() - 1) as nat));
    }
}

/// Parsing the canonical rendering of an identifier yields it back.
pub proof fn lemma_uuid_round_trip(u: u128)
    ensures
        spec_parse_uuid(spec_uuid_chars(u)) == Some(u),
{
    let d = lower_hex_fixed(u as int, 32);
    lemma_lower_hex_fixed_shape(u as int, 32);
    let s = spec_uuid_chars(u);
    assert(s.len() == 36);
    assert(s[8] == '-');
    assert(s[13] == '-');
    assert(s[18] == '-');
    assert(s[23] == '-');
    assert(uuid_digits(s) =~= d);
    lemma_hex_value_of_fixed(u as int, 32);
    assert(pow16(32) == 0x100000000000000000000000000000000) by {
        reveal_with_fuel(pow16, 33);
    }
    lemma_small_mod(u as nat, pow16(32) as nat);
    assert(hex_value(d) == u as int);
}

/// `w` lowercase hexadecimal digits of `v`, most significant first.
fn lower_hex_fixed_exec(v: u128, w: usize) -> (r: Vec<char>)
    ensures
        r@ == lower_hex_fixed(v as int, w as nat),
    decreases w,
{
    if w == 0 {
        Vec::new()
    } else {
        let mut r = lower_hex_fixed_exec(v / 16, w - 1);
        r.push(lower_hex_char_exec((v % 16) as u8));
        proof {
            assert(r@ =~= lower_hex_fixed(v as int, w as nat));
        }
        r
    }
}

/// Appends `d[from..to]` to `s`.
fn push_char_range(s: &mut String, d: &Vec<char>, from: usize, to: usize)
    requires
        from <= to <= d@.len(),
    ensures
        final(s)@ == old(s)@ + d@.subrange(from as int, to as int),
{
    let mut i = from;
    while i < to
        invariant
            from <= i <= to <= d@.len(),
            s@ == old(s)@ + d@.subrange(from as int, i as int),
        decreases to - i,
    {
        push_char(s, d[i]);
        proof {
            assert(s@ =~= old(s)@ + d@.subrange(from as int, i + 1));
        }
        i = i + 1;
    }
}

/// Renders an identifier in its canonical hyphenated form.
pub fn uuid_to_string(u: u128) -> (r: String)
    ensures
        r@ == spec_uuid_chars(u),
{
    let d = lower_hex_fixed_exec(u, 32);
    proof {
        lemma_lower_hex_fixed_shape(u as int, 32);
    }
    let mut r = String::new();
    push_char_range(&mut r, &d, 0, 8);
    push_char(&mut r, '-');
    push_char_range(&mut r, &d, 8, 12);
    push_char(&mut r, '-');
    push_char_range(&mut r, &d, 12, 16);
    push_char(&mut r, '-');
    push_char_range(&mut r, &d, 16, 20);
    push_char(&mut r, '-');
    push_char_range(&mut r, &d, 20, 32);
    proof {
        lemma_lower_hex_fixed_shape(u as int, 32);
        assert(r@ =~= spec_uuid_chars(u));
    }
    r
}

/// The position of digit `j` within the 36-character rendering.
pub open spec fn uuid_digit_pos(j: int) -> int {
    if j < 8 {
        j
    } else if j < 12 {
        j + 1
    } else if j < 16 {
        j + 2
    } else if j < 20 {
        j + 3
    } else {
        j + 4
    }
}

pub proof fn lemma_uuid_digit_pos(s: Seq<char>, j: int)
    requires
        s.len() == 36,
        0 <= j < 32,
    ensures
        uuid_digits(s)[j] == s[uuid_digit_pos(j)],
{
}

/// Parses the 36 characters beginning at `at` as an identifier.
pub fn parse_uuid_at(cs: &Vec<char>, at: usize) -> (r: Option<u128>)
    requires
        at + 36 <= cs@.len(),
    ensures
        r == spec_parse_uuid(cs@.subrange(at as int, at + 36)),
{
    let ghost sub = cs@.subrange(at as int, at + 36);
    let n = cs.len();
    if !(cs[at + 8] == '-' && cs[at + 13] == '-' && cs[at + 18] == '-' && cs[at + 23] == '-') {
        return None;
    }
    let mut acc: u128 = 0;
    let mut j: usize = 0;
    while j < 32
        invariant
            0 <= j <= 32,
            at + 36 <= cs@.len() <= usize::MAX,
            sub == cs@.subrange(at as int, at + 36),
            sub[8] == '-' && sub[13] == '-' && sub[18] == '-' && sub[23] == '-',
            forall|k: int| 0 <= k < j ==> is_lower_hex_char(#[trigger] uuid_digits(sub)[k]),
            acc as int == hex_value(uuid_digits(sub).take(j as int)),
            (acc as int) < pow16(j as nat),
        decreases 32 - j,
    {
        let pos = if j < 8 {
            at + j
        } else if j < 12 {
            at + j + 1
        } else if j < 16 {
            at + j + 2
        } else if j < 20 {
            at + j + 3
        } else {
            at + j + 4
        };
        let c = cs[pos];
        proof {
            lemma_uuid_digit_pos(sub, j as int);
            assert(sub[uuid_digit_pos(j as int)] == cs@[at + uuid_digit_pos(j as int)]);
            assert(c == uuid_digits(sub)[j as int]);
        }
        if !is_lower_hex_char_exec(c) {
            proof {
                assert(!all_lower_hex(uuid_digits(sub)));
            }
            return None;
        }
        let v = lower_hex_val_exec(c);
        proof {
            let taken = uuid_digits(sub).take(j + 1);
            assert(taken.drop_last() =~= uuid_digits(sub).take(j as int));
            assert(taken.last() == uuid_digits(sub)[j as int]);
            assert(pow16((j + 1) as nat) == 16 * pow16(j as nat));
            lemma_pow16_pos(j as nat);
            assert(pow16(32) == 0x100000000000000000000000000000000) by {
                reveal_with_fuel(pow16, 33);
            }
            assert(pow16((j + 1) as nat) <= pow16(32)) by {
                lemma_pow16_monotone((j + 1) as nat, 32);
            }
        }
        acc = acc * 16 + v as u128;
        j = j + 1;
    }
    proof {
        assert(uuid_digits(sub).take(32) =~= uuid_digits(sub));
        assert(all_lower_hex(uuid_digits(sub)));
        lemma_hex_value_bound(uuid_digits(sub));
        assert(spec_parse_uuid(sub) == Some(hex_value(uuid_digits(sub)) as u128));
    }
    Some(acc)
}

/// Rendering a hexadecimal digit string's value at its own width yields
/// the string back.
pub proof fn lemma_lower_hex_fixed_of_value(d: Seq<char>)
    requires
        all_lower_hex(d),
    ensures
        lower_hex_fixed(hex_value(d), d.len() as nat) == d,
    decreases d.len(),
{
    if d.len() == 0 {
        assert(lower_hex_fixed(hex_value(d), 0) =~= d);
    } else {
        let p = d.drop_last();
        assert(all_lower_hex(p)) by {
            assert(forall|i: int| 0 <= i < d.len() - 1 ==> p[i] == #[trigger] d[i]);
        }
        lemma_lower_hex_fixed_of_value(p);
        lemma_hex_value_bound(p);
        assert(is_lower_hex_char(d.last()));
        crate::chars::lemma_lower_hex_val_char(d.last());
        let n = hex_value(d);
        assert(n == hex_value(p) * 16 + lower_hex_val(d.last()));
        assert(n / 16 == hex_value(p) && n % 16 == lower_hex_val(d.last())) by {
            assert(0 <= lower_hex_val(d.last()) < 16);
            assert(hex_value(p) >= 0);
        }
        assert(lower_hex_fixed(n, d.len() as nat) == lower_hex_fixed(n / 16, (d.len() - 1) as nat)
            + seq![lower_hex_char(n % 16)]);
        assert(lower_hex_fixed(n, d.len() as nat) =~= d);
    }
}

/// A string that parses as an identifier is that identifier's canonical
/// rendering.
pub proof fn lemma_parse_uuid_canonical(s: Seq<char>)
    ensures
        spec_parse_uuid(s) matches Some(u) ==> s == spec_uuid_chars(u),
{
    if spec_parse_uuid(s) is Some {
        let d = uuid_digits(s);
        assert(d.len() == 32);
        lemma_hex_value_bound(d);
        assert(pow16(32) == 0x100000000000000000000000000000000) by {
            reveal_with_fuel(pow16, 33);
        }
        let u = hex_value(d) as u128;
        assert(u as int == hex_value(d));
        lemma_lower_hex_fixed_of_value(d);
        assert(lower_hex_fixed(u as int, 32) == d);
        assert(spec_uuid_chars(u) == d.subrange(0, 8) + seq!['-'] + d.subrange(8, 12) + seq!['-']
            + d.subrange(12, 16) + seq!['-'] + d.subrange(16, 20) + seq!['-'] + d.subrange(20, 32));
        assert forall|i: int| 0 <= i < 36 implies s[i] == spec_uuid_chars(u)[i] by {
            if i == 8 || i == 13 || i == 18 || i == 23 {
                assert(s[i] == '-');
            } else {
                let j = if i < 8 {
                    i
                } else if i < 13 {
                    i - 1
                } else if i < 18 {
                    i - 2
                } else if i < 23 {
                    i - 3
                } else {
                    i - 4
                };
                lemma_uuid_digit_pos(s, j);
                assert(uuid_digit_pos(j) == i);
                assert(d[j] == s[i]);
            }
        }
        assert(s =~= spec_uuid_chars(u));
        assert(spec_parse_uuid(s) == Some(u));
    }
}

pub proof fn lemma_pow16_monotone(a: nat, b: nat)
    requires
        a <= b,
    ensures
        pow16(a) <= pow16(b),
    decreases b,
{
    if a < b {
        lemma_pow16_monotone(a, (b - 1) as nat);
        lemma_pow16_pos((b - 1) as nat);
        assert(pow16(b) == 16 * pow16((b - 1) as nat));
    }
}

} // verus!
