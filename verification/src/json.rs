//! The wire codec: a record is carried between stages as a JSON object with
//! the fields `uuid`, `doc`, `hashes` and `hash`, in that order, and parsed
//! back strictly.  Parsing accepts exactly the canonical form this codec
//! emits, so a round trip through the wire reproduces every field.

use vstd::prelude::*;

use crate::chars::{
    is_upper_hex_char, upper_hex_char, upper_hex_val, upper_hex_char_exec, upper_hex_val_exec,
    is_upper_hex_char_exec, is_digit_char, is_digit_char_exec, digit_val_exec, push_char,
    str_to_chars,
};
use crate::datum::{Datum, DatumView};
use crate::numfmt::{
    dec_digits, spec_scan_u16, lemma_scan_u16_of_digits, lemma_dec_digits_shape, all_digits,
    dec_value, digit_prefix_len, lemma_digit_prefix_len_is, lemma_dec_value_monotone,
    push_decimal,
};
use crate::uid::{
    spec_uuid_chars, spec_parse_uuid, lemma_uuid_chars_len, lemma_uuid_round_trip, uuid_to_string,
    parse_uuid_at,
};

verus! {

use vstd::string::StringExecFns;

/// The opening of the object up to and including the quote of the
/// identifier value.
pub open spec fn lit_head() -> Seq<char> {
    seq!['{', '"', 'u', 'u', 'i', 'd', '"', ':', '"']
}

/// The quote closing the identifier, then the `doc` key and its opening
/// quote.
pub open spec fn lit_doc() -> Seq<char> {
    seq!['"', ',', '"', 'd', 'o', 'c', '"', ':', '"']
}

/// The `hashes` key between the document and the iteration count.
pub open spec fn lit_hashes() -> Seq<char> {
    seq![',', '"', 'h', 'a', 's', 'h', 'e', 's', '"', ':']
}

/// The `hash` key between the iteration count and the digest.
pub open spec fn lit_hash() -> Seq<char> {
    seq![',', '"', 'h', 'a', 's', 'h', '"', ':']
}

/// An absent digest and the closing brace.
pub open spec fn lit_null_end() -> Seq<char> {
    seq!['n', 'u', 'l', 'l', '}']
}

/// The escape of one character within a quoted string: quote and backslash
/// take a backslash, control characters become `\u00` and two uppercase
/// hexadecimal digits, and every other character stands for itself.
pub open spec fn spec_escape_char(c: char) -> Seq<char> {
    if c == '"' {
        seq!['\\', '"']
    } else if c == '\\' {
        seq!['\\', '\\']
    } else if (c as u32) < 0x20 {
        seq![
            '\\',
            'u',
            '0',
            '0',
            upper_hex_char((c as u32) as int / 16),
            upper_hex_char((c as u32) as int % 16),
        ]
    } else {
        seq![c]
    }
}

/// The escaped form of a string's characters.
pub open spec fn spec_escape(s: Seq<char>) -> Seq<char>
    decreases s.len(),
{
    if s.len() == 0 {
        Seq::empty()
    } else {
        spec_escape_char(s[0]) + spec_escape(s.drop_first())
    }
}

/// Escaping one more character appends its escape.
pub proof fn lemma_escape_push(s: Seq<char>, c: char)
    ensures
        spec_escape(s.push(c)) == spec_escape(s) + spec_escape_char(c),
    decreases s.len(),
{
    if s.len() == 0 {
        assert(s.push(c)[0] == c);
        assert(s.push(c).drop_first() =~= s);
        assert(spec_escape(s.push(c)) == spec_escape_char(c) + spec_escape(s));
        assert(spec_escape(s) == Seq::<char>::empty());
        assert(spec_escape_char(c) + spec_escape(s) =~= spec_escape(s) + spec_escape_char(c));
    } else {
        assert(s.push(c)[0] == s[0]);
        assert(s.push(c).drop_first() =~= s.drop_first().push(c));
        assert(spec_escape(s.push(c)) == spec_escape_char(s[0]) + spec_escape(
            s.drop_first().push(c),
        ));
        lemma_escape_push(s.drop_first(), c);
        assert(spec_escape(s.push(c)) =~= spec_escape(s) + spec_escape_char(c));
    }
}

/// Reads a quoted string's content starting just after its opening quote:
/// unescapes up to and including the closing quote, and yields the content
/// together with the number of characters consumed.  A raw control
/// character, an unknown escape, a non-canonical `\u` form or a missing
/// closing quote is refused.
pub open spec fn spec_scan_string(s: Seq<char>) -> Option<(Seq<char>, int)>
    decreases s.len(),
{
    if s.len() == 0 {
        None
    } else if s[0] == '"' {
        Some((Seq::empty(), 1))
    } else if s[0] == '\\' {
        if s.len() < 2 {
            None
        } else if s[1] == '"' || s[1] == '\\' {
            match spec_scan_string(s.skip(2)) {
                Some(t) => Some((seq![s[1]] + t.0, 2 + t.1)),
                None => None,
            }
        } else if s[1] == 'u' {
            if s.len() >= 6 && s[2] == '0' && s[3] == '0' && is_upper_hex_char(s[4])
                && is_upper_hex_char(s[5]) && 16 * upper_hex_val(s[4]) + upper_hex_val(s[5])
                < 0x20 {
                match spec_scan_string(s.skip(6)) {
                    Some(t) => Some(
                        (
                            seq![
                                (((16 * upper_hex_val(s[4]) + upper_hex_val(s[5])) as u32) as char),
                            ] + t.0,
                            6 + t.1,
                        ),
                    ),
                    None => None,
                }
            } else {
                None
            }
        } else {
            None
        }
    } else if (s[0] as u32) < 0x20 {
        None
    } else {
        match spec_scan_string(s.skip(1)) {
            Some(t) => Some((seq![s[0]] + t.0, 1 + t.1)),
            None => None,
        }
    }
}

/// Scanning the escaped form of a string followed by its closing quote
/// yields the string back, whatever follows the quote.
pub proof fn lemma_scan_escaped(content: Seq<char>, rest: Seq<char>)
    ensures
        spec_scan_string(spec_escape(content) + seq!['"'] + rest) == Some(
            (content, spec_escape(content).len() as int + 1),
        ),
    decreases content.len(),
{
    let s = spec_escape(content) + seq!['"'] + rest;
    if content.len() == 0 {
        assert(spec_escape(content) =~= Seq::<char>::empty());
        assert(s[0] == '"');
        assert(content =~= Seq::<char>::empty());
    } else {
        let c = content[0];
        let e = spec_escape_char(c);
        let tail = content.drop_first();
        lemma_scan_escaped(tail, rest);
        let s2 = spec_escape(tail) + seq!['"'] + rest;
        assert(spec_escape(content) == e + spec_escape(tail));
        if c == '"' {
            assert(s[0] == '\\' && s[1] == '"');
            assert(s.skip(2) =~= s2);
            assert(seq![s[1]] + tail =~= content);
        } else if c == '\\' {
            assert(s[0] == '\\' && s[1] == '\\');
            assert(s.skip(2) =~= s2);
            assert(seq![s[1]] + tail =~= content);
        } else if (c as u32) < 0x20 {
            let u = (c as u32) as int;
            crate::chars::lemma_upper_hex_char_val(u / 16);
            crate::chars::lemma_upper_hex_char_val(u % 16);
            assert(s[0] == '\\' && s[1] == 'u' && s[2] == '0' && s[3] == '0');
            assert(s[4] == upper_hex_char(u / 16));
            assert(s[5] == upper_hex_char(u % 16));
            assert(16 * upper_hex_val(s[4]) + upper_hex_val(s[5]) == u);
            assert(s.skip(6) =~= s2);
            assert((u as u32) == c as u32);
            vstd::utf8::char_u32_cast(c, c as u32);
            assert(((u as u32) as char) == c);
            assert(seq![((u as u32) as char)] + tail =~= content);
        } else {
            assert(s[0] == c);
            assert(s.skip(1) =~= s2);
            assert(seq![s[0]] + tail =~= content);
        }
    }
}

/// A successful scan consumes at least the closing quote and at most the
/// whole input.
pub proof fn lemma_scan_string_len(s: Seq<char>)
    ensures
        spec_scan_string(s) matches Some(t) ==> 1 <= t.1 <= s.len(),
    decreases s.len(),
{
    if s.len() == 0 {
    } else if s[0] == '"' {
    } else if s[0] == '\\' {
        if s.len() >= 2 {
            lemma_scan_string_len(s.skip(2));
            if s.len() >= 6 {
                lemma_scan_string_len(s.skip(6));
            }
        }
    } else {
        lemma_scan_string_len(s.skip(1));
    }
}

/// A successful scan consumed exactly the escaped form of its content,
/// followed by the closing quote.
pub proof fn lemma_scan_canonical(s: Seq<char>)
    ensures
        spec_scan_string(s) matches Some(t) ==> {
            &&& t.1 == spec_escape(t.0).len() + 1
            &&& s.take(t.1) == spec_escape(t.0) + seq!['"']
        },
    decreases s.len(),
{
    if s.len() == 0 {
    } else if s[0] == '"' {
        assert(spec_escape(Seq::<char>::empty()) == Seq::<char>::empty());
        assert(s.take(1) =~= spec_escape(Seq::<char>::empty()) + seq!['"']);
    } else if s[0] == '\\' {
        if s.len() < 2 {
        } else if s[1] == '"' || s[1] == '\\' {
            lemma_scan_canonical(s.skip(2));
            lemma_scan_string_len(s.skip(2));
            match spec_scan_string(s.skip(2)) {
                Some(t2) => {
                    let c = seq![s[1]] + t2.0;
                    assert(c[0] == s[1]);
                    assert(c.drop_first() =~= t2.0);
                    assert(spec_escape(c) == spec_escape_char(s[1]) + spec_escape(t2.0));
                    assert(spec_escape_char(s[1]) =~= seq![s[0], s[1]]);
                    assert(s.take(2 + t2.1) =~= s.take(2) + s.skip(2).take(t2.1));
                    assert(s.take(2) =~= seq![s[0], s[1]]);
                    assert(s.take(2 + t2.1) =~= spec_escape(c) + seq!['"']);
                },
                None => {},
            }
        } else if s[1] == 'u' {
            if s.len() >= 6 && s[2] == '0' && s[3] == '0' && is_upper_hex_char(s[4])
                && is_upper_hex_char(s[5]) && 16 * upper_hex_val(s[4]) + upper_hex_val(s[5])
                < 0x20 {
                lemma_scan_canonical(s.skip(6));
                lemma_scan_string_len(s.skip(6));
                match spec_scan_string(s.skip(6)) {
                    Some(t2) => {
                        let w = 16 * upper_hex_val(s[4]) + upper_hex_val(s[5]);
                        crate::chars::lemma_upper_hex_val_char(s[4]);
                        crate::chars::lemma_upper_hex_val_char(s[5]);
                        assert(0 <= w < 0x20);
                        let c0 = ((w as u32) as char);
                        assert((c0 as u32) == w as u32);
                        assert(c0 != '"') by {
                            if c0 == '"' {
                                assert(c0 as u32 == 34);
                            }
                        }
                        assert(c0 != '\\') by {
                            if c0 == '\\' {
                                assert(c0 as u32 == 92);
                            }
                        }
                        assert(w / 16 == upper_hex_val(s[4]) && w % 16 == upper_hex_val(s[5]))
                            by {
                            assert(0 <= upper_hex_val(s[5]) < 16);
                            assert(0 <= upper_hex_val(s[4]) < 16);
                        }
                        assert(spec_escape_char(c0) =~= seq![s[0], s[1], s[2], s[3], s[4], s[5]]);
                        let c = seq![c0] + t2.0;
                        assert(c[0] == c0);
                        assert(c.drop_first() =~= t2.0);
                        assert(spec_escape(c) == spec_escape_char(c0) + spec_escape(t2.0));
                        assert(s.take(6 + t2.1) =~= s.take(6) + s.skip(6).take(t2.1));
                        assert(s.take(6) =~= seq![s[0], s[1], s[2], s[3], s[4], s[5]]);
                        assert(s.take(6 + t2.1) =~= spec_escape(c) + seq!['"']);
                    },
                    None => {},
                }
            }
        }
    } else if (s[0] as u32) < 0x20 {
    } else {
        lemma_scan_canonical(s.skip(1));
        lemma_scan_string_len(s.skip(1));
        match spec_scan_string(s.skip(1)) {
            Some(t2) => {
                let c = seq![s[0]] + t2.0;
                assert(c[0] == s[0]);
                assert(c.drop_first() =~= t2.0);
                assert(spec_escape(c) == spec_escape_char(s[0]) + spec_escape(t2.0));
                assert(spec_escape_char(s[0]) =~= seq![s[0]]);
                assert(s.take(1 + t2.1) =~= s.take(1) + s.skip(1).take(t2.1));
                assert(s.take(1) =~= seq![s[0]]);
                assert(s.take(1 + t2.1) =~= spec_escape(c) + seq!['"']);
            },
            None => {},
        }
    }
}

/// True when `pat` occurs in `s` at position `at`.
pub open spec fn spec_match_at(s: Seq<char>, at: int, pat: Seq<char>) -> bool {
    0 <= at && at + pat.len() <= s.len() && s.subrange(at, at + pat.len()) == pat
}

/// The trailing part of a record after the `hash` key: either an absent
/// digest closing the object, or the quoted digest and the closing brace,
/// in both cases ending the input exactly.
pub open spec fn spec_parse_tail(
    s: Seq<char>,
    at: int,
    uuid: u128,
    doc: Seq<char>,
    hashes: u16,
) -> Option<DatumView>
    recommends
        0 <= at,
{
    if s.skip(at) == lit_null_end() {
        Some(DatumView { uuid, doc, hashes, hash: None })
    } else if at < s.len() && s[at] == '"' {
        match spec_scan_string(s.skip(at + 1)) {
            Some(t) => {
                if at + 1 + t.1 == s.len() - 1 && s[s.len() - 1] == '}' {
                    Some(DatumView { uuid, doc, hashes, hash: Some(t.0) })
                } else {
                    None
                }
            },
            None => None,
        }
    } else {
        None
    }
}

/// Parses the canonical wire form of a record.  The input must be exactly
/// one object with the four fields in order; anything else is refused.
pub open spec fn spec_parse_datum(s: Seq<char>) -> Option<DatumView> {
    if !(s.len() >= 45 && spec_match_at(s, 0, lit_head())) {
        None
    } else {
        match spec_parse_uuid(s.subrange(9, 45)) {
            None => None,
            Some(u) => {
                if !spec_match_at(s, 45, lit_doc()) {
                    None
                } else {
                    match spec_scan_string(s.skip(54)) {
                        None => None,
                        Some(doc_t) => {
                            let i = 54 + doc_t.1;
                            if !spec_match_at(s, i, lit_hashes()) {
                                None
                            } else {
                                match spec_scan_u16(s.skip(i + 10)) {
                                    None => None,
                                    Some(num_t) => {
                                        let j = i + 10 + num_t.1;
                                        if !spec_match_at(s, j, lit_hash()) {
                                            None
                                        } else {
                                            spec_parse_tail(s, j + 8, u, doc_t.0, num_t.0)
                                        }
                                    },
                                }
                            }
                        },
                    }
                }
            },
        }
    }
}

/// The canonical wire form of a record.
pub open spec fn spec_json_of(v: DatumView) -> Seq<char> {
    lit_head() + spec_uuid_chars(v.uuid) + lit_doc() + spec_escape(v.doc) + seq!['"']
        + lit_hashes() + dec_digits(v.hashes as int) + lit_hash() + (match v.hash {
        None => lit_null_end(),
        Some(h) => seq!['"'] + spec_escape(h) + seq!['"', '}'],
    })
}

/// Round trip: parsing the canonical wire form of any record yields the
/// record back, field for field.
#[verifier::rlimit(100)]
pub proof fn lemma_json_round_trip(v: DatumView)
    ensures
        spec_parse_datum(spec_json_of(v)) == Some(v),
{
    let s = spec_json_of(v);
    let uu = spec_uuid_chars(v.uuid);
    let ed = spec_escape(v.doc);
    let dd = dec_digits(v.hashes as int);
    let tail: Seq<char> = match v.hash {
        None => lit_null_end(),
        Some(h) => seq!['"'] + spec_escape(h) + seq!['"', '}'],
    };
    lemma_uuid_chars_len(v.uuid);
    lemma_dec_digits_shape(v.hashes as int);
    let e: int = ed.len() as int;
    let d: int = dd.len() as int;
    assert(s.len() == 9 + 36 + 9 + e + 1 + 10 + d + 8 + tail.len());
    assert(spec_match_at(s, 0, lit_head())) by {
        assert(s.subrange(0, 9) =~= lit_head());
    }
    assert(s.subrange(9, 45) =~= uu);
    lemma_uuid_round_trip(v.uuid);
    assert(spec_match_at(s, 45, lit_doc())) by {
        assert(s.subrange(45, 54) =~= lit_doc());
    }
    let rest1 = lit_hashes() + dd + lit_hash() + tail;
    assert(s.skip(54) =~= ed + seq!['"'] + rest1);
    lemma_scan_escaped(v.doc, rest1);
    assert(spec_scan_string(s.skip(54)) == Some((v.doc, e + 1)));
    let i: int = 54 + e + 1;
    assert(spec_match_at(s, i, lit_hashes())) by {
        assert(s.subrange(i, i + 10) =~= lit_hashes());
    }
    let rest2 = lit_hash() + tail;
    assert(s.skip(i + 10) =~= dd + rest2);
    assert(rest2[0] == ',');
    lemma_scan_u16_of_digits(v.hashes, rest2);
    assert(spec_scan_u16(s.skip(i + 10)) == Some((v.hashes, d as int)));
    let j: int = i + 10 + d;
    assert(spec_match_at(s, j, lit_hash())) by {
        assert(s.subrange(j, j + 8) =~= lit_hash());
    }
    let at: int = j + 8;
    match v.hash {
        None => {
            assert(s.skip(at) =~= lit_null_end());
            assert(spec_parse_tail(s, at, v.uuid, v.doc, v.hashes) == Some(
                DatumView { uuid: v.uuid, doc: v.doc, hashes: v.hashes, hash: None },
            ));
            assert(DatumView { uuid: v.uuid, doc: v.doc, hashes: v.hashes, hash: None } =~= v);
        },
        Some(h) => {
            let eh = spec_escape(h);
            assert(s[at] == '"');
            assert(s.skip(at) != lit_null_end()) by {
                assert(s.skip(at)[0] == '"');
                assert(lit_null_end()[0] == 'n');
            }
            assert(s.skip(at + 1) =~= eh + seq!['"'] + seq!['}']);
            lemma_scan_escaped(h, seq!['}']);
            assert(spec_scan_string(s.skip(at + 1)) == Some((h, eh.len() as int + 1)));
            assert(at + 1 + (eh.len() + 1) == s.len() - 1);
            assert(s[s.len() - 1] == '}');
            assert(spec_parse_tail(s, at, v.uuid, v.doc, v.hashes) == Some(
                DatumView { uuid: v.uuid, doc: v.doc, hashes: v.hashes, hash: Some(h) },
            ));
            assert(DatumView { uuid: v.uuid, doc: v.doc, hashes: v.hashes, hash: Some(h) } =~= v);
        },
    }
}

/// Canonicity: a string that parses is the canonical rendering of the
/// record it parses to, so distinct strings never denote the same record.
#[verifier::rlimit(100)]
pub proof fn lemma_parse_canonical(s: Seq<char>)
    ensures
        spec_parse_datum(s) matches Some(v) ==> s == spec_json_of(v),
{
    if spec_parse_datum(s) is Some {
        assert(s.len() >= 45 && spec_match_at(s, 0, lit_head()));
        match spec_parse_uuid(s.subrange(9, 45)) {
            None => {},
            Some(u) => {
                crate::uid::lemma_parse_uuid_canonical(s.subrange(9, 45));
                assert(s.subrange(9, 45) == spec_uuid_chars(u));
                assert(spec_match_at(s, 45, lit_doc()));
                match spec_scan_string(s.skip(54)) {
                    None => {},
                    Some(doc_t) => {
                        lemma_scan_canonical(s.skip(54));
                        lemma_scan_string_len(s.skip(54));
                        let i = 54 + doc_t.1;
                        assert(s.skip(54).take(doc_t.1) == spec_escape(doc_t.0) + seq!['"']);
                        assert(spec_match_at(s, i, lit_hashes()));
                        match spec_scan_u16(s.skip(i + 10)) {
                            None => {},
                            Some(num_t) => {
                                crate::numfmt::lemma_scan_u16_canonical(s.skip(i + 10));
                                crate::numfmt::lemma_digit_prefix_len_bounds(s.skip(i + 10));
                                let j = i + 10 + num_t.1;
                                assert(s.skip(i + 10).take(num_t.1) == dec_digits(num_t.0 as int));
                                assert(1 <= num_t.1 <= s.len() - i - 10);
                                assert(spec_match_at(s, j, lit_hash()));
                                let at = j + 8;
                                if s.skip(at) == lit_null_end() {
                                    let w = DatumView {
                                        uuid: u,
                                        doc: doc_t.0,
                                        hashes: num_t.0,
                                        hash: None,
                                    };
                                    assert(spec_parse_datum(s) == Some(w));
                                    assert(s.skip(at).len() == lit_null_end().len());
                                    assert(s.len() == at + 5);
                                    assert(s =~= s.take(9) + s.subrange(9, 45) + s.subrange(45, 54)
                                        + s.skip(54).take(doc_t.1) + s.subrange(i, i + 10)
                                        + s.skip(i + 10).take(num_t.1) + s.subrange(j, j + 8)
                                        + s.skip(at));
                                    assert(s.take(9) =~= lit_head());
                                    assert(s.subrange(45, 54) =~= lit_doc());
                                    assert(s.subrange(i, i + 10) =~= lit_hashes());
                                    assert(s.subrange(j, j + 8) =~= lit_hash());
                                    assert(s =~= spec_json_of(w));
                                } else if at < s.len() && s[at] == '"' {
                                    match spec_scan_string(s.skip(at + 1)) {
                                        None => {},
                                        Some(h_t) => {
                                            lemma_scan_canonical(s.skip(at + 1));
                                            lemma_scan_string_len(s.skip(at + 1));
                                            if at + 1 + h_t.1 == s.len() - 1 && s[s.len() - 1]
                                                == '}' {
                                                let w = DatumView {
                                                    uuid: u,
                                                    doc: doc_t.0,
                                                    hashes: num_t.0,
                                                    hash: Some(h_t.0),
                                                };
                                                assert(spec_parse_datum(s) == Some(w));
                                                assert(s.skip(at + 1).take(h_t.1) == spec_escape(
                                                    h_t.0,
                                                ) + seq!['"']);
                                                assert(s.skip(at) =~= seq!['"'] + (spec_escape(
                                                    h_t.0,
                                                ) + seq!['"']) + seq!['}']);
                                                assert(s =~= s.take(9) + s.subrange(9, 45)
                                                    + s.subrange(45, 54) + s.skip(54).take(
                                                    doc_t.1,
                                                ) + s.subrange(i, i + 10) + s.skip(i + 10).take(
                                                    num_t.1,
                                                ) + s.subrange(j, j + 8) + s.skip(at));
                                                assert(s.take(9) =~= lit_head());
                                                assert(s.subrange(45, 54) =~= lit_doc());
                                                assert(s.subrange(i, i + 10) =~= lit_hashes());
                                                assert(s.subrange(j, j + 8) =~= lit_hash());
                                                assert(s =~= spec_json_of(w));
                                            }
                                        },
                                    }
                                }
                            },
                        }
                    },
                }
            },
        }
    }
}

/// The wire form is canonical both ways: a string parses to a record
/// exactly when it is that record's rendering.
pub proof fn lemma_json_canonical(s: Seq<char>, v: DatumView)
    ensures
        spec_parse_datum(s) == Some(v) <==> s == spec_json_of(v),
{
    if s == spec_json_of(v) {
        lemma_json_round_trip(v);
    }
    if spec_parse_datum(s) == Some(v) {
        lemma_parse_canonical(s);
    }
}

/// Appends the escaped form of `s` to `r`.
fn append_escaped(r: &mut String, s: &str)
    ensures
        final(r)@ == old(r)@ + spec_escape(s@),
{
    let cs = str_to_chars(s);
    let n = cs.len();
    let mut i: usize = 0;
    while i < n
        invariant
            i <= n,
            n == s@.len(),
            cs@ == s@,
            r@ == old(r)@ + spec_escape(s@.take(i as int)),
        decreases n - i,
    {
        let c = cs[i];
        proof {
            assert(s@.take(i + 1) =~= s@.take(i as int).push(s@[i as int]));
            lemma_escape_push(s@.take(i as int), s@[i as int]);
        }
        if c == '"' {
            push_char(r, '\\');
            push_char(r, '"');
        } else if c == '\\' {
            push_char(r, '\\');
            push_char(r, '\\');
        } else {
            let u = c as u32;
            if u < 0x20 {
                push_char(r, '\\');
                push_char(r, 'u');
                push_char(r, '0');
                push_char(r, '0');
                push_char(r, upper_hex_char_exec((u / 16) as u8));
                push_char(r, upper_hex_char_exec((u % 16) as u8));
            } else {
                push_char(r, c);
            }
        }
        proof {
            assert(r@ =~= old(r)@ + spec_escape(s@.take(i + 1)));
        }
        i = i + 1;
    }
    proof {
        assert(s@.take(n as int) =~= s@);
    }
}

impl Datum {
    /// Renders this record in its canonical wire form.
    pub fn to_json(&self) -> (r: String)
        ensures
            r@ == spec_json_of(self@),
    {
        let mut r = String::new();
        r.append("{\"uuid\":\"");
        let us = uuid_to_string(self.uuid);
        r.append(us.as_str());
        r.append("\",\"doc\":\"");
        append_escaped(&mut r, self.doc.as_str());
        push_char(&mut r, '"');
        r.append(",\"hashes\":");
        push_decimal(&mut r, self.hashes as u64);
        r.append(",\"hash\":");
        match &self.hash {
            None => {
                r.append("null}");
            },
            Some(h) => {
                push_char(&mut r, '"');
                append_escaped(&mut r, h.as_str());
                push_char(&mut r, '"');
                push_char(&mut r, '}');
            },
        }
        proof {
            reveal_strlit("{\"uuid\":\"");
            reveal_strlit("\",\"doc\":\"");
            reveal_strlit(",\"hashes\":");
            reveal_strlit(",\"hash\":");
            reveal_strlit("null}");
            assert("{\"uuid\":\""@ =~= lit_head());
            assert("\",\"doc\":\""@ =~= lit_doc());
            assert(",\"hashes\":"@ =~= lit_hashes());
            assert(",\"hash\":"@ =~= lit_hash());
            assert("null}"@ =~= lit_null_end());
            assert(r@ =~= spec_json_of(self@));
        }
        r
    }
}

/// True when `pat` occurs in `cs` at position `at`.
fn match_lit(cs: &Vec<char>, at: usize, pat: &str) -> (b: bool)
    ensures
        b == spec_match_at(cs@, at as int, pat@),
{
    let p = str_to_chars(pat);
    let m = p.len();
    let n = cs.len();
    if m > n || at > n - m {
        return false;
    }
    let mut k: usize = 0;
    while k < m
        invariant
            k <= m,
            m == pat@.len(),
            n == cs@.len(),
            p@ == pat@,
            at + m <= n,
            forall|q: int| 0 <= q < k ==> cs@[at + q] == pat@[q],
        decreases m - k,
    {
        if cs[at + k] != p[k] {
            proof {
                assert(cs@.subrange(at as int, at + m)[k as int] == cs@[at + k]);
            }
            return false;
        }
        k = k + 1;
    }
    proof {
        assert(cs@.subrange(at as int, at + m) =~= pat@);
    }
    true
}

/// Reads a quoted string's content beginning at `at`, which is the
/// position just after the opening quote.
fn scan_string_at(cs: &Vec<char>, at: usize) -> (r: Option<(String, usize)>)
    requires
        at <= cs@.len(),
    ensures
        match r {
            Some(t) => {
                &&& spec_scan_string(cs@.skip(at as int)) == Some((t.0@, t.1 as int))
                &&& at + t.1 <= cs@.len()
            },
            None => spec_scan_string(cs@.skip(at as int)) is None,
        },
{
    let ghost target = spec_scan_string(cs@.skip(at as int));
    let n = cs.len();
    let mut i: usize = at;
    let mut content = String::new();
    while i < n
        invariant
            at <= i <= n,
            n == cs@.len(),
            target == spec_scan_string(cs@.skip(at as int)),
            spec_scan_string(cs@.skip(i as int)) matches Some(t) ==> target == Some(
                ((content@ + t.0), i - at + t.1),
            ),
            spec_scan_string(cs@.skip(i as int)) is None ==> target is None,
        decreases n - i,
    {
        let ghost si = cs@.skip(i as int);
        proof {
            assert(si[0] == cs@[i as int]);
        }
        let c = cs[i];
        if c == '"' {
            proof {
                assert(spec_scan_string(si) == Some((Seq::<char>::empty(), 1int)));
                assert(content@ + Seq::<char>::empty() =~= content@);
            }
            return Some((content, i + 1 - at));
        } else if c == '\\' {
            if i + 1 >= n {
                proof {
                    assert(si.len() < 2);
                    assert(spec_scan_string(si) is None);
                }
                return None;
            }
            let e = cs[i + 1];
            proof {
                assert(si[1] == cs@[i + 1]);
            }
            if e == '"' || e == '\\' {
                proof {
                    assert(si.skip(2) =~= cs@.skip(i + 2));
                    match spec_scan_string(cs@.skip(i + 2)) {
                        Some(t2) => {
                            assert(spec_scan_string(si) == Some((seq![si[1]] + t2.0, 2 + t2.1)));
                            assert(content@ + (seq![si[1]] + t2.0) =~= content@.push(si[1]) + t2.0);
                        },
                        None => {},
                    }
                }
                push_char(&mut content, e);
                i = i + 2;
            } else if e == 'u' {
                if n - i < 6 {
                    proof {
                        assert(si.len() < 6);
                        assert(spec_scan_string(si) is None);
                    }
                    return None;
                }
                let c2 = cs[i + 2];
                let c3 = cs[i + 3];
                let c4 = cs[i + 4];
                let c5 = cs[i + 5];
                proof {
                    assert(si[2] == cs@[i + 2]);
                    assert(si[3] == cs@[i + 3]);
                    assert(si[4] == cs@[i + 4]);
                    assert(si[5] == cs@[i + 5]);
                }
                if !(c2 == '0' && c3 == '0' && is_upper_hex_char_exec(c4) && is_upper_hex_char_exec(
                    c5,
                )) {
                    proof {
                        assert(spec_scan_string(si) is None);
                    }
                    return None;
                }
                let hi = upper_hex_val_exec(c4);
                let lo = upper_hex_val_exec(c5);
                let v = 16 * hi + lo;
                if v >= 0x20 {
                    proof {
                        assert(spec_scan_string(si) is None);
                    }
                    return None;
                }
                proof {
                    assert(si.skip(6) =~= cs@.skip(i + 6));
                    let w = 16 * upper_hex_val(si[4]) + upper_hex_val(si[5]);
                    assert(v as int == w);
                    assert((v as char) == ((w as u32) as char));
                    match spec_scan_string(cs@.skip(i + 6)) {
                        Some(t2) => {
                            assert(spec_scan_string(si) == Some(
                                (seq![((w as u32) as char)] + t2.0, 6 + t2.1),
                            ));
                            assert(content@ + (seq![((w as u32) as char)] + t2.0) =~= content@.push(
                                (v as char),
                            ) + t2.0);
                        },
                        None => {},
                    }
                }
                push_char(&mut content, v as char);
                i = i + 6;
            } else {
                proof {
                    assert(spec_scan_string(si) is None);
                }
                return None;
            }
        } else {
            let u = c as u32;
            if u < 0x20 {
                proof {
                    assert(spec_scan_string(si) is None);
                }
                return None;
            }
            proof {
                assert(si.skip(1) =~= cs@.skip(i + 1));
                match spec_scan_string(cs@.skip(i + 1)) {
                    Some(t2) => {
                        assert(spec_scan_string(si) == Some((seq![si[0]] + t2.0, 1 + t2.1)));
                        assert(content@ + (seq![si[0]] + t2.0) =~= content@.push(si[0]) + t2.0);
                    },
                    None => {},
                }
            }
            push_char(&mut content, c);
            i = i + 1;
        }
    }
    proof {
        assert(cs@.skip(n as int).len() == 0);
        assert(spec_scan_string(cs@.skip(n as int)) is None);
    }
    None
}

/// Reads the iteration count beginning at `at`.
fn scan_u16_at(cs: &Vec<char>, at: usize) -> (r: Option<(u16, usize)>)
    requires
        at <= cs@.len(),
    ensures
        match r {
            Some(t) => {
                &&& spec_scan_u16(cs@.skip(at as int)) == Some((t.0, t.1 as int))
                &&& at + t.1 <= cs@.len()
            },
            None => spec_scan_u16(cs@.skip(at as int)) is None,
        },
{
    let ghost s = cs@.skip(at as int);
    let n = cs.len();
    let mut j: usize = at;
    while j < n && is_digit_char_exec(cs[j])
        invariant
            at <= j <= n,
            n == cs@.len(),
            s == cs@.skip(at as int),
            forall|m: int| at <= m < j ==> is_digit_char(#[trigger] cs@[m]),
        decreases n - j,
    {
        j = j + 1;
    }
    let k = j - at;
    proof {
        assert(forall|m: int| 0 <= m < k ==> #[trigger] s[m] == cs@[at + m]);
        if k < s.len() {
            assert(s[k as int] == cs@[j as int]);
        }
        lemma_digit_prefix_len_is(s, k as int);
    }
    if k == 0 {
        return None;
    }
    if k > 1 && cs[at] == '0' {
        proof {
            assert(s[0] == cs@[at as int]);
        }
        return None;
    }
    proof {
        assert(all_digits(s.take(k as int))) by {
            assert(forall|m: int| 0 <= m < k ==> #[trigger] s.take(k as int)[m] == s[m]);
        }
    }
    let mut acc: u32 = 0;
    let mut m: usize = at;
    while m < j
        invariant
            at <= m <= j <= n,
            n == cs@.len(),
            s == cs@.skip(at as int),
            k == j - at,
            1 <= k,
            digit_prefix_len(s) == k,
            all_digits(s.take(k as int)),
            forall|q: int| at <= q < j ==> is_digit_char(#[trigger] cs@[q]),
            acc as int == dec_value(s.take(m - at)),
            acc <= 65535,
        decreases j - m,
    {
        proof {
            assert(s[m - at] == cs@[m as int]);
            assert(s.take(m - at + 1).drop_last() =~= s.take(m - at));
            assert(s.take(m - at + 1).last() == s[m - at]);
        }
        let d = digit_val_exec(cs[m]);
        let next = acc * 10 + d as u32;
        if next > 65535 {
            proof {
                lemma_dec_value_monotone(s, m - at + 1, k as int);
            }
            return None;
        }
        acc = next;
        m = m + 1;
    }
    proof {
        assert(s.take(k as int) == s.take(j - at));
    }
    Some((acc as u16, k))
}

impl Datum {
    /// Parses a record from its canonical wire form.  Anything but the
    /// exact form emitted by [`Datum::to_json`] is refused.
    pub fn from_json(s: &str) -> (r: Option<Datum>)
        ensures
            match r {
                Some(d) => spec_parse_datum(s@) == Some(d@),
                None => spec_parse_datum(s@) is None,
            },
    {
        proof {
            reveal_strlit("{\"uuid\":\"");
            reveal_strlit("\",\"doc\":\"");
            reveal_strlit(",\"hashes\":");
            reveal_strlit(",\"hash\":");
            reveal_strlit("null}");
            assert("{\"uuid\":\""@ =~= lit_head());
            assert("\",\"doc\":\""@ =~= lit_doc());
            assert(",\"hashes\":"@ =~= lit_hashes());
            assert(",\"hash\":"@ =~= lit_hash());
            assert("null}"@ =~= lit_null_end());
        }
        let cs = str_to_chars(s);
        let n = cs.len();
        if n < 45 {
            return None;
        }
        if !match_lit(&cs, 0, "{\"uuid\":\"") {
            return None;
        }
        let u = match parse_uuid_at(&cs, 9) {
            Some(u) => u,
            None => {
                return None;
            },
        };
        if !match_lit(&cs, 45, "\",\"doc\":\"") {
            return None;
        }
        let (doc, dk) = match scan_string_at(&cs, 54) {
            Some(t) => t,
            None => {
                return None;
            },
        };
        let i = 54 + dk;
        if !match_lit(&cs, i, ",\"hashes\":") {
            return None;
        }
        let (hv, nk) = match scan_u16_at(&cs, i + 10) {
            Some(t) => t,
            None => {
                return None;
            },
        };
        let j = i + 10 + nk;
        if !match_lit(&cs, j, ",\"hash\":") {
            return None;
        }
        let at2 = j + 8;
        if match_lit(&cs, at2, "null}") {
            if n - at2 == 5 {
                proof {
                    assert(s@.skip(at2 as int) =~= lit_null_end());
                }
                let d = Datum { uuid: u, doc, hashes: hv, hash: None };
                proof {
                    assert(spec_parse_datum(s@) == Some(d@));
                }
                return Some(d);
            } else {
                proof {
                    assert(s@.skip(at2 as int).len() != 5);
                    assert(s@.skip(at2 as int) != lit_null_end());
                    assert(s@[at2 as int] == 'n');
                }
                return None;
            }
        }
        proof {
            if s@.skip(at2 as int) == lit_null_end() {
                assert(s@.skip(at2 as int).len() == 5);
                assert(forall|q: int|
                    0 <= q < 5 ==> s@.subrange(at2 as int, at2 + 5)[q] == #[trigger] s@.skip(
                        at2 as int,
                    )[q]);
                assert(s@.subrange(at2 as int, at2 + 5) =~= lit_null_end());
                assert(spec_match_at(s@, at2 as int, "null}"@));
            }
        }
        if at2 < n && cs[at2] == '"' {
            let (h, hk) = match scan_string_at(&cs, at2 + 1) {
                Some(t) => t,
                None => {
                    return None;
                },
            };
            if at2 + 1 + hk == n - 1 && cs[n - 1] == '}' {
                let d = Datum { uuid: u, doc, hashes: hv, hash: Some(h) };
                proof {
                    assert(spec_parse_datum(s@) == Some(d@));
                }
                return Some(d);
            } else {
                return None;
            }
        } else {
            return None;
        }
    }
}

} // verus!
