//! The hash engine: an iterative SHA3-512 digest over a document.
//!
//! One round hashes the UTF-8 bytes of the current state and re-encodes the
//! 64 output bytes as a 128-character uppercase hexadecimal string, which
//! becomes the input to the next round.  The encoding step is part of the
//! loop body, so it shapes every round's input, not only the final output.

use vstd::prelude::*;

use crate::chars::{upper_hex_char, upper_hex_char_exec, push_char, is_upper_hex_char};
use sha3::Digest;

verus! {

use vstd::utf8::encode_utf8;

/// The SHA3-512 digest (64 bytes) of a byte sequence, named abstractly; the
/// trusted wrapper below ties it to the sha3 crate.
pub uninterp spec fn sha3_512_of(bytes: Seq<u8>) -> Seq<u8>;

/// Relies on `sha3::Sha3_512::digest`: a pure function of the input bytes
/// alone, returning the 64-byte SHA3-512 digest.
#[verifier::external_body]
fn sha3_512(bytes: &[u8]) -> (r: Vec<u8>)
    ensures
        r@ == sha3_512_of(bytes@),
        r@.len() == 64,
{
    sha3::Sha3_512::digest(bytes).to_vec()
}

/// The two uppercase hexadecimal characters of each byte, in order.
pub open spec fn hex_upper_of(bytes: Seq<u8>) -> Seq<char>
    decreases bytes.len(),
{
    if bytes.len() == 0 {
        Seq::empty()
    } else {
        hex_upper_of(bytes.drop_last()) + seq![
            upper_hex_char(bytes.last() as int / 16),
            upper_hex_char(bytes.last() as int % 16),
        ]
    }
}

/// A hexadecimal rendering is twice as long as its bytes, and made of
/// uppercase hexadecimal digits only.
pub proof fn lemma_hex_upper_of_shape(bytes: Seq<u8>)
    ensures
        hex_upper_of(bytes).len() == 2 * bytes.len(),
        forall|i: int|
            0 <= i < hex_upper_of(bytes).len() ==> is_upper_hex_char(#[trigger] hex_upper_of(bytes)[i]),
    decreases bytes.len(),
{
    if bytes.len() > 0 {
        lemma_hex_upper_of_shape(bytes.drop_last());
        crate::chars::lemma_upper_hex_char_val(bytes.last() as int / 16);
        crate::chars::lemma_upper_hex_char_val(bytes.last() as int % 16);
    }
}

/// Renders bytes as an uppercase hexadecimal string, two digits per byte.
pub fn bytes_to_upper_hex(bytes: &Vec<u8>) -> (r: String)
    ensures
        r@ == hex_upper_of(bytes@),
{
    let mut r = String::new();
    let n = bytes.len();
    let mut i: usize = 0;
    while i < n
        invariant
            i <= n,
            n == bytes@.len(),
            r@ == hex_upper_of(bytes@.take(i as int)),
        decreases n - i,
    {
        let b = bytes[i];
        push_char(&mut r, upper_hex_char_exec(b / 16));
        push_char(&mut r, upper_hex_char_exec(b % 16));
        proof {
            assert(bytes@.take(i + 1).drop_last() =~= bytes@.take(i as int));
            assert(r@ =~= hex_upper_of(bytes@.take(i + 1)));
        }
        i = i + 1;
    }
    proof {
        assert(bytes@.take(n as int) =~= bytes@);
    }
    r
}

/// One round of the hash engine: hash the UTF-8 bytes of the state and
/// re-encode the digest as uppercase hexadecimal characters.
pub open spec fn digest_round(state: Seq<char>) -> Seq<char> {
    hex_upper_of(sha3_512_of(encode_utf8(state)))
}

/// The digest after `n` rounds, starting from the document itself.
pub open spec fn spec_digest(doc: Seq<char>, n: nat) -> Seq<char>
    decreases n,
{
    if n == 0 {
        doc
    } else {
        digest_round(spec_digest(doc, (n - 1) as nat))
    }
}

/// Computes the iterative digest of a document: `iterations` rounds of
/// SHA3-512, each re-encoded in uppercase hexadecimal.  Zero rounds return
/// the document unchanged.
pub fn compute_digest(doc: &str, iterations: u16) -> (r: String)
    ensures
        r@ == spec_digest(doc@, iterations as nat),
        iterations > 0 ==> r@.len() == 128,
{
    let mut state: String = doc.to_owned();
    let mut i: u16 = 0;
    while i < iterations
        invariant
            i <= iterations,
            state@ == spec_digest(doc@, i as nat),
            i > 0 ==> state@.len() == 128,
        decreases iterations - i,
    {
        let hashed = sha3_512(state.as_str().as_bytes());
        state = bytes_to_upper_hex(&hashed);
        proof {
            lemma_hex_upper_of_shape(hashed@);
        }
        i = i + 1;
    }
    state
}

/// Determinism: the digest is a function of the document and the round
/// count alone, so any two computations over the same inputs agree.
pub proof fn lemma_digest_deterministic(doc: Seq<char>, n: nat, r1: Seq<char>, r2: Seq<char>)
    requires
        r1 == spec_digest(doc, n),
        r2 == spec_digest(doc, n),
    ensures
        r1 == r2,
{
}

/// Zero rounds leave the document unchanged.
pub proof fn lemma_digest_zero(doc: Seq<char>)
    ensures
        spec_digest(doc, 0) == doc,
{
}

/// Iteration semantics: the digest after `n` rounds is one further round
/// applied to the digest after `n - 1` rounds.
pub proof fn lemma_digest_iteration(doc: Seq<char>, n: nat)
    requires
        n >= 1,
    ensures
        spec_digest(doc, n) == spec_digest(spec_digest(doc, (n - 1) as nat), 1),
{
    let prev = spec_digest(doc, (n - 1) as nat);
    assert(spec_digest(prev, 0) == prev);
    assert(spec_digest(prev, 1) == digest_round(prev));
}

} // verus!
