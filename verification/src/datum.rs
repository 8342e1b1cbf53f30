//! The unit of work flowing through the pipeline: a document with its
//! identity, its target iteration count and, once the transform stage has
//! run, its digest.

use vstd::prelude::*;

use crate::chars::is_alnum_char;
use crate::digest::{compute_digest, spec_digest};
use rand::distr::{Alphanumeric, Distribution};

verus! {

/// A document record.  The digest field is write-once: it is absent until
/// the transform stage computes it and is never recomputed afterwards.
#[derive(Debug, Clone, PartialEq, Eq)]
pub struct Datum {
    /// The globally unique identifier, assigned once at creation and used
    /// as the partition and idempotency key everywhere downstream.
    pub uuid: u128,
    /// The opaque document payload, immutable once created.
    pub doc: String,
    /// How many rounds of the hash engine the digest must apply.
    pub hashes: u16,
    /// The iterative digest of `doc`, absent until computed.
    pub hash: Option<String>,
}

/// The mathematical value of a [`Datum`].
#[verifier::ext_equal]
pub struct DatumView {
    pub uuid: u128,
    pub doc: Seq<char>,
    pub hashes: u16,
    pub hash: Option<Seq<char>>,
}

impl View for Datum {
    type V = DatumView;

    open spec fn view(&self) -> DatumView {
        DatumView {
            uuid: self.uuid,
            doc: self.doc@,
            hashes: self.hashes,
            hash: match self.hash {
                Some(h) => Some(h@),
                None => None,
            },
        }
    }
}

/// The terminal form of a record: its digest attached if it was absent,
/// everything else unchanged.  A record that already carries a digest is
/// already terminal.
pub open spec fn spec_hashed(v: DatumView) -> DatumView {
    match v.hash {
        Some(_) => v,
        None => DatumView { hash: Some(spec_digest(v.doc, v.hashes as nat)), ..v },
    }
}

/// A record with a digest passes through [`spec_hashed`] unchanged.
pub proof fn lemma_hashed_terminal_fixed(v: DatumView)
    requires
        v.hash is Some,
    ensures
        spec_hashed(v) == v,
{
}

/// Relies on `uuid::Uuid::new_v4`: a freshly generated random version-4
/// identifier, returned as its 128-bit big-endian value.
#[verifier::external_body]
fn fresh_uuid() -> u128 {
    uuid::Uuid::new_v4().as_u128()
}

/// Relies on rand's `Alphanumeric` distribution: every sampled byte is an
/// ASCII letter `A`-`Z` or `a`-`z` or a digit `0`-`9`, and exactly `len`
/// are taken.
#[verifier::external_body]
fn random_alphanumeric(len: usize) -> (r: String)
    ensures
        r@.len() == len,
        forall|i: int| 0 <= i < r@.len() ==> is_alnum_char(#[trigger] r@[i]),
{
    let mut rng = rand::rng();
    Alphanumeric.sample_iter(&mut rng).take(len).map(char::from).collect()
}

impl Datum {
    /// Creates a fresh record: a new identifier, a pseudo-random
    /// alphanumeric document of `chars` characters, the given target
    /// iteration count, and no digest yet.
    pub fn random(chars: usize, hashes: u16) -> (d: Self)
        ensures
            d@.doc.len() == chars,
            forall|i: int| 0 <= i < d@.doc.len() ==> is_alnum_char(#[trigger] d@.doc[i]),
            d@.hashes == hashes,
            d@.hash is None,
    {
        Datum { uuid: fresh_uuid(), doc: random_alphanumeric(chars), hashes, hash: None }
    }

    /// Lazily attaches the iterative digest of the document: computes it
    /// when it is absent and leaves the record untouched when it is
    /// already present (the digest is write-once).
    pub fn hash(&mut self)
        ensures
            final(self)@ == spec_hashed(old(self)@),
    {
        match &self.hash {
            Some(_) => {},
            None => {
                let d = compute_digest(self.doc.as_str(), self.hashes);
                self.hash = Some(d);
            },
        }
    }
}

impl Default for Datum {
    /// An empty record: zero identifier, empty document, no rounds, no
    /// digest.
    fn default() -> (d: Self)
        ensures
            d@.uuid == 0,
            d@.doc.len() == 0,
            d@.hashes == 0,
            d@.hash is None,
    {
        Datum { uuid: 0, doc: String::new(), hashes: 0, hash: None }
    }
}

} // verus!
