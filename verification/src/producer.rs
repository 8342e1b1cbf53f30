//! The producer stage: read the request's optional parameters, falling
//! back to defaults for anything absent, malformed or out of range; make a
//! batch of fresh records; and encode them for the ingest log.

use vstd::prelude::*;

use crate::chars::is_alnum_char;
use crate::datum::Datum;
use crate::json::{spec_json_of};
use crate::numfmt::{all_digits, dec_value, dec_digits, parse_dec_bounded, u64_to_string};
use crate::transform::LogEntry;
use crate::uid::{spec_uuid_chars, uuid_to_string};

verus! {

use vstd::string::StringExecFns;

/// The document length used when the request names none.
pub const DEFAULT_DOC_CHARS: usize = 1024;

/// The iteration count used when the request names none.
pub const DEFAULT_HASH_ITERATIONS: u16 = 100;

/// The batch size used when the request names none.
pub const DEFAULT_BATCH_SIZE: usize = 64;

/// The value a present parameter contributes: its decimal reading, or the
/// default when it is malformed, zero or does not fit in sixteen bits.
/// Every parameter must be positive, so zero is out of range.
pub open spec fn spec_u16_param(s: Seq<char>, default: u16) -> u16 {
    if s.len() >= 1 && all_digits(s) && 1 <= dec_value(s) <= u16::MAX {
        dec_value(s) as u16
    } else {
        default
    }
}

/// The value a present parameter contributes: its decimal reading, or the
/// default when it is malformed, zero or does not fit in a machine word.
/// Every parameter must be positive, so zero is out of range.
pub open spec fn spec_usize_param(s: Seq<char>, default: usize) -> usize {
    if s.len() >= 1 && all_digits(s) && 1 <= dec_value(s) <= usize::MAX {
        dec_value(s) as usize
    } else {
        default
    }
}

/// Reads an optional sixteen-bit request parameter, falling back to the
/// default when it is absent, malformed or out of range.
pub fn u16_param_or_default(param: Option<&str>, default: u16) -> (r: u16)
    ensures
        param is None ==> r == default,
        param matches Some(s) ==> r == spec_u16_param(s@, default),
{
    match param {
        None => default,
        Some(s) => match parse_dec_bounded(s, 65535) {
            Some(v) => if v >= 1 {
                v as u16
            } else {
                default
            },
            None => default,
        },
    }
}

/// Reads an optional machine-word request parameter, falling back to the
/// default when it is absent, malformed or out of range.
pub fn usize_param_or_default(param: Option<&str>, default: usize) -> (r: usize)
    ensures
        param is None ==> r == default,
        param matches Some(s) ==> r == spec_usize_param(s@, default),
{
    match param {
        None => default,
        Some(s) => match parse_dec_bounded(s, usize::MAX as u64) {
            Some(v) => if v >= 1 {
                v as usize
            } else {
                default
            },
            None => default,
        },
    }
}

/// Makes a batch of `count` fresh records, each with a pseudo-random
/// alphanumeric document of `chars` characters, the given iteration
/// count, and no digest.
pub fn produce_batch(chars: usize, hashes: u16, count: usize) -> (batch: Vec<Datum>)
    ensures
        batch@.len() == count,
        forall|i: int|
            0 <= i < batch@.len() ==> {
                let v = (#[trigger] batch@[i])@;
                &&& v.doc.len() == chars
                &&& (forall|j: int| 0 <= j < v.doc.len() ==> is_alnum_char(#[trigger] v.doc[j]))
                &&& v.hashes == hashes
                &&& v.hash is None
            },
{
    let mut batch: Vec<Datum> = Vec::new();
    let mut i: usize = 0;
    while i < count
        invariant
            i <= count,
            batch@.len() == i,
            forall|p: int|
                0 <= p < batch@.len() ==> {
                    let v = (#[trigger] batch@[p])@;
                    &&& v.doc.len() == chars
                    &&& (forall|j: int| 0 <= j < v.doc.len() ==> is_alnum_char(#[trigger] v.doc[j]))
                    &&& v.hashes == hashes
                    &&& v.hash is None
                },
        decreases count - i,
    {
        let d = Datum::random(chars, hashes);
        batch.push(d);
        i = i + 1;
    }
    batch
}

/// Encodes a batch for the log: each record becomes one entry whose key is
/// the record's identifier in its canonical form and whose payload is the
/// record's wire form.
pub fn encode_batch(batch: &Vec<Datum>) -> (entries: Vec<LogEntry>)
    ensures
        entries@.len() == batch@.len(),
        forall|i: int|
            0 <= i < batch@.len() ==> {
                let e = (#[trigger] entries@[i])@;
                &&& e.key == spec_uuid_chars(batch@[i]@.uuid)
                &&& e.payload == spec_json_of(batch@[i]@)
            },
{
    let mut entries: Vec<LogEntry> = Vec::new();
    let n = batch.len();
    let mut i: usize = 0;
    while i < n
        invariant
            i <= n,
            n == batch@.len(),
            entries@.len() == i,
            forall|p: int|
                0 <= p < entries@.len() ==> {
                    let e = (#[trigger] entries@[p])@;
                    &&& e.key == spec_uuid_chars(batch@[p]@.uuid)
                    &&& e.payload == spec_json_of(batch@[p]@)
                },
        decreases n - i,
    {
        let d = &batch[i];
        let entry = LogEntry { key: uuid_to_string(d.uuid), payload: d.to_json() };
        entries.push(entry);
        i = i + 1;
    }
    entries
}

/// The count of records the log accepted, out of a batch of `total` with
/// `failed` rejections: the partial-success signal the stage reports.
pub fn delivered_count(total: usize, failed: usize) -> (r: usize)
    requires
        failed <= total,
    ensures
        r == total - failed,
{
    total - failed
}

/// The producer's reply: the count of records the log accepted.
pub fn posted_response_body(count: usize) -> (r: String)
    ensures
        r@ == dec_digits(count as int) + " messages posted to Kinesis."@,
{
    let mut r = u64_to_string(count as u64);
    r.append(" messages posted to Kinesis.");
    r
}

} // verus!
