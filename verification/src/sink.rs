//! The sink stage: decode each delivered payload and persist every record
//! that carries a digest into the store, keyed by its identifier.  The
//! store is modelled as a map updated by whole-record upserts, which makes
//! redelivery of a batch converge to the state one delivery leaves.

use vstd::prelude::*;
use vstd::map::*;

use crate::datum::{Datum, DatumView, spec_hashed};
use crate::digest::spec_digest;
use crate::json::{spec_parse_datum, spec_json_of, lemma_json_round_trip};
use crate::transform::{spec_transform_entry, LogEntryView};
use crate::uid::spec_uuid_chars;

verus! {

/// A record as persisted in the store.
pub struct StoredRecord {
    pub uuid: u128,
    pub doc: String,
    pub hashes: u16,
    pub digest: String,
}

/// The mathematical value of a [`StoredRecord`].
#[verifier::ext_equal]
pub struct StoredRecordView {
    pub uuid: u128,
    pub doc: Seq<char>,
    pub hashes: u16,
    pub digest: Seq<char>,
}

impl View for StoredRecord {
    type V = StoredRecordView;

    open spec fn view(&self) -> StoredRecordView {
        StoredRecordView {
            uuid: self.uuid,
            doc: self.doc@,
            hashes: self.hashes,
            digest: self.digest@,
        }
    }
}

/// The values of a sequence of stored records.
pub open spec fn record_views(s: Seq<StoredRecord>) -> Seq<StoredRecordView> {
    s.map_values(|r: StoredRecord| r@)
}

/// The values of a sequence of payloads.
pub open spec fn payload_views(s: Seq<String>) -> Seq<Seq<char>> {
    s.map_values(|p: String| p@)
}

/// What the sink makes of one payload: a malformed payload is dropped, a
/// record still lacking its digest is not persisted, and a terminal record
/// becomes the stored record under its identifier.
pub open spec fn spec_sink_record(p: Seq<char>) -> Option<StoredRecordView> {
    match spec_parse_datum(p) {
        Some(v) => match v.hash {
            Some(h) => Some(
                StoredRecordView { uuid: v.uuid, doc: v.doc, hashes: v.hashes, digest: h },
            ),
            None => None,
        },
        None => None,
    }
}

/// The records a batch persists, in delivery order.
pub open spec fn spec_sink_records(ps: Seq<Seq<char>>) -> Seq<StoredRecordView>
    decreases ps.len(),
{
    if ps.len() == 0 {
        Seq::empty()
    } else {
        let rest = spec_sink_records(ps.drop_last());
        match spec_sink_record(ps.last()) {
            Some(r) => rest + seq![r],
            None => rest,
        }
    }
}

/// How many payloads of a batch are malformed.
pub open spec fn spec_malformed_count(ps: Seq<Seq<char>>) -> int
    decreases ps.len(),
{
    if ps.len() == 0 {
        0
    } else {
        spec_malformed_count(ps.drop_last()) + if spec_parse_datum(ps.last()) is None {
            1int
        } else {
            0int
        }
    }
}

/// How many payloads decode to a record that still lacks its digest.
pub open spec fn spec_incomplete_count(ps: Seq<Seq<char>>) -> int
    decreases ps.len(),
{
    if ps.len() == 0 {
        0
    } else {
        spec_incomplete_count(ps.drop_last()) + match spec_parse_datum(ps.last()) {
            Some(v) => if v.hash is None {
                1int
            } else {
                0int
            },
            None => 0int,
        }
    }
}

/// The outcome of one sink invocation: the records to persist, with counts
/// of payloads dropped as malformed and of records lacking a digest.
pub struct SinkOutcome {
    pub records: Vec<StoredRecord>,
    pub dropped: usize,
    pub incomplete: usize,
}

/// Processes one delivered batch: every payload that decodes to a record
/// carrying a digest yields a stored record, in order; malformed payloads
/// and digestless records are counted instead of aborting the batch.
pub fn sink_batch(payloads: &Vec<String>) -> (out: SinkOutcome)
    ensures
        record_views(out.records@) == spec_sink_records(payload_views(payloads@)),
        out.dropped as int == spec_malformed_count(payload_views(payloads@)),
        out.incomplete as int == spec_incomplete_count(payload_views(payloads@)),
        out.records@.len() + out.dropped + out.incomplete == payloads@.len(),
{
    let mut records: Vec<StoredRecord> = Vec::new();
    let mut dropped: usize = 0;
    let mut incomplete: usize = 0;
    let n = payloads.len();
    let mut idx: usize = 0;
    while idx < n
        invariant
            idx <= n,
            n == payloads@.len(),
            record_views(records@) == spec_sink_records(payload_views(payloads@.take(idx as int))),
            dropped as int == spec_malformed_count(payload_views(payloads@.take(idx as int))),
            incomplete as int == spec_incomplete_count(payload_views(payloads@.take(idx as int))),
            records@.len() + dropped + incomplete == idx,
        decreases n - idx,
    {
        let ghost cur = payload_views(payloads@.take(idx + 1));
        proof {
            assert(cur.drop_last() =~= payload_views(payloads@.take(idx as int)));
            assert(cur.last() == payloads@[idx as int]@);
        }
        match Datum::from_json(payloads[idx].as_str()) {
            Some(d) => {
                let Datum { uuid, doc, hashes, hash } = d;
                match hash {
                    Some(h) => {
                        let rec = StoredRecord { uuid, doc, hashes, digest: h };
                        records.push(rec);
                        proof {
                            assert(record_views(records@) =~= spec_sink_records(cur));
                        }
                    },
                    None => {
                        incomplete = incomplete + 1;
                        proof {
                            assert(record_views(records@) =~= spec_sink_records(cur));
                        }
                    },
                }
            },
            None => {
                dropped = dropped + 1;
                proof {
                    assert(record_views(records@) =~= spec_sink_records(cur));
                }
            },
        }
        idx = idx + 1;
    }
    proof {
        assert(payloads@.take(n as int) =~= payloads@);
    }
    SinkOutcome { records, dropped, incomplete }
}

/// One upsert: the record replaces whatever the store held under its
/// identifier.
pub open spec fn store_put(
    m: Map<u128, StoredRecordView>,
    r: StoredRecordView,
) -> Map<u128, StoredRecordView> {
    m.insert(r.uuid, r)
}

/// A batch of upserts applied in order.
pub open spec fn store_apply(
    m: Map<u128, StoredRecordView>,
    rs: Seq<StoredRecordView>,
) -> Map<u128, StoredRecordView>
    decreases rs.len(),
{
    if rs.len() == 0 {
        m
    } else {
        store_put(store_apply(m, rs.drop_last()), rs.last())
    }
}

/// The last record of `rs` keyed `k`, if any: the one whose value the
/// store keeps after the batch.
pub open spec fn last_put(rs: Seq<StoredRecordView>, k: u128) -> Option<StoredRecordView>
    decreases rs.len(),
{
    if rs.len() == 0 {
        None
    } else if rs.last().uuid == k {
        Some(rs.last())
    } else {
        last_put(rs.drop_last(), k)
    }
}

/// After a batch, each key holds the batch's last record under that key,
/// or what the store held before if the batch never wrote the key.
pub proof fn lemma_store_apply_pointwise(
    m: Map<u128, StoredRecordView>,
    rs: Seq<StoredRecordView>,
    k: u128,
)
    ensures
        store_apply(m, rs).contains_key(k) == (m.contains_key(k) || last_put(rs, k) is Some),
        last_put(rs, k) matches Some(r) ==> store_apply(m, rs).contains_key(k) && store_apply(
            m,
            rs,
        )[k] == r,
        last_put(rs, k) is None && m.contains_key(k) ==> store_apply(m, rs)[k] == m[k],
    decreases rs.len(),
{
    if rs.len() > 0 {
        lemma_store_apply_pointwise(m, rs.drop_last(), k);
    }
}

/// At-least-once convergence: applying the same batch of records twice
/// leaves the store exactly as applying it once does, because every write
/// is a whole-record upsert keyed by the record's identifier.
pub proof fn lemma_store_redelivery(m: Map<u128, StoredRecordView>, rs: Seq<StoredRecordView>)
    ensures
        store_apply(store_apply(m, rs), rs) == store_apply(m, rs),
{
    let once = store_apply(m, rs);
    let twice = store_apply(once, rs);
    assert forall|k: u128| twice.contains_key(k) == once.contains_key(k) by {
        lemma_store_apply_pointwise(m, rs, k);
        lemma_store_apply_pointwise(once, rs, k);
    }
    assert forall|k: u128| once.contains_key(k) implies twice[k] == once[k] by {
        lemma_store_apply_pointwise(m, rs, k);
        lemma_store_apply_pointwise(once, rs, k);
    }
    assert(twice =~= once);
}

/// A batch of terminal records is persisted in full, with nothing dropped.
pub proof fn lemma_sink_all_stored(ps: Seq<Seq<char>>)
    requires
        forall|i: int| 0 <= i < ps.len() ==> spec_sink_record(#[trigger] ps[i]) is Some,
    ensures
        spec_sink_records(ps).len() == ps.len(),
        spec_malformed_count(ps) == 0,
        spec_incomplete_count(ps) == 0,
    decreases ps.len(),
{
    if ps.len() > 0 {
        assert(spec_sink_record(ps[ps.len() - 1]) is Some);
        lemma_sink_all_stored(ps.drop_last());
    }
}

/// Partial-failure isolation at the sink: one malformed payload among
/// terminal records costs exactly that payload; every other record is
/// persisted and exactly one drop is recorded.
pub proof fn lemma_sink_partial_failure(ps: Seq<Seq<char>>, k: int)
    requires
        0 <= k < ps.len(),
        spec_parse_datum(ps[k]) is None,
        forall|i: int| 0 <= i < ps.len() && i != k ==> spec_sink_record(#[trigger] ps[i]) is Some,
    ensures
        spec_sink_records(ps).len() == ps.len() - 1,
        spec_malformed_count(ps) == 1,
        spec_incomplete_count(ps) == 0,
    decreases ps.len(),
{
    if k == ps.len() - 1 {
        lemma_sink_all_stored(ps.drop_last());
    } else {
        assert(spec_sink_record(ps[ps.len() - 1]) is Some);
        lemma_sink_partial_failure(ps.drop_last(), k);
    }
}

/// End to end: a fresh record emitted by the producer, carried over the
/// wire and processed by the transform stage, is re-emitted as a terminal
/// record keyed by its identifier, and the sink stores it under that same
/// identifier with exactly the hash engine's digest of its document.
pub proof fn lemma_pipeline_end_to_end(v: DatumView)
    requires
        v.hash is None,
    ensures
        spec_transform_entry(spec_json_of(v)) == Some(
            LogEntryView { key: spec_uuid_chars(v.uuid), payload: spec_json_of(spec_hashed(v)) },
        ),
        spec_sink_record(spec_json_of(spec_hashed(v))) == Some(
            StoredRecordView {
                uuid: v.uuid,
                doc: v.doc,
                hashes: v.hashes,
                digest: spec_digest(v.doc, v.hashes as nat),
            },
        ),
{
    lemma_json_round_trip(v);
    lemma_json_round_trip(spec_hashed(v));
}

/// At-least-once convergence for a delivered batch: persisting the records
/// of the same source batch twice leaves the store as one delivery does.
pub proof fn lemma_sink_batch_redelivery(m: Map<u128, StoredRecordView>, ps: Seq<Seq<char>>)
    ensures
        store_apply(store_apply(m, spec_sink_records(ps)), spec_sink_records(ps)) == store_apply(
            m,
            spec_sink_records(ps),
        ),
{
    lemma_store_redelivery(m, spec_sink_records(ps));
}

} // verus!
