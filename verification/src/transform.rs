//! The transform stage: decode each log entry, attach the digest where it
//! is absent, and re-emit the terminal records, each keyed by its record's
//! identifier.  A malformed entry is dropped without aborting the batch,
//! and a record that already carries a digest passes through unchanged.

use vstd::prelude::*;

use crate::datum::{Datum, DatumView, spec_hashed};
use crate::json::{spec_parse_datum, spec_json_of, lemma_json_round_trip};
use crate::uid::{spec_uuid_chars, uuid_to_string};

verus! {

/// One keyed payload of the replayable log.
pub struct LogEntry {
    /// The partition key: the record's identifier in string form.
    pub key: String,
    /// The serialized record.
    pub payload: String,
}

/// The mathematical value of a [`LogEntry`].
#[verifier::ext_equal]
pub struct LogEntryView {
    pub key: Seq<char>,
    pub payload: Seq<char>,
}

impl View for LogEntry {
    type V = LogEntryView;

    open spec fn view(&self) -> LogEntryView {
        LogEntryView { key: self.key@, payload: self.payload@ }
    }
}

/// The values of a sequence of log entries.
pub open spec fn entry_views(s: Seq<LogEntry>) -> Seq<LogEntryView> {
    s.map_values(|e: LogEntry| e@)
}

/// What the transform stage makes of one log entry's payload: a malformed
/// payload is refused, and a well-formed one yields the entry to re-emit,
/// keyed by the record's identifier in string form and carrying the record
/// in terminal form, its digest attached if it was absent.
pub open spec fn spec_transform_entry(p: Seq<char>) -> Option<LogEntryView> {
    match spec_parse_datum(p) {
        Some(v) => Some(
            LogEntryView { key: spec_uuid_chars(v.uuid), payload: spec_json_of(spec_hashed(v)) },
        ),
        None => None,
    }
}

/// The entries the stage re-emits for a batch, in order: one per entry
/// whose payload decodes, keyed by its record's identifier.
pub open spec fn spec_transform_entries(rs: Seq<LogEntryView>) -> Seq<LogEntryView>
    decreases rs.len(),
{
    if rs.len() == 0 {
        Seq::empty()
    } else {
        let rest = spec_transform_entries(rs.drop_last());
        match spec_transform_entry(rs.last().payload) {
            Some(e) => rest + seq![e],
            None => rest,
        }
    }
}

/// How many entries of a batch are dropped as malformed.
pub open spec fn spec_dropped_count(rs: Seq<LogEntryView>) -> int
    decreases rs.len(),
{
    if rs.len() == 0 {
        0
    } else {
        spec_dropped_count(rs.drop_last()) + if spec_transform_entry(rs.last().payload)
            is None {
            1int
        } else {
            0int
        }
    }
}

/// The outcome of one transform invocation: the re-emitted entries and the
/// count of entries dropped as malformed.
pub struct TransformOutcome {
    pub entries: Vec<LogEntry>,
    pub dropped: usize,
}

/// Processes one delivered batch: every decodable entry is re-emitted in
/// terminal form, in order, keyed by its record's identifier, and every
/// malformed entry is counted as dropped instead of aborting the batch.
pub fn transform_batch(records: &Vec<LogEntry>) -> (out: TransformOutcome)
    ensures
        entry_views(out.entries@) == spec_transform_entries(entry_views(records@)),
        out.dropped as int == spec_dropped_count(entry_views(records@)),
        out.entries@.len() + out.dropped == records@.len(),
{
    let mut entries: Vec<LogEntry> = Vec::new();
    let mut dropped: usize = 0;
    let n = records.len();
    let mut idx: usize = 0;
    while idx < n
        invariant
            idx <= n,
            n == records@.len(),
            entry_views(entries@) == spec_transform_entries(entry_views(records@.take(idx as int))),
            dropped as int == spec_dropped_count(entry_views(records@.take(idx as int))),
            entries@.len() + dropped == idx,
        decreases n - idx,
    {
        let ghost prev = entry_views(records@.take(idx as int));
        let ghost cur = entry_views(records@.take(idx + 1));
        proof {
            assert(cur.drop_last() =~= prev);
            assert(cur.last() == records@[idx as int]@);
        }
        let rec = &records[idx];
        match Datum::from_json(rec.payload.as_str()) {
            Some(mut d) => {
                d.hash();
                let key = uuid_to_string(d.uuid);
                let payload = d.to_json();
                let entry = LogEntry { key, payload };
                proof {
                    assert(spec_transform_entry(cur.last().payload) == Some(entry@));
                }
                entries.push(entry);
                proof {
                    assert(entry_views(entries@) =~= spec_transform_entries(cur));
                }
            },
            None => {
                dropped = dropped + 1;
                proof {
                    assert(entry_views(entries@) =~= spec_transform_entries(cur));
                }
            },
        }
        idx = idx + 1;
    }
    proof {
        assert(records@.take(n as int) =~= records@);
    }
    TransformOutcome { entries, dropped }
}

/// Idempotent re-emission: a record that already carries its digest is
/// re-emitted by the transform stage exactly as it arrived, under its own
/// identifier.
pub proof fn lemma_transform_reemits_terminal(v: DatumView)
    requires
        v.hash is Some,
    ensures
        spec_transform_entry(spec_json_of(v)) == Some(
            LogEntryView { key: spec_uuid_chars(v.uuid), payload: spec_json_of(v) },
        ),
{
    lemma_json_round_trip(v);
}

/// A batch whose entries all decode is re-emitted in full, with nothing
/// dropped.
pub proof fn lemma_transform_all_decode(rs: Seq<LogEntryView>)
    requires
        forall|i: int|
            0 <= i < rs.len() ==> spec_transform_entry(#[trigger] rs[i].payload) is Some,
    ensures
        spec_transform_entries(rs).len() == rs.len(),
        spec_dropped_count(rs) == 0,
    decreases rs.len(),
{
    if rs.len() > 0 {
        assert(spec_transform_entry(rs[rs.len() - 1].payload) is Some);
        lemma_transform_all_decode(rs.drop_last());
    }
}

/// Partial-failure isolation: one malformed entry among decodable ones
/// costs exactly that entry, never the batch.  Every other entry is
/// re-emitted, and exactly one drop is recorded.
pub proof fn lemma_transform_partial_failure(rs: Seq<LogEntryView>, k: int)
    requires
        0 <= k < rs.len(),
        spec_transform_entry(rs[k].payload) is None,
        forall|i: int|
            0 <= i < rs.len() && i != k ==> spec_transform_entry(#[trigger] rs[i].payload)
                is Some,
    ensures
        spec_transform_entries(rs).len() == rs.len() - 1,
        spec_dropped_count(rs) == 1,
    decreases rs.len(),
{
    if k == rs.len() - 1 {
        lemma_transform_all_decode(rs.drop_last());
    } else {
        assert(spec_transform_entry(rs[rs.len() - 1].payload) is Some);
        lemma_transform_partial_failure(rs.drop_last(), k);
    }
}

} // verus!
