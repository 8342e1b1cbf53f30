//! Tests of the three stages: the transform stage's idempotent
//! re-emission and partial-failure isolation, the sink stage's
//! at-least-once convergence, and the producer's parameter handling.

use std::collections::HashMap;

use datapipe::datum::Datum;
use datapipe::producer::{
    encode_batch, delivered_count, posted_response_body, produce_batch, u16_param_or_default,
    usize_param_or_default,
};
use datapipe::sink::{sink_batch, StoredRecord};
use datapipe::transform::{transform_batch, LogEntry};
use datapipe::uid::uuid_to_string;

fn terminal(uuid: u128, doc: &str, hashes: u16) -> Datum {
    let mut d = Datum { uuid, doc: doc.to_string(), hashes, hash: None };
    d.hash();
    d
}

fn entry(d: &Datum) -> LogEntry {
    LogEntry { key: uuid_to_string(d.uuid), payload: d.to_json() }
}

#[test]
fn datum_hash_attaches_digest_once() {
    let mut d = Datum { uuid: 1, doc: "abc".to_string(), hashes: 2, hash: None };
    d.hash();
    let first = d.hash.clone().expect("digest attached");
    d.hash();
    assert_eq!(d.hash.as_deref(), Some(first.as_str()));
    assert_eq!(first, datapipe::digest::compute_digest("abc", 2));
}

#[test]
fn datum_random_has_requested_shape() {
    let d = Datum::random(10, 5);
    assert_eq!(d.doc.chars().count(), 10);
    assert!(d.doc.chars().all(|c| c.is_ascii_alphanumeric()));
    assert_eq!(d.hashes, 5);
    assert!(d.hash.is_none());
    let e = Datum::random(10, 5);
    assert_ne!(d.uuid, e.uuid, "identifiers are fresh");
}

#[test]
fn transform_attaches_digests() {
    let d = Datum { uuid: 3, doc: "doc".to_string(), hashes: 1, hash: None };
    let out = transform_batch(&vec![entry(&d)]);
    assert_eq!(out.entries.len(), 1);
    assert_eq!(out.dropped, 0);
    assert_eq!(out.entries[0].key, uuid_to_string(3));
    let emitted = Datum::from_json(&out.entries[0].payload).expect("emitted form parses");
    assert_eq!(emitted.hash.as_deref(), Some(datapipe::digest::compute_digest("doc", 1).as_str()));
    assert_eq!(emitted.doc, "doc");
}

#[test]
fn transform_reemits_terminal_records_unchanged() {
    let d = terminal(4, "done already", 3);
    let json = d.to_json();
    let out = transform_batch(&vec![LogEntry { key: uuid_to_string(4), payload: json.clone() }]);
    assert_eq!(out.entries.len(), 1);
    assert_eq!(out.entries[0].payload, json);
}

#[test]
fn transform_keys_by_record_identifier() {
    // Even when the incoming entry arrives under some other partition key,
    // the re-emitted entry is keyed by its record's identifier.
    let d = Datum { uuid: 0xabcd, doc: "doc".to_string(), hashes: 1, hash: None };
    let out = transform_batch(&vec![LogEntry {
        key: "stale-key".to_string(),
        payload: d.to_json(),
    }]);
    assert_eq!(out.entries.len(), 1);
    assert_eq!(out.entries[0].key, uuid_to_string(0xabcd));
}

#[test]
fn transform_isolates_partial_failure() {
    let good: Vec<Datum> = (0..3)
        .map(|i| Datum { uuid: i, doc: format!("doc{}", i), hashes: 1, hash: None })
        .collect();
    let mut batch: Vec<LogEntry> = good.iter().map(entry).collect();
    batch.insert(2, LogEntry { key: "k".to_string(), payload: "garbage".to_string() });
    let out = transform_batch(&batch);
    assert_eq!(out.entries.len(), 3);
    assert_eq!(out.dropped, 1);
    for (e, d) in out.entries.iter().zip(good.iter()) {
        assert_eq!(e.key, uuid_to_string(d.uuid));
    }
}

fn apply_to_store(store: &mut HashMap<u128, (String, u16, String)>, records: &[StoredRecord]) {
    for r in records {
        store.insert(r.uuid, (r.doc.clone(), r.hashes, r.digest.clone()));
    }
}

#[test]
fn sink_converges_under_redelivery() {
    let payloads: Vec<String> =
        (0..4).map(|i| terminal(i, &format!("doc{}", i), 2).to_json()).collect();
    let once = sink_batch(&payloads);
    assert_eq!(once.records.len(), 4);
    assert_eq!(once.dropped, 0);
    assert_eq!(once.incomplete, 0);

    let mut store_once = HashMap::new();
    apply_to_store(&mut store_once, &once.records);

    let mut store_twice = HashMap::new();
    apply_to_store(&mut store_twice, &once.records);
    let again = sink_batch(&payloads);
    apply_to_store(&mut store_twice, &again.records);

    assert_eq!(store_once, store_twice);
}

#[test]
fn sink_last_write_wins_on_equal_keys() {
    let first = terminal(5, "early", 1);
    let second = terminal(5, "late", 1);
    let out = sink_batch(&vec![first.to_json(), second.to_json()]);
    assert_eq!(out.records.len(), 2);
    let mut store = HashMap::new();
    apply_to_store(&mut store, &out.records);
    assert_eq!(store.len(), 1);
    assert_eq!(store[&5].0, "late");
}

#[test]
fn sink_skips_malformed_and_digestless() {
    let terminal_record = terminal(1, "ok", 1);
    let digestless = Datum { uuid: 2, doc: "raw".to_string(), hashes: 1, hash: None };
    let payloads = vec![terminal_record.to_json(), "broken".to_string(), digestless.to_json()];
    let out = sink_batch(&payloads);
    assert_eq!(out.records.len(), 1);
    assert_eq!(out.dropped, 1);
    assert_eq!(out.incomplete, 1);
    assert_eq!(out.records[0].uuid, 1);
    assert_eq!(out.records[0].doc, "ok");
    assert_eq!(out.records[0].digest, datapipe::digest::compute_digest("ok", 1));
}

#[test]
fn producer_parameters_fall_back_to_defaults() {
    assert_eq!(u16_param_or_default(None, 100), 100);
    assert_eq!(u16_param_or_default(Some("7"), 100), 7);
    assert_eq!(u16_param_or_default(Some("007"), 100), 7);
    assert_eq!(u16_param_or_default(Some("65535"), 100), 65535);
    assert_eq!(u16_param_or_default(Some("65536"), 100), 100);
    assert_eq!(u16_param_or_default(Some("twelve"), 100), 100);
    assert_eq!(u16_param_or_default(Some(""), 100), 100);
    assert_eq!(u16_param_or_default(Some("-3"), 100), 100);
    assert_eq!(u16_param_or_default(Some("0"), 100), 100, "parameters must be positive");
    assert_eq!(usize_param_or_default(Some("0"), 1024), 1024, "parameters must be positive");
    assert_eq!(usize_param_or_default(None, 1024), 1024);
    assert_eq!(usize_param_or_default(Some("2048"), 1024), 2048);
    assert_eq!(usize_param_or_default(Some("12x"), 1024), 1024);
}

#[test]
fn producer_builds_and_encodes_batches() {
    let batch = produce_batch(16, 3, 5);
    assert_eq!(batch.len(), 5);
    for d in &batch {
        assert_eq!(d.doc.chars().count(), 16);
        assert_eq!(d.hashes, 3);
        assert!(d.hash.is_none());
    }
    let entries = encode_batch(&batch);
    assert_eq!(entries.len(), 5);
    for (e, d) in entries.iter().zip(batch.iter()) {
        assert_eq!(e.key, uuid_to_string(d.uuid));
        assert_eq!(Datum::from_json(&e.payload).expect("payload parses"), *d);
    }
}

#[test]
fn pipeline_end_to_end() {
    let batch = produce_batch(8, 2, 3);
    let transformed = transform_batch(&encode_batch(&batch));
    assert_eq!(transformed.dropped, 0);
    let payloads: Vec<String> = transformed.entries.iter().map(|e| e.payload.clone()).collect();
    let sunk = sink_batch(&payloads);
    assert_eq!(sunk.records.len(), 3);
    assert_eq!(sunk.dropped, 0);
    assert_eq!(sunk.incomplete, 0);
    for (r, d) in sunk.records.iter().zip(batch.iter()) {
        assert_eq!(r.uuid, d.uuid);
        assert_eq!(r.doc, d.doc);
        assert_eq!(r.hashes, 2);
        assert_eq!(r.digest, datapipe::digest::compute_digest(&d.doc, 2));
    }
}

#[test]
fn producer_reports_partial_success() {
    assert_eq!(delivered_count(64, 0), 64);
    assert_eq!(delivered_count(64, 10), 54);
    assert_eq!(posted_response_body(54), "54 messages posted to Kinesis.");
    assert_eq!(posted_response_body(0), "0 messages posted to Kinesis.");
}
