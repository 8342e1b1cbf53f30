//! Tests of the hash engine: determinism, iteration semantics, and the
//! exact value of the worked example, cross-checked against the sha3 crate.

use datapipe::digest::compute_digest;
use sha3::{Digest, Sha3_512};

fn hex_upper(bytes: &[u8]) -> String {
    bytes.iter().map(|b| format!("{:02X}", b)).collect()
}

#[test]
fn digest_zero_iterations_returns_document() {
    assert_eq!(compute_digest("abc", 0), "abc");
    assert_eq!(compute_digest("", 0), "");
}

#[test]
fn digest_is_deterministic() {
    let a = compute_digest("some document", 5);
    let b = compute_digest("some document", 5);
    assert_eq!(a, b);
}

#[test]
fn digest_two_rounds_matches_worked_example() {
    let round1 = hex_upper(&Sha3_512::digest("abc".as_bytes()));
    let round2 = hex_upper(&Sha3_512::digest(round1.as_bytes()));
    assert_eq!(compute_digest("abc", 1), round1);
    assert_eq!(compute_digest("abc", 2), round2);
}

#[test]
fn digest_iteration_composes() {
    let two = compute_digest("xyz", 2);
    let three = compute_digest("xyz", 3);
    assert_eq!(three, compute_digest(&two, 1));
}

#[test]
fn digest_output_shape() {
    let d = compute_digest("abc", 1);
    assert_eq!(d.len(), 128);
    assert!(d.chars().all(|c| c.is_ascii_digit() || ('A'..='F').contains(&c)));
}
