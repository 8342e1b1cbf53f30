//! A verified core for a three-stage hash pipeline.
//!
//! Documents flow as [`datum::Datum`] records from a producer stage through a
//! transform stage, which attaches an iteratively computed SHA3-512 digest,
//! to a sink stage, which persists them keyed by document identity.

pub mod chars;
pub mod digest;
pub mod numfmt;
pub mod uid;
pub mod datum;
pub mod json;
pub mod transform;
pub mod sink;
pub mod producer;
pub mod stock;

