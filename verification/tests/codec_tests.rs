//! Tests of the wire codec: exact renderings, strict parsing, round trips
//! at the pipeline boundary, and agreement with an independent JSON parser.

use datapipe::datum::Datum;
use datapipe::uid::uuid_to_string;

fn sample(uuid: u128, doc: &str, hashes: u16, hash: Option<&str>) -> Datum {
    Datum { uuid, doc: doc.to_string(), hashes, hash: hash.map(|h| h.to_string()) }
}

#[test]
fn uuid_renders_hyphenated_lowercase() {
    assert_eq!(uuid_to_string(0), "00000000-0000-0000-0000-000000000000");
    assert_eq!(
        uuid_to_string(0x00112233_4455_6677_8899_aabbccddeeffu128),
        "00112233-4455-6677-8899-aabbccddeeff"
    );
    assert_eq!(
        uuid_to_string(u128::MAX),
        "ffffffff-ffff-ffff-ffff-ffffffffffff"
    );
}

#[test]
fn to_json_exact_rendering() {
    let d = sample(0x00112233_4455_6677_8899_aabbccddeeffu128, "abc", 2, None);
    assert_eq!(
        d.to_json(),
        "{\"uuid\":\"00112233-4455-6677-8899-aabbccddeeff\",\"doc\":\"abc\",\"hashes\":2,\"hash\":null}"
    );
    let e = sample(1, "x", 0, Some("AB"));
    assert_eq!(
        e.to_json(),
        "{\"uuid\":\"00000000-0000-0000-0000-000000000001\",\"doc\":\"x\",\"hashes\":0,\"hash\":\"AB\"}"
    );
}

#[test]
fn to_json_escapes_specials() {
    let d = sample(0, "a\"b\\c\nd", 1, None);
    assert_eq!(
        d.to_json(),
        "{\"uuid\":\"00000000-0000-0000-0000-000000000000\",\"doc\":\"a\\\"b\\\\c\\u000Ad\",\"hashes\":1,\"hash\":null}"
    );
}

#[test]
fn round_trip_plain() {
    let d = sample(42, "hello world", 100, None);
    let back = Datum::from_json(&d.to_json()).expect("round trip");
    assert_eq!(back, d);
}

#[test]
fn round_trip_with_digest() {
    let d = sample(u128::MAX, "payload", 3, Some("0123456789ABCDEF"));
    let back = Datum::from_json(&d.to_json()).expect("round trip");
    assert_eq!(back, d);
}

#[test]
fn round_trip_special_characters() {
    let d = sample(7, "quote \" slash \\ tab \t nul \0 unicode \u{e9}\u{1f4a1}", 9, Some("x\"y\\z"));
    let back = Datum::from_json(&d.to_json()).expect("round trip");
    assert_eq!(back, d);
}

#[test]
fn round_trip_empty_document() {
    let d = sample(0, "", 0, None);
    let back = Datum::from_json(&d.to_json()).expect("round trip");
    assert_eq!(back, d);
}

#[test]
fn from_json_rejects_malformed() {
    assert_eq!(Datum::from_json(""), None);
    assert_eq!(Datum::from_json("{}"), None);
    assert_eq!(Datum::from_json("not json at all"), None);
    // Identifier not in the canonical lowercase form.
    assert_eq!(
        Datum::from_json(
            "{\"uuid\":\"00000000-0000-0000-0000-00000000000G\",\"doc\":\"a\",\"hashes\":1,\"hash\":null}"
        ),
        None
    );
    // Iteration count with a leading zero.
    assert_eq!(
        Datum::from_json(
            "{\"uuid\":\"00000000-0000-0000-0000-000000000000\",\"doc\":\"a\",\"hashes\":01,\"hash\":null}"
        ),
        None
    );
    // Iteration count out of range.
    assert_eq!(
        Datum::from_json(
            "{\"uuid\":\"00000000-0000-0000-0000-000000000000\",\"doc\":\"a\",\"hashes\":65536,\"hash\":null}"
        ),
        None
    );
    // Trailing garbage after the object.
    assert_eq!(
        Datum::from_json(
            "{\"uuid\":\"00000000-0000-0000-0000-000000000000\",\"doc\":\"a\",\"hashes\":1,\"hash\":null}x"
        ),
        None
    );
    // Unterminated document string.
    assert_eq!(
        Datum::from_json("{\"uuid\":\"00000000-0000-0000-0000-000000000000\",\"doc\":\"a"),
        None
    );
}

#[test]
fn from_json_accepts_canonical() {
    let parsed = Datum::from_json(
        "{\"uuid\":\"00000000-0000-0000-0000-0000000000ff\",\"doc\":\"hi\",\"hashes\":65535,\"hash\":\"D\\\"E\"}"
    )
    .expect("canonical form parses");
    assert_eq!(parsed.uuid, 255);
    assert_eq!(parsed.doc, "hi");
    assert_eq!(parsed.hashes, 65535);
    assert_eq!(parsed.hash.as_deref(), Some("D\"E"));
}

#[test]
fn wire_form_is_valid_json() {
    let d = sample(9, "a\"b\\c\u{1}d\u{e9}", 4, Some("DIGEST"));
    let value: serde_json::Value = serde_json::from_str(&d.to_json()).expect("valid JSON");
    assert_eq!(
        value["uuid"].as_str().unwrap(),
        "00000000-0000-0000-0000-000000000009"
    );
    assert_eq!(value["doc"].as_str().unwrap(), "a\"b\\c\u{1}d\u{e9}");
    assert_eq!(value["hashes"].as_u64().unwrap(), 4);
    assert_eq!(value["hash"].as_str().unwrap(), "DIGEST");
    let n = sample(9, "x", 4, None);
    let value: serde_json::Value = serde_json::from_str(&n.to_json()).expect("valid JSON");
    assert!(value["hash"].is_null());
}
