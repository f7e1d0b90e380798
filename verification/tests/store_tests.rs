use dino_relay::store::{decode_record, encode_record, load_record, StoreError};

#[test]
fn round_trip_zero() {
    assert_eq!(decode_record(&encode_record(0)), Ok(0));
}

#[test]
fn round_trip_small_values() {
    for n in [1u64, 7, 9, 10, 42, 12345, 999_999_999] {
        assert_eq!(decode_record(&encode_record(n)), Ok(n));
    }
}

#[test]
fn round_trip_max() {
    assert_eq!(decode_record(&encode_record(u64::MAX)), Ok(u64::MAX));
}

#[test]
fn encoding_is_canonical() {
    assert_eq!(encode_record(12345), b"{\"high_score\":12345}".to_vec());
    assert_eq!(encode_record(0), b"{\"high_score\":0}".to_vec());
}

#[test]
fn default_on_absence() {
    assert_eq!(load_record(None), Ok(0));
}

#[test]
fn load_present_record() {
    assert_eq!(load_record(Some(encode_record(99))), Ok(99));
}

#[test]
fn load_corrupt_record_fails() {
    assert_eq!(
        load_record(Some(b"garbage".to_vec())),
        Err(StoreError::MalformedRecord)
    );
}

#[test]
fn decode_accepts_whitespace_between_tokens() {
    assert_eq!(decode_record(b" {\n\t\"high_score\" : 123 }\r\n"), Ok(123));
}

#[test]
fn decode_rejects_non_numeric_content() {
    let corrupt: [&[u8]; 10] = [
        b"",
        b"garbage",
        b"{}",
        b"{\"high_score\":}",
        b"{\"high_score\":-1}",
        b"{\"high_score\":true}",
        b"{\"high_score\":\"7\"}",
        b"{\"score\":1}",
        b"{\"high_score\":12",
        b"{\"high_score\":1}x",
    ];
    for bytes in corrupt {
        assert_eq!(decode_record(bytes), Err(StoreError::MalformedRecord));
    }
}

#[test]
fn decode_rejects_leading_zeros() {
    assert_eq!(decode_record(b"{\"high_score\":01}"), Err(StoreError::MalformedRecord));
    assert_eq!(decode_record(b"{\"high_score\":00}"), Err(StoreError::MalformedRecord));
}

#[test]
fn decode_rejects_values_beyond_u64() {
    assert_eq!(decode_record(b"{\"high_score\":18446744073709551615}"), Ok(u64::MAX));
    assert_eq!(
        decode_record(b"{\"high_score\":18446744073709551616}"),
        Err(StoreError::MalformedRecord)
    );
}

#[test]
fn encoded_record_parses_as_structured_document() {
    let bytes = encode_record(7);
    let value: serde_json::Value = serde_json::from_slice(&bytes).unwrap();
    assert_eq!(value.get("high_score").and_then(serde_json::Value::as_u64), Some(7));
}

#[test]
fn structured_document_decodes_as_record() {
    let mut fields = serde_json::Map::new();
    fields.insert("high_score".to_string(), serde_json::Value::from(55u64));
    let bytes = serde_json::to_vec(&serde_json::Value::Object(fields)).unwrap();
    assert_eq!(decode_record(&bytes), Ok(55));
}
