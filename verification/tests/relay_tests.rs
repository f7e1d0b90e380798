use dino_relay::relay::{
    datagram_step, parse_score, process_datagrams, relay_step, save_step, RelayAction, RelayInput,
};
use dino_relay::store::decode_record;

#[test]
fn parse_score_accepts_unsigned_decimals() {
    assert_eq!(parse_score(b"0"), Some(0));
    assert_eq!(parse_score(b"42"), Some(42));
    assert_eq!(parse_score(b"007"), Some(7));
    assert_eq!(parse_score(b"+42"), Some(42));
    assert_eq!(parse_score(b"18446744073709551615"), Some(u64::MAX));
}

#[test]
fn parse_score_rejects_everything_else() {
    assert_eq!(parse_score(b""), None);
    assert_eq!(parse_score(b"+"), None);
    assert_eq!(parse_score(b"-1"), None);
    assert_eq!(parse_score(b"4 2"), None);
    assert_eq!(parse_score(b"12a"), None);
    assert_eq!(parse_score(b"18446744073709551616"), None);
}

#[test]
fn save_request_writes_canonical_record() {
    match save_step(b"123") {
        RelayAction::WriteRecord(bytes) => {
            assert_eq!(bytes, b"{\"high_score\":123}".to_vec());
            assert_eq!(decode_record(&bytes), Ok(123));
        }
        other => panic!("unexpected action: {:?}", other),
    }
}

#[test]
fn bad_save_request_is_rejected_not_fatal() {
    assert_eq!(save_step(b"not a number"), RelayAction::RejectSaveRequest);
}

#[test]
fn datagram_becomes_emitted_event() {
    assert_eq!(datagram_step(b"j"), RelayAction::EmitEvent(b"jump".to_vec()));
}

#[test]
fn malformed_datagram_does_not_stop_the_next_one() {
    assert_eq!(datagram_step(b"\xff"), RelayAction::DropMalformedDatagram);
    assert_eq!(datagram_step(b"j"), RelayAction::EmitEvent(b"jump".to_vec()));
}

#[test]
fn relay_step_routes_both_inputs() {
    assert_eq!(
        relay_step(RelayInput::Datagram(b" j ".to_vec())),
        RelayAction::EmitEvent(b"jump".to_vec())
    );
    match relay_step(RelayInput::SaveRequest(b"9".to_vec())) {
        RelayAction::WriteRecord(bytes) => assert_eq!(decode_record(&bytes), Ok(9)),
        other => panic!("unexpected action: {:?}", other),
    }
}

#[test]
fn datagrams_are_processed_in_order() {
    let datagrams = vec![b"j".to_vec(), b"\xff".to_vec(), b"x".to_vec()];
    let actions = process_datagrams(&datagrams);
    assert_eq!(
        actions,
        vec![
            RelayAction::EmitEvent(b"jump".to_vec()),
            RelayAction::DropMalformedDatagram,
            RelayAction::EmitEvent(b"x".to_vec()),
        ]
    );
}
