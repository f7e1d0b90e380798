use dino_relay::signal::{decode_datagram, event_name, SignalError};

#[test]
fn jump_code_maps_to_jump_event() {
    let code = decode_datagram(b"j").unwrap();
    assert_eq!(code, b"j".to_vec());
    assert_eq!(event_name(&code), b"jump".to_vec());
}

#[test]
fn surrounding_whitespace_is_trimmed() {
    let code = decode_datagram(b"j\n").unwrap();
    assert_eq!(code, b"j".to_vec());
    assert_eq!(event_name(&code), b"jump".to_vec());

    let code = decode_datagram(b" j ").unwrap();
    assert_eq!(event_name(&code), b"jump".to_vec());
}

#[test]
fn other_codes_name_their_event_verbatim() {
    let code = decode_datagram(b"x").unwrap();
    assert_eq!(event_name(&code), b"x".to_vec());

    let code = decode_datagram(b"go").unwrap();
    assert_eq!(event_name(&code), b"go".to_vec());
}

#[test]
fn non_text_datagram_is_rejected() {
    assert_eq!(decode_datagram(b"\xff"), Err(SignalError::NotText));
    assert_eq!(decode_datagram(b"j\x80"), Err(SignalError::NotText));
}

#[test]
fn whitespace_only_datagram_is_rejected() {
    assert_eq!(decode_datagram(b""), Err(SignalError::EmptySignal));
    assert_eq!(decode_datagram(b"  \n"), Err(SignalError::EmptySignal));
}
