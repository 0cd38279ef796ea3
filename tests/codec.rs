use codechain_network::codec::{decode_frame, encode_frame, APPLICATION_FAMILY};
use codechain_network::connection::ApplicationFrame;
use codechain_network::codec::{CodecError, Message, DISCOVERY_FAMILY};
use codechain_network::types::PeerAddress;

#[test]
fn request_encodes_to_four_bytes() {
    let bytes = Message::Request(5).encode();
    assert_eq!(bytes, vec![3, DISCOVERY_FAMILY, 0, 5]);
}

#[test]
fn response_encodes_addresses_big_endian() {
    let m = Message::Response(vec![PeerAddress::new(0x0A000001, 0x1F90)]);
    let bytes = m.encode();
    assert_eq!(bytes, vec![3, DISCOVERY_FAMILY, 1, 0, 1, 0x0A, 0, 0, 1, 0x1F, 0x90]);
}

#[test]
fn request_round_trip() {
    for n in [0u8, 1, 5, 255] {
        match Message::decode(&Message::Request(n).encode()) {
            Ok(Message::Request(m)) => assert_eq!(m, n),
            _ => panic!("request did not decode"),
        }
    }
}

#[test]
fn response_round_trip() {
    let addrs = vec![
        PeerAddress::new(0x7F000001, 3485),
        PeerAddress::new(0xC0A80001, 0),
        PeerAddress::new(u32::MAX, u16::MAX),
    ];
    let bytes = Message::Response(addrs.clone()).encode();
    assert_eq!(bytes.len(), 5 + 6 * 3);
    match Message::decode(&bytes) {
        Ok(Message::Response(back)) => assert_eq!(back, addrs),
        _ => panic!("response did not decode"),
    }
}

#[test]
fn empty_response_round_trip() {
    let bytes = Message::Response(Vec::new()).encode();
    assert_eq!(bytes, vec![3, DISCOVERY_FAMILY, 1, 0, 0]);
    match Message::decode(&bytes) {
        Ok(Message::Response(back)) => assert!(back.is_empty()),
        _ => panic!("empty response did not decode"),
    }
}

#[test]
fn decode_rejects_truncated_input() {
    assert!(matches!(Message::decode(&[]), Err(CodecError::MalformedEncoding)));
    assert!(matches!(Message::decode(&[3, DISCOVERY_FAMILY]), Err(CodecError::MalformedEncoding)));
    assert!(matches!(Message::decode(&[3, DISCOVERY_FAMILY, 0]), Err(CodecError::MalformedEncoding)));
    assert!(matches!(Message::decode(&[3, DISCOVERY_FAMILY, 1, 0]), Err(CodecError::MalformedEncoding)));
    // declares two addresses, holds one
    let mut bytes = Message::Response(vec![PeerAddress::new(1, 2)]).encode();
    bytes[4] = 2;
    assert!(matches!(Message::decode(&bytes), Err(CodecError::MalformedEncoding)));
}

#[test]
fn decode_rejects_trailing_bytes() {
    assert!(matches!(
        Message::decode(&[3, DISCOVERY_FAMILY, 0, 5, 0]),
        Err(CodecError::MalformedEncoding)
    ));
}

#[test]
fn decode_rejects_other_family() {
    assert!(matches!(Message::decode(&[3, 0x01, 0, 5]), Err(CodecError::UnexpectedPrefix)));
    assert!(matches!(
        Message::decode(&[3, DISCOVERY_FAMILY, 7, 5]),
        Err(CodecError::UnexpectedPrefix)
    ));
}

#[test]
fn decode_rejects_wrong_field_count() {
    assert!(matches!(
        Message::decode(&[2, DISCOVERY_FAMILY, 0, 5]),
        Err(CodecError::InvalidFieldCount)
    ));
}

#[test]
fn frame_round_trip() {
    let f = ApplicationFrame { slot: 0x0102, payload: vec![9, 8, 7] };
    let bytes = encode_frame(&f);
    assert_eq!(bytes, vec![3, APPLICATION_FAMILY, 1, 2, 9, 8, 7]);
    let back = decode_frame(&bytes).unwrap();
    assert_eq!(back.slot, 0x0102);
    assert_eq!(back.payload, vec![9, 8, 7]);
    let empty = decode_frame(&encode_frame(&ApplicationFrame { slot: 0, payload: vec![] })).unwrap();
    assert!(empty.payload.is_empty());
}

#[test]
fn frame_decode_errors() {
    assert!(matches!(decode_frame(&[3, APPLICATION_FAMILY, 0]), Err(CodecError::MalformedEncoding)));
    assert!(matches!(decode_frame(&[3, DISCOVERY_FAMILY, 0, 0]), Err(CodecError::UnexpectedPrefix)));
    assert!(matches!(decode_frame(&[4, APPLICATION_FAMILY, 0, 0]), Err(CodecError::InvalidFieldCount)));
}
