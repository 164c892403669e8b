//! Tests of the frame codec and the packet codecs of all three
//! protocols: round trips, exact wire bytes and the frame size bound.

use owlnest::advertise;
use owlnest::blob;
use owlnest::messaging::{Message, Packet};
use owlnest::peer::PeerId;
use owlnest::wire::{decode_frame, encode_frame, FrameError};

fn pid(bytes: &[u8]) -> PeerId {
    PeerId::new(bytes.to_vec())
}

#[test]
fn frame_round_trip() {
    let payload: Vec<u8> = vec![1, 2, 3, 255, 0, 42];
    let mut framed = encode_frame(&payload);
    assert_eq!(framed.len(), 10);
    framed.push(99);
    let (decoded, used) = decode_frame(&framed).expect("the frame decodes");
    assert_eq!(decoded, payload);
    assert_eq!(used, 10);
}

#[test]
fn zero_length_frame_is_legal() {
    let empty: Vec<u8> = Vec::new();
    let framed = encode_frame(&empty);
    assert_eq!(framed, vec![0, 0, 0, 0]);
    let (decoded, used) = decode_frame(&framed).expect("the frame decodes");
    assert_eq!(decoded.len(), 0);
    assert_eq!(used, 4);
}

#[test]
fn oversized_frame_is_rejected() {
    // A declared length of 16 MiB + 1: 0x01000001, big endian.
    let buf: Vec<u8> = vec![0x01, 0x00, 0x00, 0x01];
    assert_eq!(decode_frame(&buf), Err(FrameError::TooLarge));
    // 16 MiB exactly is within bounds; the body is missing, so the
    // frame is merely incomplete.
    let buf2: Vec<u8> = vec![0x01, 0x00, 0x00, 0x00];
    assert_eq!(decode_frame(&buf2), Err(FrameError::Incomplete));
}

#[test]
fn truncated_frame_is_incomplete() {
    let buf: Vec<u8> = vec![0, 0, 0, 5, 1, 2];
    assert_eq!(decode_frame(&buf), Err(FrameError::Incomplete));
}

#[test]
fn message_packet_exact_bytes() {
    let msg = Message::new(pid(&[0xab]), pid(&[0x01]), 5, b"hi".to_vec());
    let p = Packet::Msg(msg);
    let bytes = p.as_bytes();
    let expected = b"{\"Msg\":{\"from\":\"ab\",\"to\":\"01\",\"timestamp\":5,\"body\":\"hi\"}}";
    assert_eq!(bytes, expected.to_vec());
}

#[test]
fn message_packet_round_trip_utf8() {
    let body = "Test MESSAGE \u{6d4b}\u{8bd5}\u{4fe1}\u{606f}\u{3002}".as_bytes().to_vec();
    let msg = Message::new(pid(&[1, 2, 3]), pid(&[4, 5]), -1234567890123, body.clone());
    let p = Packet::Msg(msg);
    let bytes = p.as_bytes();
    let back = Packet::from_bytes(&bytes).expect("the packet decodes");
    let Packet::Msg(m) = back;
    assert_eq!(m.from.as_bytes(), &vec![1, 2, 3]);
    assert_eq!(m.to.as_bytes(), &vec![4, 5]);
    assert_eq!(m.timestamp, -1234567890123);
    assert_eq!(m.body, body);
}

#[test]
fn message_packet_escapes_body() {
    let body = b"a\"b\\c".to_vec();
    let msg = Message::new(pid(&[9]), pid(&[8]), 0, body.clone());
    let bytes = Packet::Msg(msg).as_bytes();
    let expected = b"{\"Msg\":{\"from\":\"09\",\"to\":\"08\",\"timestamp\":0,\"body\":\"a\\\"b\\\\c\"}}";
    assert_eq!(bytes, expected.to_vec());
    let back = Packet::from_bytes(&bytes).expect("the packet decodes");
    let Packet::Msg(m) = back;
    assert_eq!(m.body, body);
}

#[test]
fn message_packet_refuses_trailing_bytes() {
    let msg = Message::new(pid(&[1]), pid(&[2]), 1, b"x".to_vec());
    let mut bytes = Packet::Msg(msg).as_bytes();
    bytes.push(b' ');
    assert!(Packet::from_bytes(&bytes).is_none());
}

#[test]
fn advertise_packets_round_trip() {
    let cases = vec![
        advertise::Packet::AdvertiseSelf(true),
        advertise::Packet::AdvertiseSelf(false),
        advertise::Packet::QueryAdvertisedPeer,
        advertise::Packet::AnswerAdvertisedPeer(None),
        advertise::Packet::AnswerAdvertisedPeer(Some(Vec::new())),
        advertise::Packet::AnswerAdvertisedPeer(Some(vec![pid(&[1, 2])])),
        advertise::Packet::AnswerAdvertisedPeer(Some(vec![pid(&[1]), pid(&[2, 3]), pid(&[4])])),
    ];
    for p in cases {
        let bytes = p.as_bytes();
        let back = advertise::Packet::from_bytes(&bytes).expect("the packet decodes");
        match (&p, &back) {
            (advertise::Packet::AdvertiseSelf(a), advertise::Packet::AdvertiseSelf(b)) => {
                assert_eq!(a, b)
            },
            (
                advertise::Packet::QueryAdvertisedPeer,
                advertise::Packet::QueryAdvertisedPeer,
            ) => {},
            (
                advertise::Packet::AnswerAdvertisedPeer(a),
                advertise::Packet::AnswerAdvertisedPeer(b),
            ) => match (a, b) {
                (None, None) => {},
                (Some(x), Some(y)) => {
                    assert_eq!(x.len(), y.len());
                    for (px, py) in x.iter().zip(y.iter()) {
                        assert!(px == py);
                    }
                },
                _ => panic!("option shape changed"),
            },
            _ => panic!("variant changed"),
        }
    }
}

#[test]
fn advertise_packet_exact_bytes() {
    let p = advertise::Packet::AdvertiseSelf(true);
    assert_eq!(p.as_bytes(), b"{\"AdvertiseSelf\":true}".to_vec());
    let q = advertise::Packet::QueryAdvertisedPeer;
    assert_eq!(q.as_bytes(), b"\"QueryAdvertisedPeer\"".to_vec());
    let none = advertise::Packet::AnswerAdvertisedPeer(None);
    assert_eq!(none.as_bytes(), b"{\"AnswerAdvertisedPeer\":null}".to_vec());
    let some = advertise::Packet::AnswerAdvertisedPeer(Some(vec![pid(&[0xff]), pid(&[0x10])]));
    assert_eq!(
        some.as_bytes(),
        b"{\"AnswerAdvertisedPeer\":[\"ff\",\"10\"]}".to_vec()
    );
}

#[test]
fn blob_packets_round_trip() {
    let cases = vec![
        blob::Packet::SendRequest {
            file_name: b"Cargo.lock".to_vec(),
            bytes_total: 123456,
            send_id: 3,
        },
        blob::Packet::Accept { send_id: 7 },
        blob::Packet::Reject { send_id: 8 },
        blob::Packet::Chunk { send_id: 1, offset: 16384, bytes: vec![0, 1, 2, 254, 255] },
        blob::Packet::Cancel { id: 2 },
        blob::Packet::Ack { send_id: 1, offset: 32768 },
    ];
    for p in cases {
        let bytes = p.as_bytes();
        let back = blob::Packet::from_bytes(&bytes).expect("the packet decodes");
        match (&p, &back) {
            (
                blob::Packet::SendRequest { file_name: f1, bytes_total: t1, send_id: s1 },
                blob::Packet::SendRequest { file_name: f2, bytes_total: t2, send_id: s2 },
            ) => {
                assert_eq!(f1, f2);
                assert_eq!(t1, t2);
                assert_eq!(s1, s2);
            },
            (
                blob::Packet::Accept { send_id: a },
                blob::Packet::Accept { send_id: b },
            ) => assert_eq!(a, b),
            (
                blob::Packet::Reject { send_id: a },
                blob::Packet::Reject { send_id: b },
            ) => assert_eq!(a, b),
            (
                blob::Packet::Chunk { send_id: a, offset: o1, bytes: b1 },
                blob::Packet::Chunk { send_id: b, offset: o2, bytes: b2 },
            ) => {
                assert_eq!(a, b);
                assert_eq!(o1, o2);
                assert_eq!(b1, b2);
            },
            (blob::Packet::Cancel { id: a }, blob::Packet::Cancel { id: b }) => {
                assert_eq!(a, b)
            },
            (
                blob::Packet::Ack { send_id: a, offset: o1 },
                blob::Packet::Ack { send_id: b, offset: o2 },
            ) => {
                assert_eq!(a, b);
                assert_eq!(o1, o2);
            },
            _ => panic!("variant changed"),
        }
    }
}

#[test]
fn blob_packet_exact_bytes() {
    let p = blob::Packet::Accept { send_id: 7 };
    assert_eq!(p.as_bytes(), b"{\"Accept\":{\"send_id\":7}}".to_vec());
    let c = blob::Packet::Chunk { send_id: 0, offset: 9, bytes: vec![0xde, 0xad] };
    assert_eq!(
        c.as_bytes(),
        b"{\"Chunk\":{\"send_id\":0,\"offset\":9,\"bytes\":\"dead\"}}".to_vec()
    );
    let r = blob::Packet::SendRequest { file_name: b"a.txt".to_vec(), bytes_total: 10, send_id: 0 };
    assert_eq!(
        r.as_bytes(),
        b"{\"SendRequest\":{\"file_name\":\"a.txt\",\"bytes_total\":10,\"send_id\":0}}".to_vec()
    );
}

#[test]
fn blob_packet_refuses_garbage() {
    assert!(blob::Packet::from_bytes(&b"{\"Accept\":{\"send_id\":}}".to_vec()).is_none());
    assert!(blob::Packet::from_bytes(&b"nonsense".to_vec()).is_none());
    assert!(blob::Packet::from_bytes(&b"{\"Unknown\":{}}".to_vec()).is_none());
    assert!(advertise::Packet::from_bytes(&b"{\"AdvertiseSelf\":maybe}".to_vec()).is_none());
    assert!(Packet::from_bytes(&b"{\"Msg\":{}}".to_vec()).is_none());
}

#[test]
fn blob_packet_largest_numbers() {
    let p = blob::Packet::Ack { send_id: u64::MAX, offset: u64::MAX };
    let bytes = p.as_bytes();
    let back = blob::Packet::from_bytes(&bytes).expect("the packet decodes");
    match back {
        blob::Packet::Ack { send_id, offset } => {
            assert_eq!(send_id, u64::MAX);
            assert_eq!(offset, u64::MAX);
        },
        _ => panic!("variant changed"),
    }
    // One more than the greatest 64-bit number is refused.
    let too_big = b"{\"Ack\":{\"send_id\":18446744073709551616,\"offset\":0}}".to_vec();
    assert!(blob::Packet::from_bytes(&too_big).is_none());
}

#[test]
fn advertise_answer_long_identifiers() {
    let long = pid(&[0u8, 1, 2, 3, 4, 5, 6, 7, 8, 9, 250, 251, 252, 253, 254, 255]);
    let p = advertise::Packet::AnswerAdvertisedPeer(Some(vec![long.clone()]));
    let bytes = p.as_bytes();
    match advertise::Packet::from_bytes(&bytes) {
        Some(advertise::Packet::AnswerAdvertisedPeer(Some(l))) => {
            assert_eq!(l.len(), 1);
            assert!(l[0] == long);
        },
        _ => panic!("expected the list back"),
    }
}

#[test]
fn message_packet_escapes_control_bytes() {
    let body = b"a\nb\x01".to_vec();
    let msg = Message::new(pid(&[9]), pid(&[8]), 0, body.clone());
    let bytes = Packet::Msg(msg).as_bytes();
    let expected =
        b"{\"Msg\":{\"from\":\"09\",\"to\":\"08\",\"timestamp\":0,\"body\":\"a\\u000ab\\u0001\"}}";
    assert_eq!(bytes, expected.to_vec());
    let back = Packet::from_bytes(&bytes).expect("the packet decodes");
    let Packet::Msg(m) = back;
    assert_eq!(m.body, body);
}

#[test]
fn message_parser_accepts_standard_escapes() {
    // Short escapes, the solidus escape and a latin `\u` escape, as a
    // standard JSON encoder may produce them.
    let wire =
        b"{\"Msg\":{\"from\":\"01\",\"to\":\"02\",\"timestamp\":3,\"body\":\"a\\nb\\tc\\/d\\u0041\"}}";
    let back = Packet::from_bytes(&wire.to_vec()).expect("the packet decodes");
    let Packet::Msg(m) = back;
    assert_eq!(m.body, b"a\nb\tc/dA".to_vec());
}
