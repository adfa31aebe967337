use vote_broker::codec::Decoded;
use vote_broker::codec::MessageType;
use vote_broker::codec::decode;
use vote_broker::codec::encode;

#[test]
fn from_byte_reads_the_two_opcodes() {
    assert_eq!(MessageType::from_byte(0), Some(MessageType::Publish));
    assert_eq!(MessageType::from_byte(1), Some(MessageType::Subscribe));
    assert_eq!(MessageType::from_byte(2), None);
    assert_eq!(MessageType::from_byte(255), None);
}

#[test]
fn as_byte_inverts_from_byte() {
    assert_eq!(MessageType::Publish.as_byte(), 0);
    assert_eq!(MessageType::Subscribe.as_byte(), 1);
    assert_eq!(
        MessageType::from_byte(MessageType::Publish.as_byte()),
        Some(MessageType::Publish)
    );
    assert_eq!(
        MessageType::from_byte(MessageType::Subscribe.as_byte()),
        Some(MessageType::Subscribe)
    );
}

#[test]
fn encode_prefixes_one_opcode_byte() {
    assert_eq!(encode(MessageType::Publish, b"abc"), vec![0, 97, 98, 99]);
    assert_eq!(encode(MessageType::Subscribe, b""), vec![1]);
}

#[test]
fn decode_empty_read_is_disconnect() {
    assert!(matches!(decode(&[]), Decoded::Disconnect));
}

#[test]
fn decode_publish_frame_splits_opcode_and_payload() {
    match decode(&[0, 10, 20, 30]) {
        Decoded::Frame(kind, payload) => {
            assert_eq!(kind, MessageType::Publish);
            assert_eq!(payload, vec![10, 20, 30]);
        }
        other => panic!("expected a publish frame, got {:?}", other),
    }
}

#[test]
fn decode_subscribe_frame_may_have_empty_payload() {
    match decode(&[1]) {
        Decoded::Frame(kind, payload) => {
            assert_eq!(kind, MessageType::Subscribe);
            assert!(payload.is_empty());
        }
        other => panic!("expected a subscribe frame, got {:?}", other),
    }
}

#[test]
fn decode_rejects_unknown_opcodes() {
    match decode(&[9, 1, 2]) {
        Decoded::UnknownOpcode(byte) => assert_eq!(byte, 9),
        other => panic!("expected an unknown opcode, got {:?}", other),
    }
}

#[test]
fn decode_inverts_encode() {
    let frame = encode(MessageType::Publish, b"payload");
    match decode(&frame) {
        Decoded::Frame(kind, payload) => {
            assert_eq!(kind, MessageType::Publish);
            assert_eq!(payload, b"payload".to_vec());
        }
        other => panic!("expected a publish frame, got {:?}", other),
    }
}
