use pocket::packets::SimplePacket;
use pocket::protocol::Packet;

#[test]
fn ping_and_pong_encode_to_one_tag_byte() {
    assert_eq!(SimplePacket::Ping.encode(), vec![0u8]);
    assert_eq!(SimplePacket::Pong.encode(), vec![1u8]);
}

#[test]
fn message_encodes_tag_then_payload() {
    assert_eq!(
        SimplePacket::Message(vec![104, 105]).encode(),
        vec![2u8, 104, 105]
    );
    assert_eq!(SimplePacket::Message(vec![]).encode(), vec![2u8]);
}

#[test]
fn serialize_appends_without_truncating() {
    let mut buffer = vec![7u8, 7];
    SimplePacket::Ping.serialize(&mut buffer);
    assert_eq!(buffer, vec![7u8, 7, 0]);
}

#[test]
fn decode_inverts_encode() {
    let cases = vec![
        SimplePacket::Ping,
        SimplePacket::Pong,
        SimplePacket::Message(vec![]),
        SimplePacket::Message(vec![0, 1, 2, 255]),
    ];
    for p in cases {
        let bytes = p.encode();
        assert_eq!(SimplePacket::decode(bytes.as_slice()).unwrap(), p);
        assert_eq!(SimplePacket::deserialize(bytes.as_slice()).unwrap(), p);
    }
}

#[test]
fn decode_rejects_malformed_buffers() {
    assert!(SimplePacket::decode(&[]).is_err());
    assert!(SimplePacket::decode(&[0, 0]).is_err());
    assert!(SimplePacket::decode(&[1, 9]).is_err());
    assert!(SimplePacket::decode(&[3]).is_err());
    assert!(SimplePacket::decode(&[255, 1, 2]).is_err());
}
