use pocket::framing::{encode_frame, decode_frame, encode_packet, FrameError};
use pocket::packets::SimplePacket;

#[test]
fn frame_empty_payload() {
    let frame = encode_frame(&[]);
    assert_eq!(frame, vec![0u8, 0, 0, 0]);
}

#[test]
fn frame_prefix_is_little_endian_length() {
    let payload: Vec<u8> = vec![9, 8, 7];
    let frame = encode_frame(payload.as_slice());
    assert_eq!(frame, vec![3u8, 0, 0, 0, 9, 8, 7]);
}

#[test]
fn frame_prefix_of_long_payload() {
    let payload: Vec<u8> = vec![42u8; 600];
    let frame = encode_frame(payload.as_slice());
    assert_eq!(frame.len(), 604);
    assert_eq!(&frame[0..4], &[88u8, 2, 0, 0]);
    assert_eq!(&frame[4..], payload.as_slice());
}

#[test]
fn decode_returns_payload_and_consumed() {
    let r = decode_frame(&[2, 0, 0, 0, 5, 6, 99]).unwrap();
    assert_eq!(r.0, vec![5u8, 6]);
    assert_eq!(r.1, 6);
}

#[test]
fn decode_short_header() {
    assert_eq!(decode_frame(&[1, 0, 0]), Err(FrameError::ShortHeader));
    assert_eq!(decode_frame(&[]), Err(FrameError::ShortHeader));
}

#[test]
fn decode_short_payload() {
    assert_eq!(decode_frame(&[5, 0, 0, 0, 1, 2]), Err(FrameError::ShortPayload));
}

#[test]
fn frame_round_trip_up_to_bound() {
    for len in 0..100usize {
        let payload: Vec<u8> = (0..len).map(|i| (i % 251) as u8).collect();
        let frame = encode_frame(payload.as_slice());
        let (back, consumed) = decode_frame(frame.as_slice()).unwrap();
        assert_eq!(back, payload);
        assert_eq!(consumed, frame.len());
    }
}

#[test]
fn encode_packet_frames_the_wire_form() {
    let p = SimplePacket::Message(vec![10, 20]);
    let frame = encode_packet(&p).unwrap();
    assert_eq!(frame, vec![3u8, 0, 0, 0, 2, 10, 20]);
}
