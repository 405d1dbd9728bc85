//! The framing codec: every message on the wire is a 4-byte little-endian
//! unsigned length followed by exactly that many payload bytes.

use vstd::prelude::*;
use vstd::slice::slice_subrange;
use crate::protocol::Packet;
use vstd::bytes::{
    spec_u32_to_le_bytes, spec_u32_from_le_bytes, u32_to_le_bytes, u32_from_le_bytes,
    lemma_auto_spec_u32_to_from_le_bytes,
};

verus! {

/// A framing failure: the buffer ends before one whole frame is present.
#[derive(Clone, Copy, Debug, PartialEq, Eq, Structural)]
pub enum FrameError {
    /// Fewer than 4 bytes: the length prefix itself is incomplete.
    ShortHeader,
    /// The length prefix promises more payload bytes than the buffer holds.
    ShortPayload,
}

/// The wire form of one payload: its length as 4 little-endian bytes, then the
/// payload itself.
pub open spec fn frame_of(payload: Seq<u8>) -> Seq<u8>
    recommends
        payload.len() <= u32::MAX,
{
    spec_u32_to_le_bytes(payload.len() as u32) + payload
}

/// What reading one frame from the front of `bytes` yields: the payload and the
/// number of bytes consumed, or the framing failure.
pub open spec fn spec_decode_frame(bytes: Seq<u8>) -> Result<(Seq<u8>, int), FrameError> {
    if bytes.len() < 4 {
        Err(FrameError::ShortHeader)
    } else {
        let len = spec_u32_from_le_bytes(bytes.subrange(0, 4)) as int;
        if bytes.len() - 4 < len {
            Err(FrameError::ShortPayload)
        } else {
            Ok((bytes.subrange(4, 4 + len), 4 + len))
        }
    }
}

/// Wraps `payload` in one frame.
pub fn encode_frame(payload: &[u8]) -> (r: Vec<u8>)
    requires
        payload@.len() <= u32::MAX,
    ensures
        r@ == frame_of(payload@),
{
    let len: u32 = payload.len() as u32;
    let mut out = u32_to_le_bytes(len);
    let mut i: usize = 0;
    while i < payload.len()
        invariant
            i <= payload@.len() <= u32::MAX,
            out@ == spec_u32_to_le_bytes(payload@.len() as u32) + payload@.subrange(0, i as int),
        decreases payload@.len() - i,
    {
        out.push(payload[i]);
        i = i + 1;
        proof {
            assert(payload@.subrange(0, i as int)
                == payload@.subrange(0, i - 1) + seq![payload@[i - 1]]);
        }
    }
    proof {
        assert(payload@.subrange(0, payload@.len() as int) == payload@);
    }
    out
}

/// Reads one frame from the front of `bytes`: returns the payload and how many
/// bytes the frame occupied, or the framing failure when the buffer is short.
pub fn decode_frame(bytes: &[u8]) -> (r: Result<(Vec<u8>, usize), FrameError>)
    ensures
        match r {
            Ok((payload, consumed)) =>
                spec_decode_frame(bytes@) == Ok::<_, FrameError>((payload@, consumed as int)),
            Err(e) => spec_decode_frame(bytes@) == Err::<(Seq<u8>, int), _>(e),
        },
{
    if bytes.len() < 4 {
        return Err(FrameError::ShortHeader);
    }
    let header = slice_subrange(bytes, 0, 4);
    let len = u32_from_le_bytes(header);
    let len_us = len as usize;
    if bytes.len() - 4 < len_us {
        return Err(FrameError::ShortPayload);
    }
    let mut payload: Vec<u8> = Vec::new();
    let mut i: usize = 0;
    while i < len_us
        invariant
            i <= len_us,
            4 + len_us <= bytes@.len(),
            4 + len_us <= usize::MAX,
            payload@ == bytes@.subrange(4, 4 + i as int),
        decreases len_us - i,
    {
        let j: usize = 4 + i;
        payload.push(bytes[j]);
        i = i + 1;
        proof {
            assert(bytes@.subrange(4, 4 + i as int)
                == bytes@.subrange(4, 4 + i - 1) + seq![bytes@[4 + i - 1]]);
        }
    }
    proof {
        assert(bytes@.subrange(0, 4) == header@);
    }
    Ok((payload, 4 + len_us))
}

/// Serializes one packet and wraps it in one frame, the write loop's work for
/// one outbound packet. `None` when the encoding is too long for the 4-byte
/// length prefix; such a packet cannot be framed and the connection must be
/// torn down.
pub fn encode_packet<P: Packet>(packet: &P) -> (r: Option<Vec<u8>>)
    ensures
        match r {
            Some(v) => v@ == frame_of(packet.wire()) && packet.wire().len() <= u32::MAX,
            None => packet.wire().len() > u32::MAX,
        },
{
    let mut payload: Vec<u8> = Vec::new();
    packet.serialize(&mut payload);
    if payload.len() > u32::MAX as usize {
        return None;
    }
    Some(encode_frame(payload.as_slice()))
}

/// The frame round trip: decoding an encoded payload, with anything after it in
/// the buffer, yields exactly that payload and consumes exactly the frame; and
/// the length prefix of the frame holds exactly the payload's byte count.
pub proof fn lemma_frame_round_trip(payload: Seq<u8>, rest: Seq<u8>)
    requires
        payload.len() <= u32::MAX,
    ensures
        spec_decode_frame(frame_of(payload) + rest)
            == Ok::<_, FrameError>((payload, 4 + payload.len() as int)),
        spec_u32_from_le_bytes(frame_of(payload).subrange(0, 4)) == payload.len(),
{
    lemma_auto_spec_u32_to_from_le_bytes();
    let bytes = frame_of(payload) + rest;
    assert(bytes.subrange(0, 4) == spec_u32_to_le_bytes(payload.len() as u32));
    assert(frame_of(payload).subrange(0, 4) == spec_u32_to_le_bytes(payload.len() as u32));
    assert(bytes.subrange(4, 4 + payload.len() as int) == payload);
}

} // verus!
