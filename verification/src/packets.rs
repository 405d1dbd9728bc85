//! A small concrete packet type with a verified byte encoding. It gives the
//! `Packet` capability one implementation whose codec is proved exact, and it
//! is the message type the library's own tests exchange.

use vstd::prelude::*;
use vstd::slice::{slice_subrange, slice_to_vec};
use crate::protocol::{Packet, DecodeError};
use crate::framing::{frame_of, spec_decode_frame, FrameError};

verus! {

/// A simple application message: a ping, a pong, or a byte-string payload.
#[derive(Clone, Debug, PartialEq, Eq)]
pub enum SimplePacket {
    Ping,
    Pong,
    Message(Vec<u8>),
}

/// The mathematical value of a `SimplePacket`: the same shape with the byte
/// payload as a sequence.
pub enum SimplePacketModel {
    Ping,
    Pong,
    Message(Seq<u8>),
}

impl View for SimplePacket {
    type V = SimplePacketModel;

    open spec fn view(&self) -> SimplePacketModel {
        match self {
            SimplePacket::Ping => SimplePacketModel::Ping,
            SimplePacket::Pong => SimplePacketModel::Pong,
            SimplePacket::Message(data) => SimplePacketModel::Message(data@),
        }
    }
}

impl Packet for SimplePacket {
    /// One tag byte, then the payload for `Message`.
    open spec fn wire(&self) -> Seq<u8> {
        match self {
            SimplePacket::Ping => seq![0u8],
            SimplePacket::Pong => seq![1u8],
            SimplePacket::Message(data) => seq![2u8] + data@,
        }
    }

    fn serialize(&self, buffer: &mut Vec<u8>) {
        match self {
            SimplePacket::Ping => {
                buffer.push(0u8);
                proof {
                    assert(buffer@ == old(buffer)@ + seq![0u8]);
                }
            },
            SimplePacket::Pong => {
                buffer.push(1u8);
                proof {
                    assert(buffer@ == old(buffer)@ + seq![1u8]);
                }
            },
            SimplePacket::Message(data) => {
                buffer.push(2u8);
                let mut i: usize = 0;
                while i < data.len()
                    invariant
                        i <= data@.len(),
                        buffer@ == old(buffer)@ + seq![2u8] + data@.subrange(0, i as int),
                    decreases data@.len() - i,
                {
                    buffer.push(data[i]);
                    i = i + 1;
                    proof {
                        assert(data@.subrange(0, i as int)
                            == data@.subrange(0, i - 1) + seq![data@[i - 1]]);
                    }
                }
                proof {
                    assert(data@.subrange(0, data@.len() as int) == data@);
                    assert(buffer@ == old(buffer)@ + (seq![2u8] + data@));
                }
            },
        }
    }

    fn deserialize(buffer: &[u8]) -> (r: Result<Self, DecodeError>) {
        SimplePacket::decode(buffer)
    }
}

impl SimplePacket {
    /// The value's whole wire form as a fresh buffer.
    pub fn encode(&self) -> (r: Vec<u8>)
        ensures
            r@ == self.wire(),
    {
        let mut buffer: Vec<u8> = Vec::new();
        self.serialize(&mut buffer);
        buffer
    }

    /// The exact inverse of the encoding: succeeds precisely on the buffers
    /// that are the wire form of some packet, and returns that packet.
    pub fn decode(buffer: &[u8]) -> (r: Result<SimplePacket, DecodeError>)
        ensures
            r matches Ok(p) ==> p.wire() == buffer@,
            r is Err ==> forall|p: SimplePacket| p.wire() != buffer@,
    {
        if buffer.len() == 0 {
            return Err(DecodeError);
        }
        let tag = buffer[0];
        if tag == 0 && buffer.len() == 1 {
            Ok(SimplePacket::Ping)
        } else if tag == 1 && buffer.len() == 1 {
            Ok(SimplePacket::Pong)
        } else if tag == 2 {
            let data = slice_to_vec(slice_subrange(buffer, 1, buffer.len()));
            proof {
                assert(seq![2u8] + buffer@.subrange(1, buffer@.len() as int) == buffer@);
            }
            Ok(SimplePacket::Message(data))
        } else {
            proof {
                assert forall|p: SimplePacket| p.wire() != buffer@ by {
                    match p {
                        SimplePacket::Ping => {},
                        SimplePacket::Pong => {},
                        SimplePacket::Message(data) => {
                            assert((seq![2u8] + data@)[0] == 2u8);
                        },
                    }
                }
            }
            Err(DecodeError)
        }
    }
}

/// The wire encoding is lossless: two packets with the same wire form have the
/// same value.
pub proof fn lemma_wire_injective(a: SimplePacket, b: SimplePacket)
    requires
        a.wire() == b.wire(),
    ensures
        a@ == b@,
{
    match (a, b) {
        (SimplePacket::Message(da), SimplePacket::Message(db)) => {
            assert((seq![2u8] + da@).skip(1) =~= da@);
            assert((seq![2u8] + db@).skip(1) =~= db@);
            assert(da@ == db@);
        },
        (SimplePacket::Ping, SimplePacket::Ping) => {},
        (SimplePacket::Pong, SimplePacket::Pong) => {},
        (SimplePacket::Ping, SimplePacket::Pong) => {
            assert(a.wire()[0] == 0u8 && b.wire()[0] == 1u8);
        },
        (SimplePacket::Pong, SimplePacket::Ping) => {
            assert(a.wire()[0] == 1u8 && b.wire()[0] == 0u8);
        },
        (SimplePacket::Ping, SimplePacket::Message(_)) => {
            assert(a.wire()[0] == 0u8 && b.wire()[0] == 2u8);
        },
        (SimplePacket::Pong, SimplePacket::Message(_)) => {
            assert(a.wire()[0] == 1u8 && b.wire()[0] == 2u8);
        },
        (SimplePacket::Message(_), SimplePacket::Ping) => {
            assert(a.wire()[0] == 2u8 && b.wire()[0] == 0u8);
        },
        (SimplePacket::Message(_), SimplePacket::Pong) => {
            assert(a.wire()[0] == 2u8 && b.wire()[0] == 1u8);
        },
    }
}

/// Delivery round trip: framing a packet's wire form, then reading the frame
/// back — with whatever later bytes follow it on the stream — yields exactly
/// the bytes that reconstruct to a packet of equal value, and nothing else.
pub proof fn lemma_send_receive_round_trip(p: SimplePacket, rest: Seq<u8>)
    requires
        p.wire().len() <= u32::MAX,
    ensures
        spec_decode_frame(frame_of(p.wire()) + rest)
            == Ok::<_, FrameError>((p.wire(), 4 + p.wire().len() as int)),
        forall|q: SimplePacket| q.wire() == p.wire() ==> q@ == p@,
{
    crate::framing::lemma_frame_round_trip(p.wire(), rest);
    assert forall|q: SimplePacket| q.wire() == p.wire() implies q@ == p@ by {
        lemma_wire_injective(q, p);
    }
}

} // verus!
