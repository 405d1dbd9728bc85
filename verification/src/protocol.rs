//! The packet capability — a typed value that knows its own byte encoding —
//! and the hand-off queue that decouples the I/O loops from application code.

use vstd::prelude::*;

verus! {

/// A payload that cannot be reconstructed: malformed, truncated, or followed
/// by trailing bytes.
#[derive(Clone, Copy, Debug, PartialEq, Eq, Structural)]
pub struct DecodeError;

/// The contract a message type must satisfy: it can serialize itself into a
/// growable byte buffer and reconstruct itself from a byte slice.
pub trait Packet: Sized {
    /// The value's byte encoding on the wire. An implementation whose codec
    /// is verified overrides this with its real encoding; the default says
    /// nothing useful and supports implementations outside the proofs.
    open spec fn wire(&self) -> Seq<u8> {
        Seq::empty()
    }

    /// Appends the wire form of `self` to `buffer`; bytes already present are
    /// neither truncated nor overwritten.
    fn serialize(&self, buffer: &mut Vec<u8>)
        ensures
            final(buffer)@ == old(buffer)@ + self.wire(),
    ;

    /// Reconstructs a value from `buffer`; a success consumed the buffer in
    /// its entirety.
    fn deserialize(buffer: &[u8]) -> (r: Result<Self, DecodeError>)
        ensures
            r matches Ok(p) ==> p.wire() == buffer@,
    ;
}

/// A pair of FIFO hand-off queues for one connection: packets waiting to be
/// written to the socket, and packets read from it waiting for the
/// application.
pub struct NetworkQueue<S: Packet, R: Packet> {
    send: Vec<S>,
    receive: Vec<R>,
}

impl<S: Packet, R: Packet> NetworkQueue<S, R> {
    /// The outbound packets, oldest first.
    pub closed spec fn pending_send(self) -> Seq<S> {
        self.send@
    }

    /// The inbound packets, oldest first.
    pub closed spec fn pending_receive(self) -> Seq<R> {
        self.receive@
    }

    pub fn new() -> (q: Self)
        ensures
            q.pending_send() == Seq::<S>::empty(),
            q.pending_receive() == Seq::<R>::empty(),
    {
        NetworkQueue { send: Vec::new(), receive: Vec::new() }
    }

    /// Enqueues one outbound packet behind everything already waiting.
    pub fn add_sendable(&mut self, packet: S)
        ensures
            final(self).pending_send() == old(self).pending_send().push(packet),
            final(self).pending_receive() == old(self).pending_receive(),
    {
        self.send.push(packet);
    }

    /// Atomically empties the outbound queue and returns the whole batch in
    /// FIFO order; a second call with nothing enqueued in between returns an
    /// empty batch.
    pub fn take_sendable(&mut self) -> (batch: Vec<S>)
        ensures
            batch@ == old(self).pending_send(),
            final(self).pending_send() == Seq::<S>::empty(),
            final(self).pending_receive() == old(self).pending_receive(),
    {
        let mut batch: Vec<S> = Vec::new();
        core::mem::swap(&mut batch, &mut self.send);
        batch
    }

    /// Enqueues one inbound packet behind everything already waiting.
    pub fn add_received(&mut self, packet: R)
        ensures
            final(self).pending_receive() == old(self).pending_receive().push(packet),
            final(self).pending_send() == old(self).pending_send(),
    {
        self.receive.push(packet);
    }

    /// Atomically empties the inbound queue and returns the whole batch in
    /// FIFO order; a second call with nothing enqueued in between returns an
    /// empty batch.
    pub fn take_received(&mut self) -> (batch: Vec<R>)
        ensures
            batch@ == old(self).pending_receive(),
            final(self).pending_receive() == Seq::<R>::empty(),
            final(self).pending_send() == old(self).pending_send(),
    {
        let mut batch: Vec<R> = Vec::new();
        core::mem::swap(&mut batch, &mut self.receive);
        batch
    }
}

impl<S: Packet, R: Packet> Default for NetworkQueue<S, R> {
    fn default() -> (q: Self)
        ensures
            q.pending_send() == Seq::<S>::empty(),
            q.pending_receive() == Seq::<R>::empty(),
    {
        NetworkQueue::new()
    }
}

} // verus!
