//! The client side of one connection: the two hand-off queues and the liveness
//! flag, as the application and the two I/O loops observe them. The socket
//! work around this state is the embedding program's: it feeds every framed
//! payload it reads to `handle_incoming`, writes out what `take_outgoing`
//! hands it, and calls `disconnect` when either direction fails or the
//! application tears the connection down.

use vstd::prelude::*;
use crate::protocol::{Packet, NetworkQueue};

verus! {

/// Connection state for a client that sends `C` packets and receives `S`
/// packets.
pub struct Client<C: Packet, S: Packet> {
    queue: NetworkQueue<C, S>,
    running: bool,
}

impl<C: Packet, S: Packet> Client<C, S> {
    /// The packets enqueued by `send` and not yet taken by the write loop,
    /// oldest first.
    pub closed spec fn outgoing(self) -> Seq<C> {
        self.queue.pending_send()
    }

    /// The packets delivered by the read loop and not yet drained by
    /// `received`, oldest first.
    pub closed spec fn incoming(self) -> Seq<S> {
        self.queue.pending_receive()
    }

    /// The liveness flag: true until an I/O failure or an explicit disconnect,
    /// and never true again afterwards.
    pub closed spec fn is_running(self) -> bool {
        self.running
    }

    /// A fresh connection: live, with both queues empty.
    pub fn new() -> (c: Self)
        ensures
            c.outgoing() == Seq::<C>::empty(),
            c.incoming() == Seq::<S>::empty(),
            c.is_running(),
    {
        Client { queue: NetworkQueue::new(), running: true }
    }

    /// Enqueues `packet` for the write loop. Never blocks, and gives no
    /// guarantee that the peer has received anything when it returns.
    pub fn send(&mut self, packet: C)
        ensures
            final(self).outgoing() == old(self).outgoing().push(packet),
            final(self).incoming() == old(self).incoming(),
            final(self).is_running() == old(self).is_running(),
    {
        self.queue.add_sendable(packet);
    }

    /// Atomically drains everything the read loop has delivered since the last
    /// call, in arrival order; an immediate second call returns an empty
    /// batch.
    pub fn received(&mut self) -> (batch: Vec<S>)
        ensures
            batch@ == old(self).incoming(),
            final(self).incoming() == Seq::<S>::empty(),
            final(self).outgoing() == old(self).outgoing(),
            final(self).is_running() == old(self).is_running(),
    {
        self.queue.take_received()
    }

    /// The write loop's side of the outbound queue: atomically drains every
    /// packet waiting to be framed and written, in FIFO order.
    pub fn take_outgoing(&mut self) -> (batch: Vec<C>)
        ensures
            batch@ == old(self).outgoing(),
            final(self).outgoing() == Seq::<C>::empty(),
            final(self).incoming() == old(self).incoming(),
            final(self).is_running() == old(self).is_running(),
    {
        self.queue.take_sendable()
    }

    /// The read loop's step after one framed payload arrived: decode it and
    /// hand it to the application. A decode failure is terminal for the
    /// connection: the liveness flag drops and the payload is discarded.
    pub fn handle_incoming(&mut self, payload: &[u8]) -> (ok: bool)
        ensures
            ok ==> {
                &&& final(self).incoming().len() == old(self).incoming().len() + 1
                &&& final(self).incoming().last().wire() == payload@
                &&& final(self).incoming().take(old(self).incoming().len() as int)
                    == old(self).incoming()
                &&& final(self).is_running() == old(self).is_running()
            },
            !ok ==> {
                &&& final(self).incoming() == old(self).incoming()
                &&& !final(self).is_running()
            },
            final(self).outgoing() == old(self).outgoing(),
    {
        match S::deserialize(payload) {
            Ok(packet) => {
                self.queue.add_received(packet);
                proof {
                    assert(self.incoming().take(old(self).incoming().len() as int)
                        =~= old(self).incoming());
                }
                true
            },
            Err(_) => {
                self.running = false;
                false
            },
        }
    }

    /// The current liveness flag value.
    pub fn running(&self) -> (r: bool)
        ensures
            r == self.is_running(),
    {
        self.running
    }

    /// Tears the connection down: drops the liveness flag so both loops
    /// terminate. Queues keep their contents for a final drain.
    pub fn disconnect(&mut self)
        ensures
            !final(self).is_running(),
            final(self).outgoing() == old(self).outgoing(),
            final(self).incoming() == old(self).incoming(),
    {
        self.running = false;
    }
}

} // verus!
