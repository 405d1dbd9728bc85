//! The server core: per-connection session state, the registry mapping remote
//! addresses to sessions, and the shared event list. The embedding program
//! owns the sockets and threads and drives this state: the acceptor calls
//! `accept_client`, each per-connection read loop calls `receive_message`,
//! each write loop drains `take_outgoing`, the maintenance loop calls `sweep`
//! on its period, and teardown calls `shutdown`.

use vstd::prelude::*;
use vstd::slice::slice_index_get;
use crate::addr::SockAddr;
use crate::protocol::Packet;

verus! {

/// A notification for the server's owner, drained in arrival order.
#[derive(Debug, PartialEq, Eq)]
pub enum ServerEvent<P: Packet> {
    /// A new connection from this address was accepted and registered.
    Connect(SockAddr),
    /// One decoded packet arrived on the connection from this address.
    Message(SockAddr, P),
    /// The connection from this address died or was torn down; emitted exactly
    /// once per connection, by whichever loop performed the liveness
    /// transition.
    Disconnect(SockAddr),
}

/// One registered connection: its remote address, its outbound queue, and the
/// write-once-false liveness flag that arbitrates disconnect emission.
pub struct ServerClient<S: Packet> {
    address: SockAddr,
    send: Vec<S>,
    connected: bool,
}

/// The liveness transition as one step: if the session is still connected, it
/// becomes disconnected and exactly one `Disconnect` event is appended;
/// otherwise nothing changes. This is the single arbitration point for
/// disconnect emission.
pub closed spec fn spec_disconnect<C: Packet, S: Packet>(
    c: ServerClient<S>,
    events: Seq<ServerEvent<C>>,
) -> (ServerClient<S>, Seq<ServerEvent<C>>) {
    if c.connected {
        (
            ServerClient { connected: false, ..c },
            events.push(ServerEvent::Disconnect(c.address)),
        )
    } else {
        (c, events)
    }
}

impl<S: Packet> ServerClient<S> {
    /// The remote address the session was registered under.
    pub closed spec fn spec_address(self) -> SockAddr {
        self.address
    }

    /// The outbound packets this session's write loop has not yet taken,
    /// oldest first.
    pub closed spec fn pending_send(self) -> Seq<S> {
        self.send@
    }

    /// The liveness flag: true until the first failure or explicit disconnect.
    pub closed spec fn is_connected(self) -> bool {
        self.connected
    }

    /// A fresh, live session for one accepted connection.
    pub fn new(address: SockAddr) -> (c: Self)
        ensures
            c.spec_address() == address,
            c.pending_send() == Seq::<S>::empty(),
            c.is_connected(),
    {
        ServerClient { address, send: Vec::new(), connected: true }
    }

    /// Enqueues one outbound packet; never blocks.
    pub fn send(&mut self, packet: S)
        ensures
            final(self).pending_send() == old(self).pending_send().push(packet),
            final(self).spec_address() == old(self).spec_address(),
            final(self).is_connected() == old(self).is_connected(),
    {
        self.send.push(packet);
    }

    /// The write loop's drain: atomically empties the outbound queue and
    /// returns the whole batch in FIFO order.
    pub fn take_sendable(&mut self) -> (batch: Vec<S>)
        ensures
            batch@ == old(self).pending_send(),
            final(self).pending_send() == Seq::<S>::empty(),
            final(self).spec_address() == old(self).spec_address(),
            final(self).is_connected() == old(self).is_connected(),
    {
        let mut batch: Vec<S> = Vec::new();
        core::mem::swap(&mut batch, &mut self.send);
        batch
    }

    /// The current liveness flag value.
    pub fn running(&self) -> (r: bool)
        ensures
            r == self.is_connected(),
    {
        self.connected
    }

    /// Drops the liveness flag without emitting anything: server teardown
    /// halts every session silently.
    fn halt(&mut self)
        ensures
            *final(self) == spec_halt(*old(self)),
    {
        self.connected = false;
    }

    /// Performs the liveness transition: exactly `spec_disconnect`. Only the
    /// call that finds the session still connected appends the `Disconnect`
    /// event; every later call leaves everything unchanged.
    pub fn disconnect<C: Packet>(&mut self, events: &mut Vec<ServerEvent<C>>)
        ensures
            (*final(self), final(events)@)
                == spec_disconnect::<C, S>(*old(self), old(events)@),
            !final(self).is_connected(),
            final(self).pending_send() == old(self).pending_send(),
            final(self).spec_address() == old(self).spec_address(),
    {
        if self.connected {
            self.connected = false;
            events.push(ServerEvent::Disconnect(self.address));
        }
    }
}

/// Disconnect emission is exactly-once per connection: however many loops run
/// the liveness transition, the first to find the session connected appends
/// one `Disconnect` event and every later run changes nothing.
pub proof fn lemma_disconnect_exactly_once<C: Packet, S: Packet>(
    c: ServerClient<S>,
    events: Seq<ServerEvent<C>>,
)
    ensures
        ({
            let (c1, e1) = spec_disconnect::<C, S>(c, events);
            let (c2, e2) = spec_disconnect::<C, S>(c1, e1);
            &&& !c1.is_connected()
            &&& (c.is_connected() ==> e1
                == events.push(ServerEvent::Disconnect(c.spec_address())))
            &&& (!c.is_connected() ==> e1 == events)
            &&& (c2, e2) == (c1, e1)
        }),
{
}

/// The first session registered under `a`, if any.
pub open spec fn lookup_client<S: Packet>(
    entries: Seq<(SockAddr, ServerClient<S>)>,
    a: SockAddr,
) -> Option<ServerClient<S>>
    decreases entries.len(),
{
    if entries.len() == 0 {
        None
    } else if entries[0].0 == a {
        Some(entries[0].1)
    } else {
        lookup_client(entries.skip(1), a)
    }
}

/// No two registry entries share an address.
pub open spec fn unique_addrs<S: Packet>(entries: Seq<(SockAddr, ServerClient<S>)>) -> bool {
    forall|i: int, j: int| 0 <= i < j < entries.len() ==> entries[i].0 != entries[j].0
}

/// Every entry's session carries the address it is registered under.
pub open spec fn addrs_consistent<S: Packet>(entries: Seq<(SockAddr, ServerClient<S>)>) -> bool {
    forall|i: int| 0 <= i < entries.len() ==> (#[trigger] entries[i]).1.spec_address()
        == entries[i].0
}

proof fn lemma_lookup_skip<S: Packet>(
    entries: Seq<(SockAddr, ServerClient<S>)>,
    a: SockAddr,
    i: int,
)
    requires
        0 <= i <= entries.len(),
        forall|j: int| 0 <= j < i ==> (#[trigger] entries[j]).0 != a,
    ensures
        lookup_client(entries, a) == lookup_client(entries.skip(i), a),
    decreases i,
{
    if i > 0 {
        assert(entries[0].0 != a);
        let tail = entries.skip(1);
        assert(forall|j: int| 0 <= j < i - 1 ==> (#[trigger] tail[j]).0 != a);
        lemma_lookup_skip(tail, a, i - 1);
        assert(tail.skip(i - 1) =~= entries.skip(i));
    } else {
        assert(entries.skip(0) =~= entries);
    }
}

/// Characterizes lookup by index: a found session sits at the first matching
/// index; a miss means no entry has the address.
proof fn lemma_lookup_index<S: Packet>(entries: Seq<(SockAddr, ServerClient<S>)>, a: SockAddr)
    ensures
        match lookup_client(entries, a) {
            Some(c) => exists|i: int|
                0 <= i < entries.len() && (#[trigger] entries[i]).0 == a && entries[i].1 == c,
            None => forall|i: int| 0 <= i < entries.len() ==> (#[trigger] entries[i]).0 != a,
        },
    decreases entries.len(),
{
    if entries.len() > 0 {
        if entries[0].0 == a {
            assert((#[trigger] entries[0]).0 == a);
        } else {
            let tail = entries.skip(1);
            lemma_lookup_index(tail, a);
            match lookup_client(tail, a) {
                Some(c) => {
                    let i = choose|i: int|
                        0 <= i < tail.len() && (#[trigger] tail[i]).0 == a && tail[i].1 == c;
                    assert((#[trigger] entries[i + 1]).0 == a && entries[i + 1].1 == c);
                },
                None => {
                    assert forall|i: int| 0 <= i < entries.len() implies (#[trigger] entries[i]).0
                        != a by {
                        if i > 0 {
                            assert(tail[i - 1] == entries[i]);
                        }
                    }
                },
            }
        }
    }
}

proof fn lemma_lookup_found<S: Packet>(
    entries: Seq<(SockAddr, ServerClient<S>)>,
    a: SockAddr,
    i: int,
)
    requires
        unique_addrs(entries),
        0 <= i < entries.len(),
        entries[i].0 == a,
    ensures
        lookup_client(entries, a) == Some(entries[i].1),
{
    assert(forall|j: int| 0 <= j < i ==> (#[trigger] entries[j]).0 != a);
    lemma_lookup_skip(entries, a, i);
    assert(entries.skip(i)[0] == entries[i]);
}

proof fn lemma_lookup_absent<S: Packet>(entries: Seq<(SockAddr, ServerClient<S>)>, a: SockAddr)
    requires
        forall|j: int| 0 <= j < entries.len() ==> (#[trigger] entries[j]).0 != a,
    ensures
        lookup_client(entries, a) is None,
{
    lemma_lookup_skip(entries, a, entries.len() as int);
    assert(entries.skip(entries.len() as int).len() == 0);
}

proof fn lemma_lookup_update<S: Packet>(
    entries: Seq<(SockAddr, ServerClient<S>)>,
    i: int,
    c: ServerClient<S>,
    x: SockAddr,
)
    requires
        unique_addrs(entries),
        0 <= i < entries.len(),
    ensures
        unique_addrs(entries.update(i, (entries[i].0, c))),
        lookup_client(entries.update(i, (entries[i].0, c)), x) == if x == entries[i].0 {
            Some(c)
        } else {
            lookup_client(entries, x)
        },
    decreases entries.len(),
{
    let updated = entries.update(i, (entries[i].0, c));
    assert(forall|k: int| 0 <= k < entries.len() ==> (#[trigger] updated[k]).0 == entries[k].0);
    if i == 0 {
        assert(updated.skip(1) =~= entries.skip(1));
    } else {
        let tail = entries.skip(1);
        assert(unique_addrs(tail)) by {
            assert(forall|p: int, q: int|
                0 <= p < q < tail.len() ==> (#[trigger] tail[p]).0 != (#[trigger] tail[q]).0);
        }
        assert(tail[i - 1] == entries[i]);
        lemma_lookup_update(tail, i - 1, c, x);
        assert(updated.skip(1) =~= tail.update(i - 1, (tail[i - 1].0, c)));
        assert(entries[0].0 != entries[i].0);
    }
}

proof fn lemma_lookup_remove<S: Packet>(
    entries: Seq<(SockAddr, ServerClient<S>)>,
    i: int,
    x: SockAddr,
)
    requires
        unique_addrs(entries),
        0 <= i < entries.len(),
    ensures
        unique_addrs(entries.remove(i)),
        lookup_client(entries.remove(i), x) == if x == entries[i].0 {
            None::<ServerClient<S>>
        } else {
            lookup_client(entries, x)
        },
    decreases entries.len(),
{
    let removed = entries.remove(i);
    assert(forall|p: int, q: int|
        0 <= p < q < removed.len() ==> (#[trigger] removed[p]).0 != (#[trigger] removed[q]).0);
    if i == 0 {
        assert(removed =~= entries.skip(1));
        if x == entries[0].0 {
            assert(forall|j: int|
                0 <= j < removed.len() ==> (#[trigger] removed[j]).0 != x);
            lemma_lookup_absent(removed, x);
        }
    } else {
        let tail = entries.skip(1);
        assert(unique_addrs(tail)) by {
            assert(forall|p: int, q: int|
                0 <= p < q < tail.len() ==> (#[trigger] tail[p]).0 != (#[trigger] tail[q]).0);
        }
        assert(tail[i - 1] == entries[i]);
        lemma_lookup_remove(tail, i - 1, x);
        assert(removed.skip(1) =~= tail.remove(i - 1));
        assert(removed[0] == entries[0]);
        assert(entries[0].0 != entries[i].0);
    }
}

proof fn lemma_lookup_push<S: Packet>(
    entries: Seq<(SockAddr, ServerClient<S>)>,
    a: SockAddr,
    c: ServerClient<S>,
    x: SockAddr,
)
    requires
        unique_addrs(entries),
        forall|j: int| 0 <= j < entries.len() ==> (#[trigger] entries[j]).0 != a,
    ensures
        unique_addrs(entries.push((a, c))),
        lookup_client(entries.push((a, c)), x) == if x == a {
            Some(c)
        } else {
            lookup_client(entries, x)
        },
    decreases entries.len(),
{
    let pushed = entries.push((a, c));
    assert(forall|p: int, q: int|
        0 <= p < q < pushed.len() ==> (#[trigger] pushed[p]).0 != (#[trigger] pushed[q]).0);
    if entries.len() == 0 {
        assert(pushed[0] == (a, c));
        assert(pushed.skip(1).len() == 0);
        if x == a {
            assert(lookup_client(pushed, x) == Some(c));
        } else {
            assert(lookup_client(pushed, x) == lookup_client(pushed.skip(1), x));
            assert(lookup_client(pushed.skip(1), x) is None);
            assert(lookup_client(entries, x) is None);
        }
    } else {
        let tail = entries.skip(1);
        assert(unique_addrs(tail)) by {
            assert(forall|p: int, q: int|
                0 <= p < q < tail.len() ==> (#[trigger] tail[p]).0 != (#[trigger] tail[q]).0);
        }
        assert(forall|j: int| 0 <= j < tail.len() ==> (#[trigger] tail[j]).0 != a);
        lemma_lookup_push(tail, a, c, x);
        assert(pushed.skip(1) =~= tail.push((a, c)));
        assert(pushed[0] == entries[0]);
        if entries[0].0 == x {
            assert(lookup_client(pushed, x) == Some(entries[0].1));
            assert(lookup_client(entries, x) == Some(entries[0].1));
        } else {
            assert(lookup_client(pushed, x) == lookup_client(tail.push((a, c)), x));
            assert(lookup_client(entries, x) == lookup_client(tail, x));
        }
    }
}

/// The registry after one maintenance sweep: exactly the still-connected
/// entries, in registration order.
pub open spec fn retain_connected<S: Packet>(
    entries: Seq<(SockAddr, ServerClient<S>)>,
) -> Seq<(SockAddr, ServerClient<S>)>
    decreases entries.len(),
{
    if entries.len() == 0 {
        Seq::empty()
    } else if entries[0].1.is_connected() {
        seq![entries[0]] + retain_connected(entries.skip(1))
    } else {
        retain_connected(entries.skip(1))
    }
}

/// A session with its liveness flag dropped and everything else unchanged.
spec fn spec_halt<S: Packet>(c: ServerClient<S>) -> ServerClient<S> {
    ServerClient { connected: false, ..c }
}

/// Every session halted in place.
spec fn halt_all<S: Packet>(
    entries: Seq<(SockAddr, ServerClient<S>)>,
) -> Seq<(SockAddr, ServerClient<S>)>
    decreases entries.len(),
{
    if entries.len() == 0 {
        Seq::empty()
    } else {
        seq![(entries[0].0, spec_halt(entries[0].1))] + halt_all(entries.skip(1))
    }
}

proof fn lemma_retain_lookup<S: Packet>(entries: Seq<(SockAddr, ServerClient<S>)>, x: SockAddr)
    requires
        unique_addrs(entries),
    ensures
        unique_addrs(retain_connected(entries)),
        forall|k: int| 0 <= k < retain_connected(entries).len() ==> exists|j: int|
            0 <= j < entries.len() && #[trigger] retain_connected(entries)[k] == entries[j],
        lookup_client(retain_connected(entries), x) == match lookup_client(entries, x) {
            Some(c) => if c.is_connected() {
                Some(c)
            } else {
                None::<ServerClient<S>>
            },
            None => None::<ServerClient<S>>,
        },
    decreases entries.len(),
{
    if entries.len() > 0 {
        let tail = entries.skip(1);
        let rt = retain_connected(tail);
        assert(unique_addrs(tail)) by {
            assert(forall|p: int, q: int|
                0 <= p < q < tail.len() ==> (#[trigger] tail[p]).0 != (#[trigger] tail[q]).0);
        }
        lemma_retain_lookup(tail, x);
        let r = retain_connected(entries);
        if entries[0].1.is_connected() {
            assert(r == seq![entries[0]] + rt);
            assert(r[0] == entries[0]);
            assert(r.skip(1) =~= rt);
            assert forall|k: int| 0 <= k < r.len() implies exists|j: int|
                0 <= j < entries.len() && #[trigger] r[k] == entries[j] by {
                if k == 0 {
                    assert(r[0] == entries[0]);
                } else {
                    let j = choose|j: int| 0 <= j < tail.len() && #[trigger] rt[k - 1] == tail[j];
                    assert(r[k] == entries[j + 1]);
                }
            }
            assert(unique_addrs(r)) by {
                assert forall|p: int, q: int| 0 <= p < q < r.len() implies (#[trigger] r[p]).0
                    != (#[trigger] r[q]).0 by {
                    if p == 0 {
                        let j = choose|j: int|
                            0 <= j < tail.len() && #[trigger] rt[q - 1] == tail[j];
                        assert(entries[0].0 != entries[j + 1].0);
                    } else {
                        assert(rt[p - 1].0 != rt[q - 1].0);
                    }
                }
            }
            if entries[0].0 == x {
                assert(lookup_client(r, x) == Some(entries[0].1));
                assert(lookup_client(entries, x) == Some(entries[0].1));
            } else {
                assert(lookup_client(r, x) == lookup_client(rt, x));
                assert(lookup_client(entries, x) == lookup_client(tail, x));
            }
        } else {
            assert(r == rt);
            assert forall|k: int| 0 <= k < r.len() implies exists|j: int|
                0 <= j < entries.len() && #[trigger] r[k] == entries[j] by {
                let j = choose|j: int| 0 <= j < tail.len() && #[trigger] rt[k] == tail[j];
                assert(r[k] == entries[j + 1]);
            }
            if entries[0].0 == x {
                assert forall|k: int| 0 <= k < r.len() implies (#[trigger] r[k]).0 != x by {
                    let j = choose|j: int| 0 <= j < tail.len() && #[trigger] rt[k] == tail[j];
                    assert(entries[0].0 != entries[j + 1].0);
                }
                lemma_lookup_absent(r, x);
                assert(lookup_client(entries, x) == Some(entries[0].1));
            } else {
                assert(lookup_client(entries, x) == lookup_client(tail, x));
            }
        }
    }
}

proof fn lemma_halt_all_lookup<S: Packet>(entries: Seq<(SockAddr, ServerClient<S>)>, x: SockAddr)
    requires
        unique_addrs(entries),
    ensures
        halt_all(entries).len() == entries.len(),
        forall|k: int| 0 <= k < entries.len() ==> #[trigger] halt_all(entries)[k] == (
            entries[k].0,
            spec_halt(entries[k].1),
        ),
        unique_addrs(halt_all(entries)),
        lookup_client(halt_all(entries), x) == match lookup_client(entries, x) {
            Some(c) => Some(spec_halt(c)),
            None => None::<ServerClient<S>>,
        },
    decreases entries.len(),
{
    if entries.len() > 0 {
        let tail = entries.skip(1);
        assert(unique_addrs(tail)) by {
            assert(forall|p: int, q: int|
                0 <= p < q < tail.len() ==> (#[trigger] tail[p]).0 != (#[trigger] tail[q]).0);
        }
        lemma_halt_all_lookup(tail, x);
        let h = halt_all(entries);
        assert(h[0] == (entries[0].0, spec_halt(entries[0].1)));
        assert(h.skip(1) =~= halt_all(tail));
        assert forall|k: int| 0 <= k < entries.len() implies #[trigger] h[k] == (
            entries[k].0,
            spec_halt(entries[k].1),
        ) by {
            if k > 0 {
                assert(h[k] == halt_all(tail)[k - 1]);
                assert(tail[k - 1] == entries[k]);
            }
        }
        if entries[0].0 == x {
            assert(lookup_client(h, x) == Some(spec_halt(entries[0].1)));
            assert(lookup_client(entries, x) == Some(entries[0].1));
        } else {
            assert(lookup_client(h, x) == lookup_client(halt_all(tail), x));
            assert(lookup_client(entries, x) == lookup_client(tail, x));
        }
    }
}

/// The server's shared state: the registry mapping remote addresses to
/// sessions, the event list, and the server-level liveness flag.
pub struct Server<C: Packet, S: Packet> {
    clients: Vec<(SockAddr, ServerClient<S>)>,
    events: Vec<ServerEvent<C>>,
    running: bool,
}

impl<C: Packet, S: Packet> Server<C, S> {
    /// The registry's entries in registration order.
    pub closed spec fn registry(self) -> Seq<(SockAddr, ServerClient<S>)> {
        self.clients@
    }

    /// The events appended and not yet drained, oldest first.
    pub closed spec fn spec_events(self) -> Seq<ServerEvent<C>> {
        self.events@
    }

    /// The server-level liveness flag: the acceptor and maintenance loops run
    /// while it is true.
    pub closed spec fn is_running(self) -> bool {
        self.running
    }

    /// The session registered under `a`, if any.
    pub open spec fn spec_client(self, a: SockAddr) -> Option<ServerClient<S>> {
        lookup_client(self.registry(), a)
    }

    /// Registry well-formedness: addresses are unique keys, and every session
    /// carries the address it is registered under.
    pub open spec fn wf(self) -> bool {
        unique_addrs(self.registry()) && addrs_consistent(self.registry())
    }

    /// A fresh server: running, no sessions, no events.
    pub fn new() -> (s: Self)
        ensures
            s.wf(),
            s.registry() == Seq::<(SockAddr, ServerClient<S>)>::empty(),
            s.spec_events() == Seq::<ServerEvent<C>>::empty(),
            s.is_running(),
    {
        Server { clients: Vec::new(), events: Vec::new(), running: true }
    }

    /// The server-level liveness flag's current value.
    pub fn running(&self) -> (r: bool)
        ensures
            r == self.is_running(),
    {
        self.running
    }

    /// Index of the entry registered under `address`, if any.
    fn find_index(&self, address: SockAddr) -> (r: Option<usize>)
        requires
            self.wf(),
        ensures
            match r {
                Some(i) => i < self.registry().len() && self.registry()[i as int].0 == address
                    && self.spec_client(address) == Some(self.registry()[i as int].1),
                None => self.spec_client(address) is None,
            },
    {
        let n = self.clients.len();
        let mut i: usize = 0;
        while i < n
            invariant
                n == self.registry().len(),
                i <= n,
                self.wf(),
                forall|j: int| 0 <= j < i ==> (#[trigger] self.registry()[j]).0 != address,
            decreases n - i,
        {
            if slice_index_get(self.clients.as_slice(), i).0 == address {
                proof {
                    lemma_lookup_found(self.registry(), address, i as int);
                }
                return Some(i);
            }
            i = i + 1;
        }
        proof {
            lemma_lookup_absent(self.registry(), address);
        }
        None
    }

    /// The acceptor loop's step for one accepted connection: registers a fresh
    /// live session under `address` — displacing any stale entry with the same
    /// address — and appends a `Connect` event.
    pub fn accept_client(&mut self, address: SockAddr)
        requires
            old(self).wf(),
        ensures
            final(self).wf(),
            final(self).spec_client(address) matches Some(c) && c.is_connected()
                && c.pending_send() == Seq::<S>::empty() && c.spec_address() == address,
            forall|x: SockAddr| x != address ==> final(self).spec_client(x) == old(
                self,
            ).spec_client(x),
            final(self).spec_events() == old(self).spec_events().push(
                ServerEvent::Connect(address),
            ),
            final(self).is_running() == old(self).is_running(),
    {
        let ghost pre = self.clients@;
        match self.find_index(address) {
            Some(i) => {
                self.clients.remove(i);
                proof {
                    assert forall|x: SockAddr| true implies #[trigger] lookup_client(
                        self.clients@,
                        x,
                    ) == if x == address {
                        None::<ServerClient<S>>
                    } else {
                        lookup_client(pre, x)
                    } by {
                        lemma_lookup_remove(pre, i as int, x);
                    }
                    lemma_lookup_remove(pre, i as int, address);
                    assert(addrs_consistent(self.clients@)) by {
                        assert(forall|k: int|
                            0 <= k < self.clients@.len() ==> #[trigger] self.clients@[k] == pre[
                                if k < i as int { k } else { k + 1 }
                            ]);
                    }
                }
            },
            None => {},
        }
        let ghost mid = self.clients@;
        proof {
            lemma_lookup_index(mid, address);
        }
        let fresh = ServerClient::new(address);
        self.clients.push((address, fresh));
        self.events.push(ServerEvent::Connect(address));
        proof {
            assert forall|x: SockAddr| true implies #[trigger] lookup_client(self.clients@, x)
                == if x == address {
                Some(mid.push((address, fresh))[mid.len() as int].1)
            } else {
                lookup_client(mid, x)
            } by {
                lemma_lookup_push(mid, address, fresh, x);
            }
            lemma_lookup_push(mid, address, fresh, address);
            assert(addrs_consistent(self.clients@)) by {
                assert(forall|k: int|
                    0 <= k < mid.len() ==> #[trigger] self.clients@[k] == mid[k]);
            }
        }
    }

    /// Atomically drains all pending events in arrival order; an immediate
    /// second call returns an empty batch.
    pub fn events(&mut self) -> (batch: Vec<ServerEvent<C>>)
        ensures
            batch@ == old(self).spec_events(),
            final(self).spec_events() == Seq::<ServerEvent<C>>::empty(),
            final(self).registry() == old(self).registry(),
            final(self).is_running() == old(self).is_running(),
    {
        let mut batch: Vec<ServerEvent<C>> = Vec::new();
        core::mem::swap(&mut batch, &mut self.events);
        batch
    }

    /// The currently registered session for `address`, if any.
    pub fn client(&self, address: SockAddr) -> (r: Option<&ServerClient<S>>)
        requires
            self.wf(),
        ensures
            match r {
                Some(c) => self.spec_client(address) == Some(*c),
                None => self.spec_client(address) is None,
            },
    {
        match self.find_index(address) {
            Some(i) => Some(&slice_index_get(self.clients.as_slice(), i).1),
            None => None,
        }
    }

    /// Enqueues `packet` on the session registered under `address`; reports
    /// whether such a session exists. Never blocks.
    pub fn send_to(&mut self, address: SockAddr, packet: S) -> (ok: bool)
        requires
            old(self).wf(),
        ensures
            final(self).wf(),
            ok == (old(self).spec_client(address) is Some),
            final(self).spec_events() == old(self).spec_events(),
            final(self).is_running() == old(self).is_running(),
            forall|x: SockAddr| x != address ==> final(self).spec_client(x) == old(
                self,
            ).spec_client(x),
            match (old(self).spec_client(address), final(self).spec_client(address)) {
                (Some(c0), Some(c1)) => c1.pending_send() == c0.pending_send().push(packet)
                    && c1.is_connected() == c0.is_connected() && c1.spec_address()
                    == c0.spec_address(),
                (None, None) => true,
                _ => false,
            },
    {
        let ghost pre = self.clients@;
        match self.find_index(address) {
            Some(i) => {
                let mut pair = self.clients.remove(i);
                pair.1.send(packet);
                self.clients.insert(i, pair);
                proof {
                    self.lemma_reinserted(pre, i as int, address);
                }
                true
            },
            None => false,
        }
    }

    /// The write loop's drain for the session under `address`: every packet
    /// waiting on its outbound queue, in FIFO order, or `None` for an unknown
    /// address.
    pub fn take_outgoing(&mut self, address: SockAddr) -> (batch: Option<Vec<S>>)
        requires
            old(self).wf(),
        ensures
            final(self).wf(),
            final(self).spec_events() == old(self).spec_events(),
            final(self).is_running() == old(self).is_running(),
            forall|x: SockAddr| x != address ==> final(self).spec_client(x) == old(
                self,
            ).spec_client(x),
            match (old(self).spec_client(address), final(self).spec_client(address)) {
                (Some(c0), Some(c1)) => batch matches Some(b) && b@ == c0.pending_send()
                    && c1.pending_send() == Seq::<S>::empty() && c1.is_connected()
                    == c0.is_connected() && c1.spec_address() == c0.spec_address(),
                (None, None) => batch is None,
                _ => false,
            },
    {
        let ghost pre = self.clients@;
        match self.find_index(address) {
            Some(i) => {
                let mut pair = self.clients.remove(i);
                let batch = pair.1.take_sendable();
                self.clients.insert(i, pair);
                proof {
                    self.lemma_reinserted(pre, i as int, address);
                }
                Some(batch)
            },
            None => None,
        }
    }

    /// The read loop's step after one framed payload arrived from `address`:
    /// decode it and append a `Message` event. A decode failure is terminal:
    /// the session's liveness transition runs, emitting `Disconnect` exactly
    /// when this session was still connected. A payload for an unregistered
    /// address changes nothing.
    pub fn receive_message(&mut self, address: SockAddr, payload: &[u8]) -> (ok: bool)
        requires
            old(self).wf(),
        ensures
            final(self).wf(),
            final(self).is_running() == old(self).is_running(),
            forall|x: SockAddr| x != address ==> final(self).spec_client(x) == old(
                self,
            ).spec_client(x),
            ok ==> {
                &&& old(self).spec_client(address) is Some
                &&& final(self).spec_client(address) == old(self).spec_client(address)
                &&& final(self).spec_events() == old(self).spec_events().push(
                    final(self).spec_events().last(),
                )
                &&& final(self).spec_events().last() matches ServerEvent::Message(a, p)
                    && a == address && p.wire() == payload@
            },
            !ok ==> match old(self).spec_client(address) {
                Some(c0) => {
                    &&& final(self).spec_client(address) matches Some(c1) && !c1.is_connected()
                        && c1.pending_send() == c0.pending_send() && c1.spec_address()
                        == c0.spec_address()
                    &&& final(self).spec_events() == (if c0.is_connected() {
                        old(self).spec_events().push(ServerEvent::Disconnect(address))
                    } else {
                        old(self).spec_events()
                    })
                },
                None => final(self).spec_client(address) is None && final(self).spec_events()
                    == old(self).spec_events(),
            },
    {
        let ghost pre = self.clients@;
        let i = match self.find_index(address) {
            Some(i) => i,
            None => {
                return false;
            },
        };
        match C::deserialize(payload) {
            Ok(packet) => {
                self.events.push(ServerEvent::Message(address, packet));
                true
            },
            Err(_) => {
                let mut pair = self.clients.remove(i);
                pair.1.disconnect(&mut self.events);
                self.clients.insert(i, pair);
                proof {
                    self.lemma_reinserted(pre, i as int, address);
                }
                false
            },
        }
    }

    /// An explicit disconnect of the session under `address`: runs the
    /// liveness transition, appending `Disconnect` exactly when the session
    /// was still connected. Unknown addresses change nothing.
    pub fn disconnect_client(&mut self, address: SockAddr)
        requires
            old(self).wf(),
        ensures
            final(self).wf(),
            final(self).is_running() == old(self).is_running(),
            forall|x: SockAddr| x != address ==> final(self).spec_client(x) == old(
                self,
            ).spec_client(x),
            match old(self).spec_client(address) {
                Some(c0) => {
                    &&& final(self).spec_client(address) matches Some(c1) && !c1.is_connected()
                        && c1.pending_send() == c0.pending_send() && c1.spec_address()
                        == c0.spec_address()
                    &&& final(self).spec_events() == (if c0.is_connected() {
                        old(self).spec_events().push(ServerEvent::Disconnect(address))
                    } else {
                        old(self).spec_events()
                    })
                },
                None => final(self).spec_client(address) is None && final(self).spec_events()
                    == old(self).spec_events(),
            },
    {
        let ghost pre = self.clients@;
        match self.find_index(address) {
            Some(i) => {
                let mut pair = self.clients.remove(i);
                pair.1.disconnect(&mut self.events);
                self.clients.insert(i, pair);
                proof {
                    self.lemma_reinserted(pre, i as int, address);
                }
            },
            None => {},
        }
    }

    /// The maintenance loop's step: evicts every session whose liveness flag
    /// has dropped. Eviction emits nothing — the `Disconnect` was emitted
    /// once already, by whichever loop performed the transition. Afterwards
    /// a lookup finds a session exactly for the addresses that were still
    /// connected, unchanged.
    pub fn sweep(&mut self)
        requires
            old(self).wf(),
        ensures
            final(self).wf(),
            final(self).spec_events() == old(self).spec_events(),
            final(self).is_running() == old(self).is_running(),
            forall|x: SockAddr| final(self).spec_client(x) == (match old(self).spec_client(x) {
                Some(c) => if c.is_connected() {
                    Some(c)
                } else {
                    None::<ServerClient<S>>
                },
                None => None::<ServerClient<S>>,
            }),
    {
        let ghost pre = self.clients@;
        let mut pending: Vec<(SockAddr, ServerClient<S>)> = Vec::new();
        core::mem::swap(&mut pending, &mut self.clients);
        proof {
            assert(self.clients@ + retain_connected(pending@) =~= retain_connected(pre));
        }
        while pending.len() > 0
            invariant
                self.clients@ + retain_connected(pending@) == retain_connected(pre),
                self.events@ == old(self).events@,
                self.running == old(self).running,
            decreases pending.len(),
        {
            let ghost before = pending@;
            let pair = pending.remove(0);
            proof {
                assert(pending@ =~= before.skip(1));
                assert(before[0] == pair);
            }
            if pair.1.running() {
                self.clients.push(pair);
                proof {
                    assert(self.clients@ + retain_connected(pending@) =~= retain_connected(pre));
                }
            }
        }
        proof {
            assert(retain_connected(pending@) =~= Seq::<(SockAddr, ServerClient<S>)>::empty());
            assert(self.clients@ =~= retain_connected(pre));
            assert forall|x: SockAddr| #[trigger] self.spec_client(x) == (
            match lookup_client(pre, x) {
                Some(c) => if c.is_connected() {
                    Some(c)
                } else {
                    None::<ServerClient<S>>
                },
                None => None::<ServerClient<S>>,
            }) by {
                lemma_retain_lookup(pre, x);
            }
            lemma_retain_lookup(pre, vstd::pervasive::arbitrary());
            assert(addrs_consistent(self.clients@)) by {
                assert forall|k: int| 0 <= k < self.clients@.len() implies (
                #[trigger] self.clients@[k]).1.spec_address() == self.clients@[k].0 by {
                    let j = choose|j: int|
                        0 <= j < pre.len() && #[trigger] retain_connected(pre)[k] == pre[j];
                    assert(pre[j].1.spec_address() == pre[j].0);
                }
            }
        }
    }

    /// Server teardown's state side: drops the server-level liveness flag and
    /// every session's flag, silently — loops observe the flags and exit; no
    /// events are appended.
    pub fn shutdown(&mut self)
        requires
            old(self).wf(),
        ensures
            final(self).wf(),
            !final(self).is_running(),
            final(self).spec_events() == old(self).spec_events(),
            forall|x: SockAddr| match ((old(self).spec_client(x), #[trigger] final(self)
                .spec_client(x))) {
                (Some(c0), Some(c1)) => !c1.is_connected() && c1.pending_send()
                    == c0.pending_send() && c1.spec_address() == c0.spec_address(),
                (None, None) => true,
                _ => false,
            },
    {
        self.running = false;
        let ghost pre = self.clients@;
        let mut pending: Vec<(SockAddr, ServerClient<S>)> = Vec::new();
        core::mem::swap(&mut pending, &mut self.clients);
        proof {
            assert(self.clients@ + halt_all(pending@) =~= halt_all(pre));
        }
        while pending.len() > 0
            invariant
                self.clients@ + halt_all(pending@) == halt_all(pre),
                self.events@ == old(self).events@,
                !self.running,
            decreases pending.len(),
        {
            let ghost before = pending@;
            let mut pair = pending.remove(0);
            proof {
                assert(pending@ =~= before.skip(1));
                assert(before[0] == pair);
            }
            pair.1.halt();
            self.clients.push(pair);
            proof {
                assert(self.clients@ + halt_all(pending@) =~= halt_all(pre));
            }
        }
        proof {
            assert(halt_all(pending@) =~= Seq::<(SockAddr, ServerClient<S>)>::empty());
            assert(self.clients@ =~= halt_all(pre));
            assert forall|x: SockAddr| match (lookup_client(pre, x), #[trigger] self.spec_client(
                x,
            )) {
                (Some(c0), Some(c1)) => !c1.is_connected() && c1.pending_send()
                    == c0.pending_send() && c1.spec_address() == c0.spec_address(),
                (None, None) => true,
                _ => false,
            } by {
                lemma_halt_all_lookup(pre, x);
            }
            lemma_halt_all_lookup(pre, vstd::pervasive::arbitrary());
            assert(addrs_consistent(self.clients@)) by {
                assert forall|k: int| 0 <= k < self.clients@.len() implies (
                #[trigger] self.clients@[k]).1.spec_address() == self.clients@[k].0 by {
                    assert(halt_all(pre)[k] == (pre[k].0, spec_halt(pre[k].1)));
                }
            }
        }
    }

    /// After removing the entry at `i` from a registry whose view was `pre`,
    /// mutating its session without touching its address, and reinserting it
    /// at `i`: the registry is the pointwise update of `pre` at `address`.
    proof fn lemma_reinserted(self, pre: Seq<(SockAddr, ServerClient<S>)>, i: int, address: SockAddr)
        requires
            unique_addrs(pre),
            addrs_consistent(pre),
            0 <= i < pre.len(),
            pre[i].0 == address,
            self.registry() == pre.remove(i).insert(i, (pre[i].0, self.registry()[i].1)),
            self.registry()[i].1.spec_address() == pre[i].1.spec_address(),
        ensures
            self.wf(),
            self.spec_client(address) == Some(self.registry()[i].1),
            forall|x: SockAddr| x != address ==> self.spec_client(x) == lookup_client(pre, x),
    {
        let c1 = self.registry()[i].1;
        assert(self.registry() =~= pre.update(i, (pre[i].0, c1)));
        assert forall|x: SockAddr| true implies #[trigger] lookup_client(self.registry(), x)
            == if x == address {
            Some(c1)
        } else {
            lookup_client(pre, x)
        } by {
            lemma_lookup_update(pre, i, c1, x);
        }
        lemma_lookup_update(pre, i, c1, address);
        assert(addrs_consistent(self.registry())) by {
            assert(forall|k: int|
                0 <= k < pre.len() && k != i ==> #[trigger] self.registry()[k] == pre[k]);
        }
    }
}

} // verus!
