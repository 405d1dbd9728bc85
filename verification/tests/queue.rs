use pocket::protocol::NetworkQueue;
use pocket::packets::SimplePacket;

#[test]
fn queues_start_empty() {
    let mut q: NetworkQueue<SimplePacket, SimplePacket> = NetworkQueue::new();
    assert!(q.take_sendable().is_empty());
    assert!(q.take_received().is_empty());
}

#[test]
fn default_is_empty_too() {
    let mut q: NetworkQueue<SimplePacket, SimplePacket> = Default::default();
    assert!(q.take_sendable().is_empty());
    assert!(q.take_received().is_empty());
}

#[test]
fn take_sendable_drains_in_fifo_order() {
    let mut q: NetworkQueue<SimplePacket, SimplePacket> = NetworkQueue::new();
    q.add_sendable(SimplePacket::Ping);
    q.add_sendable(SimplePacket::Pong);
    q.add_sendable(SimplePacket::Message(vec![1]));
    let batch = q.take_sendable();
    assert_eq!(
        batch,
        vec![SimplePacket::Ping, SimplePacket::Pong, SimplePacket::Message(vec![1])]
    );
}

#[test]
fn drains_are_idempotent_per_call() {
    let mut q: NetworkQueue<SimplePacket, SimplePacket> = NetworkQueue::new();
    q.add_received(SimplePacket::Ping);
    q.add_received(SimplePacket::Pong);
    let first = q.take_received();
    let second = q.take_received();
    assert_eq!(first, vec![SimplePacket::Ping, SimplePacket::Pong]);
    assert!(second.is_empty());

    q.add_sendable(SimplePacket::Ping);
    let first = q.take_sendable();
    let second = q.take_sendable();
    assert_eq!(first, vec![SimplePacket::Ping]);
    assert!(second.is_empty());
}

#[test]
fn the_two_queues_are_independent() {
    let mut q: NetworkQueue<SimplePacket, SimplePacket> = NetworkQueue::new();
    q.add_sendable(SimplePacket::Ping);
    q.add_received(SimplePacket::Pong);
    assert_eq!(q.take_received(), vec![SimplePacket::Pong]);
    assert_eq!(q.take_sendable(), vec![SimplePacket::Ping]);
}
