use pocket::client::Client;
use pocket::packets::SimplePacket;

fn fresh() -> Client<SimplePacket, SimplePacket> {
    Client::new()
}

#[test]
fn starts_running_and_empty() {
    let mut c = fresh();
    assert!(c.running());
    assert!(c.received().is_empty());
    assert!(c.take_outgoing().is_empty());
}

#[test]
fn send_hands_packets_to_the_write_loop_in_order() {
    let mut c = fresh();
    c.send(SimplePacket::Ping);
    c.send(SimplePacket::Message(vec![1, 2]));
    let batch = c.take_outgoing();
    assert_eq!(batch, vec![SimplePacket::Ping, SimplePacket::Message(vec![1, 2])]);
    assert!(c.take_outgoing().is_empty());
}

#[test]
fn received_drains_are_idempotent() {
    let mut c = fresh();
    assert!(c.handle_incoming(&SimplePacket::Ping.encode()));
    assert!(c.handle_incoming(&SimplePacket::Pong.encode()));
    let first = c.received();
    let second = c.received();
    assert_eq!(first, vec![SimplePacket::Ping, SimplePacket::Pong]);
    assert!(second.is_empty());
}

#[test]
fn bad_payload_stops_the_connection() {
    let mut c = fresh();
    assert!(c.handle_incoming(&[0]));
    assert!(!c.handle_incoming(&[255, 255]));
    assert!(!c.running());
    assert_eq!(c.received(), vec![SimplePacket::Ping]);
}

#[test]
fn disconnect_drops_the_flag_and_keeps_queues() {
    let mut c = fresh();
    c.send(SimplePacket::Pong);
    c.disconnect();
    assert!(!c.running());
    assert_eq!(c.take_outgoing(), vec![SimplePacket::Pong]);
}
