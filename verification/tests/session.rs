use pocket::server::{ServerClient, ServerEvent};
use pocket::packets::SimplePacket;
use pocket::addr::SockAddr;

#[test]
fn fresh_session_is_live_and_empty() {
    let mut c: ServerClient<SimplePacket> = ServerClient::new(SockAddr { ip: 1, port: 2 });
    assert!(c.running());
    assert!(c.take_sendable().is_empty());
}

#[test]
fn outbound_queue_drains_in_order_and_once() {
    let mut c: ServerClient<SimplePacket> = ServerClient::new(SockAddr { ip: 1, port: 2 });
    c.send(SimplePacket::Ping);
    c.send(SimplePacket::Pong);
    assert_eq!(c.take_sendable(), vec![SimplePacket::Ping, SimplePacket::Pong]);
    assert!(c.take_sendable().is_empty());
}

#[test]
fn only_the_first_disconnect_emits() {
    let a = SockAddr { ip: 7, port: 9000 };
    let mut c: ServerClient<SimplePacket> = ServerClient::new(a);
    let mut events: Vec<ServerEvent<SimplePacket>> = Vec::new();

    c.disconnect(&mut events);
    assert!(!c.running());
    assert_eq!(events, vec![ServerEvent::Disconnect(a)]);

    c.disconnect(&mut events);
    c.disconnect(&mut events);
    assert_eq!(events, vec![ServerEvent::Disconnect(a)]);
}
