use pocket::server::{Server, ServerEvent};
use pocket::client::Client;
use pocket::framing::{encode_packet, decode_frame};
use pocket::packets::SimplePacket;
use pocket::addr::SockAddr;

type TestServer = Server<SimplePacket, SimplePacket>;
type TestClient = Client<SimplePacket, SimplePacket>;

fn addr(last_octet: u32, port: u16) -> SockAddr {
    SockAddr { ip: 0x7f000000 | last_octet, port }
}

/// Carries one packet from a client's outbound queue to the server, through
/// the real framing codec.
fn pump_client_to_server(c: &mut TestClient, s: &mut TestServer, a: SockAddr) {
    for packet in c.take_outgoing() {
        let frame = encode_packet(&packet).unwrap();
        let (payload, consumed) = decode_frame(frame.as_slice()).unwrap();
        assert_eq!(consumed, frame.len());
        assert!(s.receive_message(a, payload.as_slice()));
    }
}

/// Carries one session's outbound queue to the client, through the codec.
fn pump_server_to_client(s: &mut TestServer, c: &mut TestClient, a: SockAddr) {
    for packet in s.take_outgoing(a).unwrap() {
        let frame = encode_packet(&packet).unwrap();
        let (payload, consumed) = decode_frame(frame.as_slice()).unwrap();
        assert_eq!(consumed, frame.len());
        assert!(c.handle_incoming(payload.as_slice()));
    }
}

#[test]
fn connect_then_server_message_reaches_client() {
    let mut server = TestServer::new();
    let mut client = TestClient::new();
    let a = addr(1, 9000);

    server.accept_client(a);
    assert_eq!(server.events(), vec![ServerEvent::Connect(a)]);

    assert!(server.send_to(a, SimplePacket::Message(vec![104, 105])));
    pump_server_to_client(&mut server, &mut client, a);
    assert_eq!(client.received(), vec![SimplePacket::Message(vec![104, 105])]);
}

#[test]
fn ping_is_answered_with_pong() {
    let mut server = TestServer::new();
    let mut client = TestClient::new();
    let a = addr(2, 9000);
    server.accept_client(a);
    server.events();

    client.send(SimplePacket::Ping);
    pump_client_to_server(&mut client, &mut server, a);
    let events = server.events();
    assert_eq!(events, vec![ServerEvent::Message(a, SimplePacket::Ping)]);

    assert!(server.send_to(a, SimplePacket::Pong));
    pump_server_to_client(&mut server, &mut client, a);
    assert_eq!(client.received(), vec![SimplePacket::Pong]);
}

#[test]
fn dead_session_is_evicted_within_one_sweep() {
    let mut server = TestServer::new();
    let a = addr(3, 9000);
    server.accept_client(a);
    server.events();

    // The peer goes away: the read loop sees a failure and runs the liveness
    // transition.
    server.disconnect_client(a);
    assert_eq!(server.events(), vec![ServerEvent::Disconnect(a)]);

    server.sweep();
    assert!(server.client(a).is_none());
}

#[test]
fn malformed_payload_emits_exactly_one_disconnect() {
    let mut server = TestServer::new();
    let a = addr(4, 9000);
    server.accept_client(a);
    server.events();

    // A length prefix promising more bytes than the stream holds never
    // completes a frame; the read loop treats it as a connection error.
    assert!(decode_frame(&[200, 0, 0, 0, 1, 2, 3]).is_err());
    // A frame that arrives whole but does not decode kills the session.
    assert!(!server.receive_message(a, &[99, 99]));
    // Both loops observing the failure emit only one event between them.
    server.disconnect_client(a);
    assert_eq!(server.events(), vec![ServerEvent::Disconnect(a)]);
    server.sweep();
    assert!(server.client(a).is_none());
}

#[test]
fn sweep_keeps_exactly_the_live_sessions() {
    let mut server = TestServer::new();
    let live = addr(5, 9000);
    let dead = addr(6, 9000);
    server.accept_client(live);
    server.accept_client(dead);
    server.disconnect_client(dead);
    server.sweep();
    assert!(server.client(live).is_some());
    assert!(server.client(live).unwrap().running());
    assert!(server.client(dead).is_none());
}

#[test]
fn disconnect_is_emitted_once_whoever_observes_first() {
    let mut server = TestServer::new();
    let a = addr(7, 9000);
    server.accept_client(a);
    server.events();

    server.disconnect_client(a);
    server.disconnect_client(a);
    assert!(!server.receive_message(a, &[99]));
    let events = server.events();
    assert_eq!(events, vec![ServerEvent::Disconnect(a)]);
}

#[test]
fn accepting_again_replaces_a_stale_session() {
    let mut server = TestServer::new();
    let a = addr(8, 9000);
    server.accept_client(a);
    server.disconnect_client(a);
    server.accept_client(a);
    assert!(server.client(a).unwrap().running());
    assert_eq!(
        server.events(),
        vec![
            ServerEvent::Connect(a),
            ServerEvent::Disconnect(a),
            ServerEvent::Connect(a),
        ]
    );
}

#[test]
fn shutdown_halts_every_session_silently() {
    let mut server = TestServer::new();
    let a = addr(9, 9000);
    let b = addr(10, 9000);
    server.accept_client(a);
    server.accept_client(b);
    server.events();
    server.shutdown();
    assert!(!server.client(a).unwrap().running());
    assert!(!server.client(b).unwrap().running());
    assert!(server.events().is_empty());
}

#[test]
fn events_drain_is_idempotent() {
    let mut server = TestServer::new();
    let a = addr(11, 9000);
    server.accept_client(a);
    let first = server.events();
    let second = server.events();
    assert_eq!(first, vec![ServerEvent::Connect(a)]);
    assert!(second.is_empty());
}
