use tunnel::packet::{Pack, UnPack};
use tunnel::proto::{Bind, Data, Header, PackType, Packet};
use tunnel::route::{refusal, AgentAction, ClientAction, Relay};
use tunnel::session::{answer_packet, bind_request, delivery, Delivery, RelayFrame, Services};

fn data_packet(agent: &str, host: Option<&str>, bytes: &[u8]) -> Packet {
    let d = Data {
        agent_ip_port: agent.to_string(),
        host: host.map(|h| h.to_string()),
        data: bytes.to_vec(),
    };
    Packet::new(PackType::Data, Some(d)).unwrap()
}

fn bind_packet(host: &str) -> Packet {
    Packet::new(PackType::Bind, Some(Bind { host: host.to_string() })).unwrap()
}

#[test]
fn bound_host_routes_to_client() {
    let mut relay = Relay::new();
    relay.add_client("10.0.0.1:40000".to_string());
    relay.add_agent("1.1.1.1:1".to_string());
    let act = relay.on_client_packet(&"10.0.0.1:40000".to_string(), &bind_packet("site.test"));
    assert!(matches!(act, ClientAction::Bound));
    let req = data_packet("1.1.1.1:1", Some("site.test"), b"GET /");
    match relay.on_agent_packet(&"1.1.1.1:1".to_string(), &req) {
        AgentAction::ToClient(c) => assert_eq!(c, "10.0.0.1:40000"),
        other => panic!("{:?}", other),
    }
    // a later bind of the same host wins
    relay.add_client("10.0.0.2:1".to_string());
    relay.on_client_packet(&"10.0.0.2:1".to_string(), &bind_packet("site.test"));
    match relay.on_agent_packet(&"1.1.1.1:1".to_string(), &req) {
        AgentAction::ToClient(c) => assert_eq!(c, "10.0.0.2:1"),
        other => panic!("{:?}", other),
    }
    // the client goes away
    let act = relay.on_client_packet(&"10.0.0.2:1".to_string(), &Packet::new_without_data(PackType::DisConnect));
    assert!(matches!(act, ClientAction::Closed));
    // its hosts go with it: the user is refused
    match relay.on_agent_packet(&"1.1.1.1:1".to_string(), &req) {
        AgentAction::Refuse(to, _) => assert_eq!(to, "1.1.1.1:1"),
        other => panic!("{:?}", other),
    }
}

#[test]
fn unbound_host_is_refused() {
    let mut relay = Relay::new();
    relay.add_agent("1.1.1.1:1".to_string());
    let req = data_packet("1.1.1.1:1", Some("nobody.test"), b"GET /");
    match relay.on_agent_packet(&"1.1.1.1:1".to_string(), &req) {
        AgentAction::Refuse(to, reply) => {
            assert_eq!(to, "1.1.1.1:1");
            assert_eq!(reply, refusal(&"1.1.1.1:1".to_string()));
            let d = Data::unpack(&reply.data).unwrap();
            assert_eq!(d.host, None);
            let text = String::from_utf8(d.data).unwrap();
            assert!(text.starts_with("HTTP/1.1 200 OK\r\nContent-Length: 728\r\n\r\n<!DOCTYPE html>\n"));
            assert!(text.ends_with("<h1>客户端未启动</h1>\n                                        </body>\n                                        </html>"));
            assert_eq!(text.len(), "HTTP/1.1 200 OK\r\nContent-Length: 728\r\n\r\n".len() + 728);
        }
        other => panic!("{:?}", other),
    }
    // the sender is dropped: the next unbound request finds no user
    match relay.on_agent_packet(&"1.1.1.1:1".to_string(), &req) {
        AgentAction::AgentGone(a) => assert_eq!(a, "1.1.1.1:1"),
        other => panic!("{:?}", other),
    }
}

#[test]
fn request_without_host_asks_for_empty_host() {
    let mut relay = Relay::new();
    relay.add_client("c".to_string());
    relay.on_client_packet(&"c".to_string(), &bind_packet(""));
    let req = data_packet("u", None, b"x");
    assert!(matches!(relay.on_agent_packet(&"u".to_string(), &req), AgentAction::ToClient(_)));
}

#[test]
fn client_traffic_reaches_connected_users() {
    let mut relay = Relay::new();
    relay.add_agent("1.1.1.1:1".to_string());
    let answer = data_packet("1.1.1.1:1", None, b"HTTP/1.1 200 OK\r\n\r\n");
    match relay.on_client_packet(&"c".to_string(), &answer) {
        ClientAction::ToAgent(a) => assert_eq!(a, "1.1.1.1:1"),
        other => panic!("{:?}", other),
    }
    assert!(matches!(
        relay.on_agent_packet(&"1.1.1.1:1".to_string(), &Packet::new_without_data(PackType::DisConnect)),
        AgentAction::Closed
    ));
    match relay.on_client_packet(&"c".to_string(), &answer) {
        ClientAction::NoAgent(a) => assert_eq!(a, "1.1.1.1:1"),
        other => panic!("{:?}", other),
    }
    assert!(matches!(
        relay.on_client_packet(&"c".to_string(), &Packet::new_without_data(PackType::Heartbeat)),
        ClientAction::Unexpected(PackType::Heartbeat)
    ));
    assert!(matches!(
        relay.on_client_packet(&"c".to_string(), &Packet::with_body(PackType::Data, vec![1])),
        ClientAction::Malformed
    ));
}

#[test]
fn agent_bind_and_other_kinds() {
    let mut relay = Relay::new();
    relay.add_agent("u".to_string());
    // users do not bind hosts: the bind is unexpected and binds nothing
    assert!(matches!(
        relay.on_agent_packet(&"u".to_string(), &bind_packet("h")),
        AgentAction::Unexpected(PackType::Bind)
    ));
    let req = data_packet("u", Some("h"), b"x");
    assert!(matches!(relay.on_agent_packet(&"u".to_string(), &req), AgentAction::Refuse(_, _)));
    relay.add_agent("u".to_string());
    assert!(matches!(
        relay.on_agent_packet(&"u".to_string(), &Packet::new_without_data(PackType::Heartbeat)),
        AgentAction::Unexpected(PackType::Heartbeat)
    ));
    assert!(matches!(
        relay.on_agent_packet(&"u".to_string(), &Packet::with_body(PackType::Data, vec![0])),
        AgentAction::Malformed
    ));
}

#[test]
fn client_disconnect_drops_its_hosts() {
    let mut relay = Relay::new();
    relay.add_client("c1".to_string());
    relay.add_client("c2".to_string());
    relay.add_agent("u".to_string());
    relay.on_client_packet(&"c1".to_string(), &bind_packet("a.test"));
    relay.on_client_packet(&"c1".to_string(), &bind_packet("b.test"));
    relay.on_client_packet(&"c2".to_string(), &bind_packet("c.test"));
    let closed = relay.on_client_packet(&"c1".to_string(), &Packet::new_without_data(PackType::DisConnect));
    assert!(matches!(closed, ClientAction::Closed));
    // hosts of the gone client are no longer served: the user is refused
    let req = data_packet("u", Some("b.test"), b"GET /");
    assert!(matches!(relay.on_agent_packet(&"u".to_string(), &req), AgentAction::Refuse(_, _)));
    // the other client's host still routes
    relay.add_agent("u".to_string());
    let req = data_packet("u", Some("c.test"), b"GET /");
    match relay.on_agent_packet(&"u".to_string(), &req) {
        AgentAction::ToClient(c) => assert_eq!(c, "c2"),
        other => panic!("{:?}", other),
    }
}

#[test]
fn bind_request_is_a_packed_bind_frame() {
    let bytes = bind_request(&"example.com".to_string());
    assert_eq!(&bytes[..14], &Header::new(19, PackType::Bind).pack().unwrap()[..]);
    assert_eq!(&bytes[14..22], &[11, 0, 0, 0, 0, 0, 0, 0]);
    assert_eq!(&bytes[22..], b"example.com");
}

#[test]
fn delivery_decisions() {
    let answer = answer_packet(&"1.1.1.1:1".to_string(), b"hello");
    match delivery(&answer) {
        Delivery::Write(v) => assert_eq!(v, b"hello".to_vec()),
        other => panic!("{:?}", other),
    }
    let d = Data::unpack(&answer.data).unwrap();
    assert_eq!(d.agent_ip_port, "1.1.1.1:1");
    assert_eq!(d.host, None);
    assert!(matches!(delivery(&Packet::new_without_data(PackType::DisConnect)), Delivery::Stop));
    assert!(matches!(delivery(&Packet::new_without_data(PackType::Heartbeat)), Delivery::Skip));
    assert!(matches!(delivery(&Packet::with_body(PackType::Data, vec![0])), Delivery::Malformed));
}

#[test]
fn one_service_connection_per_user() {
    let mut services = Services::new();
    let req = data_packet("1.1.1.1:1", Some("h"), b"GET /");
    match services.on_relay_packet(&req) {
        RelayFrame::Open(a) => assert_eq!(a, "1.1.1.1:1"),
        other => panic!("{:?}", other),
    }
    match services.on_relay_packet(&req) {
        RelayFrame::Forward(a) => assert_eq!(a, "1.1.1.1:1"),
        other => panic!("{:?}", other),
    }
    assert!(matches!(services.on_relay_packet(&data_packet("2.2.2.2:2", None, b"")), RelayFrame::Open(_)));
    assert!(matches!(services.on_relay_packet(&bind_packet("h")), RelayFrame::Ignore));
    assert!(matches!(
        services.on_relay_packet(&Packet::with_body(PackType::Data, vec![5])),
        RelayFrame::Malformed
    ));
}

#[test]
fn services_over_a_mixed_run() {
    let mut services = Services::new();
    assert!(matches!(services.on_relay_packet(&Packet::new_without_data(PackType::Heartbeat)), RelayFrame::Ignore));
    assert!(matches!(services.on_relay_packet(&data_packet("3.3.3.3:3", None, b"a")), RelayFrame::Open(_)));
    assert!(matches!(
        services.on_relay_packet(&Packet::with_body(PackType::Data, vec![1, 2])),
        RelayFrame::Malformed
    ));
    assert!(matches!(services.on_relay_packet(&Packet::new_without_data(PackType::DisConnect)), RelayFrame::Ignore));
    match services.on_relay_packet(&data_packet("3.3.3.3:3", Some("h"), b"b")) {
        RelayFrame::Forward(a) => assert_eq!(a, "3.3.3.3:3"),
        other => panic!("{:?}", other),
    }
    match services.on_relay_packet(&data_packet("4.4.4.4:4", None, b"c")) {
        RelayFrame::Open(a) => assert_eq!(a, "4.4.4.4:4"),
        other => panic!("{:?}", other),
    }
}
