use wdns::dns::{build_dns_query_packet, extract_domain_from_dns_packet};
use wdns::intercept::LOG_CAPACITY;
use wdns::routing::{dns_query_status, plan_dns_query, upstream_dns_server, DnsPlan};
use wdns::socks5::{
    answer_greeting, parse_request, ClientState, ClientStep, Destination, IpAddress, ProxyError,
    RequestOutcome, ServerAction, ServerState, SocketAddress, Socks5Client, Socks5ServerSession,
};
use wdns::{InterceptionLog, InterceptionStatus, ProxyConfig, ProxyManager, ProxyType};

fn proxy(id: u32, user: Option<&str>, pass: Option<&str>, kind: ProxyType) -> ProxyConfig {
    ProxyConfig {
        id,
        name: "Test Proxy".to_string(),
        host: "127.0.0.1".to_string(),
        port: 1080,
        proxy_type: kind,
        username: user.map(|s| s.to_string()),
        password: pass.map(|s| s.to_string()),
        enabled: true,
    }
}

#[test]
fn test_socks5_client_creation() {
    let proxy_config = ProxyConfig {
        id: 1,
        name: "Test Proxy".to_string(),
        host: "127.0.0.1".to_string(),
        port: 1080,
        proxy_type: ProxyType::Socks5,
        username: None,
        password: None,
        enabled: true,
    };
    let client = Socks5Client::new(proxy_config);
    assert_eq!(client.proxy_config.host, "127.0.0.1");
    assert_eq!(client.proxy_config.port, 1080);
}

#[test]
fn query_packet_layout() {
    let p = build_dns_query_packet("example.com");
    let mut expected = vec![0x12, 0x34, 0x01, 0x00, 0, 1, 0, 0, 0, 0, 0, 0, 7];
    expected.extend_from_slice(b"example");
    expected.push(3);
    expected.extend_from_slice(b"com");
    expected.extend_from_slice(&[0, 0, 1, 0, 1]);
    assert_eq!(p, expected);
}

#[test]
fn query_round_trip() {
    let p = build_dns_query_packet("example.com");
    assert_eq!(extract_domain_from_dns_packet(&p).unwrap(), "example.com");
    let q = build_dns_query_packet("bücher.de");
    assert_eq!(q[12], 7);
    assert_eq!(extract_domain_from_dns_packet(&q).unwrap(), "bücher.de");
}

#[test]
fn extract_domain_edge_cases() {
    assert!(extract_domain_from_dns_packet(&[0u8; 11]).is_none());
    assert!(extract_domain_from_dns_packet(&[0u8; 12]).is_none());
    assert!(extract_domain_from_dns_packet(&[0u8; 13]).is_none());
    let mut truncated = vec![0u8; 12];
    truncated.extend_from_slice(&[3, b'a', b'b']);
    assert!(extract_domain_from_dns_packet(&truncated).is_none());
    let mut overrun = vec![0x12, 0x34, 0x01, 0x00, 0, 1, 0, 0, 0, 0, 0, 0];
    overrun.extend_from_slice(&[1, b'a', 5, b'b']);
    assert!(extract_domain_from_dns_packet(&overrun).is_none());
    let mut unterminated = vec![0u8; 12];
    unterminated.extend_from_slice(&[2, b'h', b'i']);
    assert!(extract_domain_from_dns_packet(&unterminated).is_none());
    let mut one = vec![0u8; 12];
    one.extend_from_slice(&[2, b'h', b'i', 0]);
    assert_eq!(extract_domain_from_dns_packet(&one).unwrap(), "hi");
    let mut bad = vec![0u8; 12];
    bad.extend_from_slice(&[1, 0xff, 0, 0]);
    assert_eq!(extract_domain_from_dns_packet(&bad).unwrap(), "\u{fffd}");
}

#[test]
fn empty_domain_does_not_round_trip() {
    let p = build_dns_query_packet("");
    assert!(extract_domain_from_dns_packet(&p).is_none());
}

#[test]
fn greeting_of_another_version_closes_without_reply() {
    let mut s = Socks5ServerSession::new();
    assert!(matches!(s.on_greeting(&[4, 1, 0]), ServerAction::Close));
    assert_eq!(s.state, ServerState::Closed);
    let mut t = Socks5ServerSession::new();
    assert!(matches!(t.on_greeting(b"GET / HTTP/1.1"), ServerAction::Close));
    let mut u = Socks5ServerSession::new();
    assert!(matches!(u.on_greeting(&[]), ServerAction::Close));
    // A fresh session still serves the next client.
    let mut next = Socks5ServerSession::new();
    match next.on_greeting(&[5, 1, 0]) {
        ServerAction::Reply(v) => assert_eq!(v, vec![5, 0]),
        _ => panic!("expected a reply"),
    }
    assert_eq!(next.state, ServerState::Request);
}

#[test]
fn greeting_without_no_auth_is_refused() {
    match answer_greeting(&[5, 1, 2]) {
        ServerAction::ReplyAndClose(v) => assert_eq!(v, vec![5, 0xff]),
        _ => panic!("expected a refusal"),
    }
    assert!(matches!(answer_greeting(&[5, 3, 0]), ServerAction::Close));
    match answer_greeting(&[5, 0]) {
        ServerAction::ReplyAndClose(v) => assert_eq!(v, vec![5, 0xff]),
        _ => panic!("expected a refusal of the empty method list"),
    }
    assert!(matches!(answer_greeting(&[5]), ServerAction::Close));
    match answer_greeting(&[5, 2, 2, 0]) {
        ServerAction::Reply(v) => assert_eq!(v, vec![5, 0]),
        _ => panic!("expected a reply"),
    }
}

#[test]
fn request_parsing() {
    match parse_request(&[5, 1, 0, 1, 10, 0, 0, 5, 0x01, 0xbb]) {
        RequestOutcome::Connect(Destination::Address(a)) => {
            assert_eq!(a, SocketAddress { ip: IpAddress::V4([10, 0, 0, 5]), port: 443 });
        }
        _ => panic!("expected an IPv4 destination"),
    }
    let mut domain = vec![5, 1, 0, 3, 11];
    domain.extend_from_slice(b"example.com");
    domain.extend_from_slice(&[0, 80]);
    match parse_request(&domain) {
        RequestOutcome::Connect(Destination::Domain(d, port)) => {
            assert_eq!(d, "example.com");
            assert_eq!(port, 80);
        }
        _ => panic!("expected a domain destination"),
    }
    match parse_request(&[5, 1, 0, 3, 1, b'a', 0, 80]) {
        RequestOutcome::Connect(Destination::Domain(d, port)) => {
            assert_eq!(d, "a");
            assert_eq!(port, 80);
        }
        _ => panic!("expected a one-letter domain"),
    }
    assert!(matches!(parse_request(&[5, 1, 0, 3, 4, b'a']), RequestOutcome::Refuse(ServerAction::Close)));
    match parse_request(&[5, 2, 0, 1]) {
        RequestOutcome::Refuse(ServerAction::ReplyAndClose(v)) => assert_eq!(v[1], 7),
        _ => panic!("expected command not supported"),
    }
    let mut v6 = vec![5, 1, 0, 4];
    v6.extend_from_slice(&[0; 15]);
    v6.push(1);
    v6.extend_from_slice(&[0x1f, 0x90]);
    match parse_request(&v6) {
        RequestOutcome::Connect(Destination::Address(a)) => {
            let mut o = [0u8; 16];
            o[15] = 1;
            assert_eq!(a, SocketAddress { ip: IpAddress::V6(o), port: 8080 });
        }
        _ => panic!("expected an IPv6 destination"),
    }
    match parse_request(&[5, 2, 0, 1, 0, 0, 0, 0, 0, 0]) {
        RequestOutcome::Refuse(ServerAction::ReplyAndClose(v)) => {
            assert_eq!(v, vec![5, 7, 0, 1, 0, 0, 0, 0, 0, 0])
        }
        _ => panic!("expected command not supported"),
    }
    match parse_request(&[5, 1, 0, 9, 0, 0, 0, 0, 0, 0]) {
        RequestOutcome::Refuse(ServerAction::ReplyAndClose(v)) => {
            assert_eq!(v, vec![5, 8, 0, 1, 0, 0, 0, 0, 0, 0])
        }
        _ => panic!("expected address type not supported"),
    }
    assert!(matches!(parse_request(&[5, 1, 0, 1]), RequestOutcome::Refuse(ServerAction::Close)));
    assert!(matches!(
        parse_request(&[5, 1, 0, 4, 0, 0, 0, 0, 0, 0]),
        RequestOutcome::Refuse(ServerAction::Close)
    ));
}

#[test]
fn server_session_replies() {
    let mut s = Socks5ServerSession::new();
    s.on_greeting(&[5, 1, 0]);
    assert!(matches!(s.on_request(&[5, 1, 0, 1, 1, 2, 3, 4, 0, 80]), RequestOutcome::Connect(_)));
    assert_eq!(s.state, ServerState::Connecting);
    let dest = SocketAddress { ip: IpAddress::V4([1, 2, 3, 4]), port: 80 };
    match s.on_connect_result(Some(dest)) {
        ServerAction::Reply(v) => assert_eq!(v, vec![5, 0, 0, 1, 1, 2, 3, 4, 0, 80]),
        _ => panic!("expected success"),
    }
    assert_eq!(s.state, ServerState::Relaying);
    s.on_relay_end();
    assert_eq!(s.state, ServerState::Closed);
    let mut f = Socks5ServerSession::new();
    f.on_greeting(&[5, 1, 0]);
    f.on_request(&[5, 1, 0, 1, 1, 2, 3, 4, 0, 80]);
    match f.on_connect_result(None) {
        ServerAction::ReplyAndClose(v) => assert_eq!(v, vec![5, 1, 0, 1, 0, 0, 0, 0, 0, 0]),
        _ => panic!("expected failure"),
    }
}

#[test]
fn client_handshake_without_credentials() {
    let client = Socks5Client::new(proxy(1, None, None, ProxyType::Socks5));
    let target = SocketAddress { ip: IpAddress::V4([8, 8, 8, 8]), port: 53 };
    let (mut h, greeting) = client.start_handshake(&target).unwrap();
    assert_eq!(greeting, vec![5, 1, 0]);
    match h.on_input(&[5, 0]) {
        ClientStep::Exchange { send, read } => {
            assert_eq!(send, vec![5, 1, 0, 1, 8, 8, 8, 8, 0, 53]);
            assert_eq!(read, 4);
        }
        _ => panic!("expected the CONNECT request"),
    }
    assert!(matches!(h.on_input(&[5, 0, 0, 3]), ClientStep::Read(1)));
    assert!(matches!(h.on_input(&[4]), ClientStep::Read(6)));
    assert!(matches!(h.on_input(&[0; 6]), ClientStep::Done));
    assert_eq!(h.state, ClientState::Done);
}

#[test]
fn client_handshake_with_credentials() {
    let client = Socks5Client::new(proxy(1, Some("user"), Some("pw"), ProxyType::Socks5));
    let mut o = [0u8; 16];
    o[15] = 1;
    let target = SocketAddress { ip: IpAddress::V6(o), port: 443 };
    let (mut h, greeting) = client.start_handshake(&target).unwrap();
    assert_eq!(greeting, vec![5, 2, 2, 0]);
    match h.on_input(&[5, 2]) {
        ClientStep::Exchange { send, read } => {
            assert_eq!(send, vec![1, 4, b'u', b's', b'e', b'r', 2, b'p', b'w']);
            assert_eq!(read, 2);
        }
        _ => panic!("expected the credentials"),
    }
    match h.on_input(&[1, 0]) {
        ClientStep::Exchange { send, read } => {
            assert_eq!(send[3], 4);
            assert_eq!(send.len(), 22);
            assert_eq!(read, 4);
        }
        _ => panic!("expected the CONNECT request"),
    }
    assert!(matches!(h.on_input(&[5, 0, 0, 4]), ClientStep::Read(18)));
}

#[test]
fn client_handshake_errors() {
    let target = SocketAddress { ip: IpAddress::V4([1, 1, 1, 1]), port: 80 };
    let plain = Socks5Client::new(proxy(1, None, None, ProxyType::Socks5));
    let (mut h, _) = plain.start_handshake(&target).unwrap();
    assert!(matches!(h.on_input(&[4, 0]), ClientStep::Fail(ProxyError::Protocol)));
    let (mut h, _) = plain.start_handshake(&target).unwrap();
    assert!(matches!(h.on_input(&[5, 2]), ClientStep::Fail(ProxyError::Auth)));
    let (mut h, _) = plain.start_handshake(&target).unwrap();
    h.on_input(&[5, 0]);
    assert!(matches!(h.on_input(&[5, 5, 0, 1]), ClientStep::Fail(ProxyError::Connect(5))));
    let (mut h, _) = plain.start_handshake(&target).unwrap();
    h.on_input(&[5, 0]);
    assert!(matches!(h.on_input(&[5, 0, 0, 7]), ClientStep::Fail(ProxyError::Protocol)));
    let with_auth = Socks5Client::new(proxy(1, Some("u"), None, ProxyType::Socks5));
    let (mut h, _) = with_auth.start_handshake(&target).unwrap();
    h.on_input(&[5, 2]);
    assert!(matches!(h.on_input(&[1, 1]), ClientStep::Fail(ProxyError::Auth)));
    let http = Socks5Client::new(proxy(1, None, None, ProxyType::Http));
    assert!(matches!(http.start_handshake(&target), Err(ProxyError::Unsupported)));
    let socks4 = Socks5Client::new(proxy(1, None, None, ProxyType::Socks4));
    assert!(matches!(socks4.start_handshake(&target), Err(ProxyError::Unsupported)));
}

#[test]
fn log_keeps_the_latest_thousand() {
    let mut log = InterceptionLog::new();
    for _ in 0..1005 {
        let id = log.next_connection_id();
        log.record_intercepted_connection(id, "d".to_string(), None, InterceptionStatus::Direct, 0);
    }
    let entries = log.get_intercepted_connections();
    assert_eq!(entries.len(), LOG_CAPACITY);
    assert_eq!(entries.len(), 1000);
    assert_eq!(entries[0].id, 6);
    assert_eq!(entries[999].id, 1005);
    for (i, e) in entries.iter().enumerate() {
        assert_eq!(e.id, 6 + i as u64);
    }
}

#[test]
fn log_below_capacity_keeps_everything() {
    let mut log = InterceptionLog::new();
    assert_eq!(log.len(), 0);
    let id = log.next_connection_id();
    assert_eq!(id, 1);
    log.record_intercepted_connection(id, "a.com".to_string(), None, InterceptionStatus::Failed, 42);
    let e = log.get_intercepted_connections();
    assert_eq!(e.len(), 1);
    assert_eq!(e[0].domain.as_deref(), Some("a.com"));
    assert_eq!(e[0].status, InterceptionStatus::Failed);
    assert_eq!(e[0].intercepted_at, 42);
}

#[test]
fn dns_plans() {
    let mut m = ProxyManager::default();
    m.global_enabled = true;
    let a = m.add_proxy("A".to_string(), "h".to_string(), 1, ProxyType::Socks5);
    m.add_rule("x".to_string(), "*.x.com".to_string(), a);
    match plan_dns_query(&m, &build_dns_query_packet("a.x.com")) {
        DnsPlan::ViaProxy { domain, proxy } => {
            assert_eq!(domain, "a.x.com");
            assert_eq!(proxy.id, a);
        }
        _ => panic!("expected the proxy"),
    }
    let direct = plan_dns_query(&m, &build_dns_query_packet("a.y.com"));
    assert!(matches!(direct, DnsPlan::Direct { .. }));
    assert_eq!(dns_query_status(&direct, true), InterceptionStatus::Direct);
    assert_eq!(dns_query_status(&direct, false), InterceptionStatus::Failed);
    let ignored = plan_dns_query(&m, &[1, 2, 3]);
    assert!(matches!(ignored, DnsPlan::Ignore));
    let upstream = upstream_dns_server();
    assert_eq!(upstream.ip, IpAddress::V4([8, 8, 8, 8]));
    assert_eq!(upstream.port, 53);
}

#[test]
fn long_label_length_byte_is_truncated() {
    let label = "a".repeat(300);
    let p = build_dns_query_packet(&label);
    assert_eq!(p[12], (300 % 256) as u8);
    assert_eq!(p.len(), 12 + 1 + 300 + 5);
}
