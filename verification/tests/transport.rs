//! Reaching a server: names, addresses, TLS, REALITY and what wraps them.

use base64::Engine;

use sockrocket_core::config::{
    RealityConfig, TlsConfig, TransportConfig, TransportType, WsConfig,
};
use sockrocket_core::net::{format_ip, parse_ip, IpAddr, SocketAddr};
use sockrocket_core::proxy::reality::{
    load_list, saved_list, Handshake, Opening, Outcome, RealityProbe, RealityRegistry,
};
use sockrocket_core::proxy::transport::{
    build_reality_tls_connector, build_tls_connector, dial_target, fingerprint, format_host_port,
    join_answers, resolve_transport_tls, server_key, server_lookup, tcp_timeout_message,
    tls_timeout_message, with_port, DialTarget, Fingerprint, ServerAddrCache, ServerLookup,
    TlsConnFactory,
};
use sockrocket_core::proxy::ws::{
    build_handshake_request, compute_accept_key, encode_frame_with_key, handshake_step,
    normalize_path, read_frame, HandshakeStep, ReadStep, WriteStep, WsStream, OPCODE_BINARY,
};

fn ip(s: &str) -> IpAddr {
    parse_ip(s).unwrap()
}

fn reality(public_key: &str, short_id: &str) -> RealityConfig {
    RealityConfig {
        public_key: public_key.to_string(),
        short_id: short_id.to_string(),
        sni: None,
        client_fingerprint: None,
        skip_cert_verify: false,
    }
}

fn good_reality() -> RealityConfig {
    reality(
        &base64::engine::general_purpose::URL_SAFE_NO_PAD.encode([7u8; 32]),
        "abcd",
    )
}

#[test]
fn reality_bad_public_key_returns_error_not_panic() {
    let reality = reality("!!!not-base64!!!", "abcd");
    let err = match build_reality_tls_connector(&reality, None, false) {
        Err(e) => e.message(),
        Ok(_) => panic!("bad public key must be an error, not a connector"),
    };
    assert!(err.contains("REALITY public key"), "unexpected error: {}", err);
}

#[test]
fn reality_bad_short_id_returns_error_not_panic() {
    let reality = reality(
        &base64::engine::general_purpose::URL_SAFE_NO_PAD.encode([7u8; 32]),
        "zz-not-hex",
    );
    let err = match build_reality_tls_connector(&reality, None, false) {
        Err(e) => e.message(),
        Ok(_) => panic!("bad short id must be an error, not a connector"),
    };
    assert!(err.contains("REALITY short id"), "unexpected error: {}", err);
}

#[test]
fn reality_keys_come_in_two_alphabets() {
    let connector = build_reality_tls_connector(&good_reality(), None, false).ok().unwrap();
    assert_eq!(connector.public_key, [7u8; 32]);
    assert_eq!(connector.short_id, vec![0xab, 0xcd]);
    let standard = reality(
        &base64::engine::general_purpose::STANDARD.encode([0xfbu8; 32]),
        "",
    );
    let connector = build_reality_tls_connector(&standard, None, true).ok().unwrap();
    assert_eq!(connector.public_key, [0xfbu8; 32]);
    assert!(connector.classic_only);
    let short = reality(
        &base64::engine::general_purpose::STANDARD.encode([1u8; 31]),
        "",
    );
    assert!(build_reality_tls_connector(&short, None, false).is_err());
}

#[test]
fn reality_keys_are_written_in_one_way_only() {
    let text = "AAECAwQFBgcICQoLDA0ODxAREhMUFRYXGBkaGxwdHh8";
    let key: Vec<u8> = (0..32).collect();
    for written in [text.to_string(), format!("{}=", text)] {
        let connector = build_reality_tls_connector(&reality(&written, ""), None, false);
        assert_eq!(connector.ok().unwrap().public_key.to_vec(), key);
    }
    let loose_bits = format!("{}9", &text[..text.len() - 1]);
    for written in [loose_bits, format!("{}==", text), format!("={}", text), format!("{} ", text)] {
        assert!(build_reality_tls_connector(&reality(&written, ""), None, false).is_err());
    }
}

#[test]
fn server_addr_cache_hit_and_expiry() {
    let mut cache = ServerAddrCache::new();
    let ips = vec![ip("93.184.216.34")];
    let t0: u64 = 5_000_000_000;

    cache.insert("node.example.com", ips.clone(), t0);

    assert_eq!(cache.get("node.example.com", t0), Some(ips.clone()));
    assert_eq!(
        cache.get("node.example.com", t0 + 59_000_000_000),
        Some(ips.clone())
    );
    assert_eq!(cache.get("node.example.com", t0 + 61_000_000_000), None);
    assert_eq!(cache.get("other.example.com", t0), None);
}

#[test]
fn server_addr_cache_stores_ipv6() {
    let mut cache = ServerAddrCache::new();
    let ips = vec![ip("93.184.216.34"), ip("2001:db8::1")];
    cache.insert("dual.example.com", ips.clone(), 0);
    let got = cache.get("dual.example.com", 0).unwrap();
    assert_eq!(got, ips);
    assert!(got.iter().any(|ip| matches!(ip, IpAddr::V6(_))));
}

#[test]
fn resolve_server_ips_passthrough_for_ip_literal() {
    let cache = ServerAddrCache::new();
    for host in ["127.0.0.1", "::1", "[::1]", "[2001:db8::1]"] {
        assert!(matches!(
            server_lookup(&cache, host, 0, false),
            ServerLookup::Literal
        ));
    }
}

#[test]
fn names_are_asked_for_once() {
    let mut cache = ServerAddrCache::new();
    match server_lookup(&cache, "node.example.com", 0, false) {
        ServerLookup::Ask { host, bootstrap } => {
            assert_eq!(host, "node.example.com");
            assert!(bootstrap);
        }
        _ => panic!("the name is not known"),
    }
    assert!(matches!(
        server_lookup(&cache, "node.example.com", 0, true),
        ServerLookup::Ask { bootstrap: false, .. }
    ));
    cache.insert("node.example.com", vec![ip("1.2.3.4")], 0);
    match server_lookup(&cache, "node.example.com", 1, false) {
        ServerLookup::Known(ips) => assert_eq!(ips, vec![ip("1.2.3.4")]),
        _ => panic!("the name is known"),
    }
}

#[test]
fn answers_of_both_kinds_are_joined() {
    let v4 = vec![ip("1.2.3.4")];
    let v6 = vec![ip("::1")];
    assert_eq!(
        join_answers(Some(v4.clone()), Some(v6.clone())),
        Some(vec![ip("1.2.3.4"), ip("::1")])
    );
    assert_eq!(join_answers(None, Some(v6.clone())), Some(v6));
    assert_eq!(join_answers(None, None), None);
}

#[test]
fn format_host_port_brackets_ipv6() {
    assert_eq!(format_host_port("2001:db8::1", 443), "[2001:db8::1]:443");
    assert_eq!(format_host_port("[2001:db8::1]", 443), "[2001:db8::1]:443");
    assert_eq!(format_host_port("::1", 1080), "[::1]:1080");
    assert_eq!(format_host_port("127.0.0.1", 443), "127.0.0.1:443");
    assert_eq!(
        format_host_port("node.example.com", 443),
        "node.example.com:443"
    );
}

#[test]
fn targets_are_told_apart() {
    assert!(matches!(
        dial_target("1.2.3.4:80"),
        DialTarget::Literal(SocketAddr { port: 80, .. })
    ));
    match dial_target("example.com:443") {
        DialTarget::Name { host, port } => {
            assert_eq!(host, "example.com");
            assert_eq!(port, 443);
        }
        _ => panic!("a name with a port"),
    }
    assert!(matches!(dial_target("nonsense"), DialTarget::System));
    let addrs = with_port(&[ip("1.2.3.4")], 9);
    assert_eq!(addrs, vec![SocketAddr { ip: ip("1.2.3.4"), port: 9 }]);
}

#[test]
fn timeouts_name_their_target() {
    assert_eq!(
        tcp_timeout_message("a:1", 15),
        "TCP connection to a:1 timed out after 15s"
    );
    assert_eq!(
        tls_timeout_message("a:1", "s", 15),
        "TLS handshake with a:1 (SNI: s) timed out after 15s"
    );
}

#[test]
fn addresses_are_written_in_short() {
    let cases = [
        "0.0.0.0",
        "255.255.255.255",
        "::",
        "::1",
        "1::",
        "2001:db8::1",
        "1:0:0:2::3",
        "::ffff:1.2.3.4",
        "1:2:3:4:5:6:7:8",
    ];
    for text in cases {
        let shown: String = format_ip(ip(text)).iter().collect();
        assert_eq!(shown, text);
    }
    for text in ["256.1.1.1", "1.2.3", "01.2.3.4", ":::", "1:2:3:4:5:6:7", "12345::"] {
        assert_eq!(parse_ip(text), None);
    }
}

#[test]
fn resolve_transport_tls_ws_with_tls_block_enables_tls() {
    let t = TransportConfig {
        transport_type: TransportType::WebSocket,
        tls: Some(TlsConfig {
            sni: Some("cdn.example.com".to_string()),
            skip_cert_verify: true,
            alpn: None,
            fingerprint: None,
        }),
        ws: None,
        reality: None,
    };
    let (tls, use_tls) = resolve_transport_tls(Some(&t), "server.com");
    assert!(use_tls, "ws+tls must enable TLS");
    assert_eq!(tls.unwrap().sni.as_deref(), Some("cdn.example.com"));
}

#[test]
fn resolve_transport_tls_ws_without_tls_stays_plaintext() {
    let t = TransportConfig {
        transport_type: TransportType::WebSocket,
        tls: None,
        ws: None,
        reality: None,
    };
    let (tls, use_tls) = resolve_transport_tls(Some(&t), "server.com");
    assert!(!use_tls);
    assert!(tls.is_none());
}

#[test]
fn factory_ws_transport_handshakes_and_carries_bytes() {
    let transport = TransportConfig {
        transport_type: TransportType::WebSocket,
        tls: None,
        ws: Some(WsConfig {
            path: Some("/ws-path".to_string()),
            host: Some("cdn.example.com".to_string()),
            headers: None,
        }),
        reality: None,
    };
    let factory = TlsConnFactory::from_transport("127.0.0.1", 8080, Some(&transport), false);
    let mut registry = RealityRegistry::new();
    assert!(matches!(
        factory.create(&mut registry),
        Opening::Dial { handshake: Handshake::Ordinary, probe: None }
    ));
    let dialled = factory.dialled(&mut registry, None, None);
    assert!(matches!(dialled.outcome, Outcome::Connected { upgrade: true }));

    let ws = factory.ws.unwrap();
    let path = normalize_path(ws.path.as_deref());
    let (request, key) = build_handshake_request(ws.host.as_deref().unwrap(), &path, None);
    let head = String::from_utf8(request).unwrap();
    assert!(head.starts_with("GET /ws-path HTTP/1.1\r\n"), "got: {}", head);
    assert!(head.contains("Host: cdn.example.com\r\n"), "got: {}", head);

    let answer = format!(
        "HTTP/1.1 101 Switching Protocols\r\nSec-WebSocket-Accept: {}\r\n\r\n",
        compute_accept_key(&key)
    );
    assert!(matches!(
        handshake_step(answer.as_bytes(), &key),
        HandshakeStep::Switched(n) if n == answer.len()
    ));

    let mut stream = WsStream::new(vec![]);
    assert!(matches!(stream.poll_write(b"hello"), WriteStep::Drain));
    let frame = read_frame(stream.pending()).ok().unwrap().unwrap();
    assert_eq!(stream.pending()[0], 0x82);
    assert!(stream.pending()[1] & 0x80 != 0, "client frames must be masked");
    assert_eq!(frame.payload, b"hello");
    let echo = encode_frame_with_key(OPCODE_BINARY, &frame.payload, None);
    let mut at = 0;
    loop {
        match stream.poll_read(64) {
            ReadStep::Fill(n) => {
                stream.on_data(&echo[at..at + n]);
                at += n;
            }
            ReadStep::Deliver(data) => {
                assert_eq!(data, b"hello");
                break;
            }
            _ => panic!("the frame is sound"),
        }
    }
}

#[test]
fn connectors_follow_their_configuration() {
    let connector = build_tls_connector(None);
    assert!(connector.verify);
    let tls = TlsConfig {
        sni: None,
        skip_cert_verify: true,
        alpn: Some(vec!["h2".to_string()]),
        fingerprint: Some("firefox".to_string()),
    };
    let connector = build_tls_connector(Some(&tls));
    assert!(!connector.verify);
    assert_eq!(connector.alpn, Some(vec!["h2".to_string()]));
    assert_eq!(fingerprint(&Some("firefox".to_string())), Fingerprint::Firefox105);
    assert_eq!(fingerprint(&Some("safari".to_string())), Fingerprint::Safari17);
}

// -- REALITY -----------------------------------------------------------------

fn reality_factory() -> TlsConnFactory {
    TlsConnFactory::new("server.com", 443, None, true, Some(&good_reality()))
}

#[test]
fn broken_reality_refuses_to_dial() {
    let factory = TlsConnFactory::new("server.com", 443, None, true, Some(&reality("?", "")));
    let mut registry = RealityRegistry::new();
    assert!(matches!(factory.create(&mut registry), Opening::Refused(_)));
}

#[test]
fn first_connection_leads_and_others_wait() {
    let factory = reality_factory();
    let mut registry = RealityRegistry::new();
    let probe = match factory.create(&mut registry) {
        Opening::Dial { handshake: Handshake::Hybrid, probe: Some(p) } => p,
        _ => panic!("the first leads"),
    };
    match factory.create(&mut registry) {
        Opening::WaitFor(p) => assert_eq!(p, probe),
        _ => panic!("the second waits"),
    }
    let dialled = factory.dialled(&mut registry, Some(probe), None);
    assert_eq!(dialled.wake, Some(probe));
    assert!(matches!(dialled.outcome, Outcome::Connected { .. }));
    assert!(!registry.server_needs_classic_reality("server.com", 443));
}

#[test]
fn fallback_is_learnt_and_kept() {
    let factory = reality_factory();
    let mut registry = RealityRegistry::new();
    let probe = match factory.create(&mut registry) {
        Opening::Dial { probe: Some(p), .. } => p,
        _ => panic!("the first leads"),
    };
    let dialled = factory.dialled(&mut registry, Some(probe), Some("Ed25519 SPKI not found in it"));
    assert!(matches!(dialled.outcome, Outcome::RetryClassic));
    assert!(dialled.save);
    assert!(registry.server_needs_classic_reality("server.com", 443));
    assert!(matches!(factory.retried(true), Outcome::Connected { .. }));
    assert!(matches!(factory.retried(false), Outcome::Failed));

    let saved = saved_list(&registry);
    let loaded = load_list(&saved);
    assert!(loaded.server_needs_classic_reality("server.com", 443));
    assert!(!loaded.server_needs_classic_reality("server.com", 444));
    match factory.create(&mut registry) {
        Opening::Dial { handshake: Handshake::Classic, probe: None } => {}
        _ => panic!("the server is known"),
    }
}

#[test]
fn probes_are_released() {
    let mut registry = RealityRegistry::new();
    let first = match registry.begin_reality_probe("s", 1) {
        RealityProbe::Leader(p) => p,
        RealityProbe::Follower(_) => panic!("the first leads"),
    };
    assert!(matches!(
        registry.begin_reality_probe("s", 1),
        RealityProbe::Follower(p) if p == first
    ));
    registry.finish_reality_probe("s", 1, first, false);
    assert!(matches!(
        registry.begin_reality_probe("s", 1),
        RealityProbe::Leader(p) if p != first
    ));
    assert_eq!(server_key("s", 1), "s:1");
}
