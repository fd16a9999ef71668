//! What surrounds the proxy: tests of speed, sharing, and the system.

use sockrocket_core::net::{parse_ip, IpAddr};
use sockrocket_core::platform::Platform;
use sockrocket_core::proxy::outbound_bind::{
    apply_to_tcp_socket, clear_outbound_bind, interface_index_by_ip, interface_index_by_name,
    outbound_bind, set_outbound_bind, Adapter, BindState, OptionValue, OutboundBind, RawAddress,
};
use sockrocket_core::proxy::speedtest::{
    classify_probe_error, download_counts, millis_since, tcp_probe_timeout_message, warmup_budget,
    Cause, ConnectStep, IoKind, LatencyProbe, ProbeFailureKind, SpeedTestResult,
};
use sockrocket_core::qr::qr_module_matrix;
use sockrocket_core::share_server::{
    generate_token, lan_ip, new_shared_state, on_head_data, on_head_eof, refusal, respond, route,
    serve, served_format, timeout_response, token_valid, HeadStep, ShareRoute, SubscriptionFormat,
};
use sockrocket_core::system_proxy::{
    bracket_ipv6_host, clear_system_proxy, cleared_setting, ensure_supported, get_system_proxy,
    parse_proxy_server,
    platform_bypass, proxy_setting, set_system_proxy, supported_or_error, system_proxy_supported,
    tolerant_config,
    write_failed_message, ReadFailure, ReadOutcome, SystemProxyConfig, WriteError, DEFAULT_BYPASS,
};

// -- Tests of speed ----------------------------------------------------------

fn plain(message: &str) -> Cause {
    Cause {
        io_kind: None,
        message: message.to_string(),
    }
}

fn io(kind: IoKind, message: &str) -> Cause {
    Cause {
        io_kind: Some(kind),
        message: message.to_string(),
    }
}

#[test]
fn classify_timeout_message() {
    let e = [plain("connection timed out")];
    assert_eq!(classify_probe_error(&e), ProbeFailureKind::Timeout);
}

#[test]
fn classify_tcp_timeout_message() {
    let e = [plain("TCP connect to 1.2.3.4:443 timed out (5s)")];
    assert_eq!(classify_probe_error(&e), ProbeFailureKind::Timeout);
    assert_eq!(
        tcp_probe_timeout_message("1.2.3.4", 443, 5),
        "TCP connect to 1.2.3.4:443 timed out (5s)"
    );
}

#[test]
fn classify_io_refused() {
    let e = [io(IoKind::ConnectionRefused, "connection refused")];
    assert_eq!(classify_probe_error(&e), ProbeFailureKind::Unreachable);
}

#[test]
fn classify_io_timed_out_kind() {
    let e = [io(IoKind::TimedOut, "os error 110")];
    assert_eq!(classify_probe_error(&e), ProbeFailureKind::Timeout);
}

#[test]
fn classify_tls_handshake() {
    let e = [plain("tls handshake failed: invalid certificate")];
    assert_eq!(classify_probe_error(&e), ProbeFailureKind::Tls);
}

#[test]
fn classify_timeout_beats_tls() {
    let e = [plain("tls handshake timed out")];
    assert_eq!(classify_probe_error(&e), ProbeFailureKind::Timeout);
}

#[test]
fn classify_dns_failure() {
    let e = [plain("dns error: failed to lookup address information")];
    assert_eq!(classify_probe_error(&e), ProbeFailureKind::Unreachable);
}

#[test]
fn classify_protocol_error() {
    let e = [plain("vmess auth failed")];
    assert_eq!(classify_probe_error(&e), ProbeFailureKind::Protocol);
}

#[test]
fn classify_unknown_error() {
    let e = [plain("something odd happened")];
    assert_eq!(classify_probe_error(&e), ProbeFailureKind::Other);
}

#[test]
fn classify_nested_cause() {
    let e = [plain("proxy connect failed"), io(IoKind::ConnectionReset, "reset")];
    assert_eq!(classify_probe_error(&e), ProbeFailureKind::Unreachable);
}

#[test]
fn kinds_of_the_system_beat_words() {
    let e = [
        plain("TLS handshake failed with SNI 'a.com'"),
        io(IoKind::TimedOut, "os error 110"),
    ];
    assert_eq!(classify_probe_error(&e), ProbeFailureKind::Timeout);
    let e = [
        plain("tls handshake timed out"),
        io(IoKind::Other, "vmess auth failed"),
        io(IoKind::ConnectionReset, "os error 104"),
    ];
    assert_eq!(classify_probe_error(&e), ProbeFailureKind::Unreachable);
    let e = [plain("vmess auth failed"), io(IoKind::Other, "tls handshake timed out")];
    assert_eq!(classify_probe_error(&e), ProbeFailureKind::Protocol);
}

#[test]
fn words_are_read_in_any_case() {
    let e = [io(IoKind::Other, "REALITY: no key")];
    assert_eq!(classify_probe_error(&e), ProbeFailureKind::Tls);
    assert_eq!(classify_probe_error(&[]), ProbeFailureKind::Other);
}

#[test]
fn failures_have_names() {
    assert_eq!(ProbeFailureKind::Tls.label(), "tls handshake failed");
    assert_eq!(ProbeFailureKind::Unreachable.badge_label(), "Server unreachable");
}

#[test]
fn latency_probe_keeps_one_deadline() {
    assert_eq!(warmup_budget(1), 2_000_000_000);
    assert_eq!(warmup_budget(6), 3_000_000_000);
    assert_eq!(warmup_budget(60), 5_000_000_000);

    let second = 1_000_000_000u64;
    let mut probe = LatencyProbe::new(100, 10);
    match probe.step(100) {
        ConnectStep::Connect { host, port, budget } => {
            assert_eq!((host, port), ("www.gstatic.com", 80));
            assert_eq!(budget, 10 * second as u128);
        }
        ConnectStep::GiveUp(_) => panic!("there is time"),
    }
    probe.on_connect_timeout();
    match probe.step(100 + 4 * second) {
        ConnectStep::Connect { host, budget, .. } => {
            assert_eq!(host, "cp.cloudflare.com");
            assert_eq!(budget, 6 * second as u128);
        }
        ConnectStep::GiveUp(_) => panic!("there is time"),
    }
    assert_eq!(probe.write_budget(100 + 4 * second), Ok(5 * second));
    assert_eq!(probe.write_budget(100 + 10 * second), Err("probe write timed out"));
    assert_eq!(probe.read_budget(100 + 4 * second), Some(3 * second));
    assert_eq!(probe.read_budget(100 + 10 * second), None);
    assert_eq!(probe.latency_ms(100 + 1_999_999), 1);
    assert_eq!(millis_since(5, 3), 0);
}

#[test]
fn latency_probe_gives_up() {
    let mut probe = LatencyProbe::new(0, 10);
    probe.step(0);
    probe.on_connect_failed("TLS handshake failed");
    match probe.step(0) {
        ConnectStep::GiveUp(e) => assert_eq!(e, "TLS handshake failed"),
        ConnectStep::Connect { .. } => panic!("no target would help"),
    }

    let mut probe = LatencyProbe::new(0, 10);
    for host in ["www.gstatic.com", "cp.cloudflare.com", "dns.google"] {
        match probe.step(0) {
            ConnectStep::Connect { host: h, .. } => assert_eq!(h, host),
            ConnectStep::GiveUp(_) => panic!("there is another target"),
        }
        probe.on_connect_failed("refused");
    }
    assert!(matches!(probe.step(0), ConnectStep::GiveUp(e) if e == "refused"));

    let mut probe = LatencyProbe::new(0, 0);
    assert!(matches!(probe.step(0), ConnectStep::GiveUp(e) if e == "connection timed out"));
}

#[test]
fn speed_is_named_where_enough_came() {
    assert!(download_counts(101, 1));
    assert!(!download_counts(100, 1));
    assert!(!download_counts(101, 0));
    let result = SpeedTestResult {
        latency_ms: 3,
        download_kbps: None,
    };
    assert_eq!(result.latency_ms, 3);
}

// -- Binding -----------------------------------------------------------------

#[test]
fn bind_state_roundtrip() {
    let mut state = BindState::new();
    clear_outbound_bind(&mut state);
    assert!(outbound_bind(&state).is_none());
    set_outbound_bind(
        &mut state,
        OutboundBind {
            if_index_v4: Some(12),
            if_index_v6: None,
            if_name: Some("eth0".to_string()),
        },
    );
    let b = outbound_bind(&state).expect("set");
    assert_eq!(b.if_index_v4, Some(12));
    assert_eq!(b.if_name.as_deref(), Some("eth0"));
    clear_outbound_bind(&mut state);
    assert!(outbound_bind(&state).is_none());
}

#[test]
fn apply_is_noop_when_unset() {
    let state = BindState::new();
    for platform in [Platform::Windows, Platform::Linux, Platform::Macos, Platform::Other] {
        assert!(apply_to_tcp_socket(&state, platform, false).is_none());
    }
}

fn adapter(if_index: u32, name: &str, ip: [u8; 4]) -> Adapter {
    let mut data = [0u8; 14];
    data[2..6].copy_from_slice(&ip);
    Adapter {
        if_index,
        friendly_name: name.to_string(),
        addresses: vec![
            RawAddress { family: 23, data: [0; 14] },
            RawAddress { family: 2, data },
        ],
    }
}

#[test]
fn loopback_interface_has_index() {
    let adapters = [adapter(1, "Loopback", [127, 0, 0, 1])];
    assert!(interface_index_by_name(&adapters, "definitely-not-an-interface-xyz").is_none());
    assert_eq!(interface_index_by_name(&adapters, "Loopback"), Some(1));
    assert!(interface_index_by_name(&adapters, "").is_none());
}

#[test]
fn loopback_ip_resolves_to_index() {
    let adapters = [
        adapter(7, "Ethernet", [192, 168, 1, 2]),
        adapter(1, "Loopback", [127, 0, 0, 1]),
        adapter(0, "Odd", [10, 0, 0, 1]),
    ];
    let idx = interface_index_by_ip(&adapters, 0x7f00_0001)
        .expect("loopback adapter must resolve to an interface index");
    assert!(idx > 0);
    assert_eq!(idx, 1);
    assert_eq!(interface_index_by_ip(&adapters, 0x0a00_0001), None);
    assert_eq!(interface_index_by_ip(&adapters, 0), None);
}

#[test]
fn bound_socket_still_connects() {
    let mut state = BindState::new();
    set_outbound_bind(
        &mut state,
        OutboundBind {
            if_index_v4: Some(1),
            if_index_v6: None,
            if_name: None,
        },
    );
    let option = apply_to_tcp_socket(&state, Platform::Windows, false).unwrap();
    assert_eq!((option.level, option.name), (0, 31));
    assert!(matches!(option.value, OptionValue::Bytes(b) if b == [0, 0, 0, 1]));
    assert!(apply_to_tcp_socket(&state, Platform::Macos, true).is_none());
    let option = apply_to_tcp_socket(&state, Platform::Macos, false).unwrap();
    assert_eq!((option.level, option.name), (0, 25));
    assert!(matches!(option.value, OptionValue::Number(1)));
    assert!(apply_to_tcp_socket(&state, Platform::Linux, false).is_none());
}

// -- QR codes ----------------------------------------------------------------

#[test]
fn matrix_for_short_payload() {
    let (width, cells) = qr_module_matrix("hello").expect("short data must encode");
    assert_eq!(width, 21);
    assert_eq!(cells.len(), width * width);
    assert!(cells.iter().any(|&c| c));
    assert!(cells.iter().any(|&c| !c));
}

#[test]
fn matrix_scales_with_payload_size() {
    let (small, _) = qr_module_matrix("vmess://a").unwrap();
    let long_uri = format!("vmess://{}", "a".repeat(300));
    let (big, _) = qr_module_matrix(&long_uri).unwrap();
    assert!(big > small, "larger payload needs a larger QR version");
    assert_eq!((big - small) % 4, 0);
}

#[test]
fn empty_input_rejected() {
    assert!(qr_module_matrix("").is_none());
}

#[test]
fn oversized_input_rejected() {
    let huge = "x".repeat(10 * 1024);
    assert!(qr_module_matrix(&huge).is_none());
}

#[test]
fn matrix_succeeds_for_typical_share_uri() {
    let uri = "trojan://password@example.com:443?sni=example.com#node-1";
    let (width, cells) = qr_module_matrix(uri).expect("share URI must encode");
    assert_eq!(cells.len(), width * width);
}

#[test]
fn matrix_widths_go_in_steps_of_four() {
    for n in [1, 20, 100, 500, 1000] {
        let (width, cells) = qr_module_matrix(&"x".repeat(n)).unwrap();
        assert!((21..=177).contains(&width));
        assert_eq!((width - 21) % 4, 0);
        assert_eq!(cells.len(), width * width);
    }
}

// -- Sharing -----------------------------------------------------------------

#[test]
fn token_validation_logic() {
    assert!(token_valid(Some("abc"), "abc"));
    assert!(!token_valid(Some("abd"), "abc"));
    assert!(!token_valid(Some("ab"), "abc"));
    assert!(!token_valid(Some("abcd"), "abc"));
    assert!(!token_valid(None, "abc"));
    assert!(!token_valid(Some(""), "abc"));
}

#[test]
fn generated_tokens_are_random_and_url_safe() {
    let a = generate_token();
    let b = generate_token();
    assert_ne!(a, b);
    assert_eq!(a.len(), 32);
    assert!(a.chars().all(|c| c.is_ascii_hexdigit()));
    assert_eq!(a.as_bytes()[12], b'4');
    assert!(b"89ab".contains(&a.as_bytes()[16]));
}

#[test]
fn generated_tokens_open_the_list() {
    let token = generate_token();
    let head = format!("GET /sub?token={} HTTP/1.1\r\n\r\n", token);
    assert!(matches!(route(&head, &token), ShareRoute::Serve { format: None }));
    let head = format!("GET /sub?token={}&format=clash HTTP/1.1\r\n\r\n", token);
    match route(&head, &token) {
        ShareRoute::Serve { format } => assert_eq!(format.as_deref(), Some("clash")),
        other => panic!("not served: {:?}", other),
    }
}

#[test]
fn queries_are_unescaped() {
    let head = "GET /sub?&&a&token=a%2Bb+c%&format=%e4%BD%a0%zz HTTP/1.1\r\n\r\n";
    match route(head, "a+b c%") {
        ShareRoute::Serve { format } => assert_eq!(format.as_deref(), Some("\u{4f60}%zz")),
        other => panic!("not served: {:?}", other),
    }
    let broken = "GET /sub?token=x&format=%ff HTTP/1.1\r\n\r\n";
    match route(broken, "x") {
        ShareRoute::Serve { format } => assert_eq!(format.as_deref(), Some("\u{fffd}")),
        other => panic!("not served: {:?}", other),
    }
    let last = "GET /sub?token=x&token=y HTTP/1.1\r\n\r\n";
    assert!(matches!(route(last, "x"), ShareRoute::Forbidden));
    assert!(matches!(route(last, "y"), ShareRoute::Serve { .. }));
}

fn answer_to(request: &str) -> Vec<u8> {
    let route = route(request, "sekret");
    match refusal(&route) {
        Some(answer) => answer,
        None => serve("text/yaml", "proxies: []\n"),
    }
}

fn starts(answer: &[u8], text: &str) -> bool {
    answer.starts_with(text.as_bytes())
}

#[test]
fn serves_subscription_and_enforces_token() {
    let resp = answer_to("GET /sub?token=wrong HTTP/1.1\r\nHost: x\r\n\r\n");
    assert!(starts(&resp, "HTTP/1.1 403"));

    let resp = answer_to("GET /sub HTTP/1.1\r\nHost: x\r\n\r\n");
    assert!(starts(&resp, "HTTP/1.1 403"));

    let resp = answer_to("GET /other?token=sekret HTTP/1.1\r\nHost: x\r\n\r\n");
    assert!(starts(&resp, "HTTP/1.1 404"));

    let resp = answer_to("POST /sub?token=sekret HTTP/1.1\r\nHost: x\r\n\r\n");
    assert!(starts(&resp, "HTTP/1.1 405"));

    let resp = answer_to("GET /sub?token=sekret HTTP/1.1\r\nHost: x\r\n\r\n");
    assert!(starts(&resp, "HTTP/1.1 200"));
    let text = String::from_utf8(resp).unwrap();
    assert!(text.contains("Cache-Control: no-store"));
    assert!(text.contains("Content-Length: 12\r\n"));
    assert!(text.ends_with("\r\n\r\nproxies: []\n"));

    match route("GET /sub?token=sekret&format=clash HTTP/1.1\r\n\r\n", "sekret") {
        ShareRoute::Serve { format } => assert_eq!(format.as_deref(), Some("clash")),
        _ => panic!("the token is right"),
    }
    match route("GET /sub?format=a%20b&token=sek%72et&format=c+d HTTP/1.1\r\n\r\n", "sekret") {
        ShareRoute::Serve { format } => assert_eq!(format.as_deref(), Some("c d")),
        _ => panic!("the token is right"),
    }
}

#[test]
fn state_updates_are_visible_to_later_requests() {
    let mut state = new_shared_state(vec![], SubscriptionFormat::Clash);
    assert_eq!(state.nodes.len(), 0);
    assert_eq!(served_format(&state, None), SubscriptionFormat::Clash);
    state.format = SubscriptionFormat::V2ray;
    assert_eq!(served_format(&state, None), SubscriptionFormat::V2ray);
    assert_eq!(
        served_format(&state, Some(SubscriptionFormat::Clash)),
        SubscriptionFormat::Clash
    );
}

#[test]
fn heads_are_read_up_to_their_limit() {
    let mut buf = Vec::new();
    assert!(matches!(on_head_data(&mut buf, b"GET / HTTP/1.1\r\n"), HeadStep::More));
    match on_head_data(&mut buf, b"\r\n") {
        HeadStep::Done(head) => assert_eq!(head, "GET / HTTP/1.1\r\n\r\n"),
        _ => panic!("the head is complete"),
    }
    let mut buf = Vec::new();
    assert!(matches!(on_head_data(&mut buf, &[b'a'; 16385]), HeadStep::TooLarge));
    assert_eq!(on_head_eof(b"GET"), "GET");
    assert!(starts(&timeout_response(), "HTTP/1.1 408 Request Timeout\r\n"));
    assert_eq!(
        respond(200, "OK", "t", "\u{e9}"),
        b"HTTP/1.1 200 OK\r\nContent-Type: t\r\nContent-Length: 2\r\nCache-Control: no-store, no-cache, must-revalidate\r\nPragma: no-cache\r\nConnection: close\r\n\r\n\xc3\xa9"
    );
}

#[test]
fn loopback_is_no_address_for_others() {
    assert_eq!(lan_ip(parse_ip("127.0.0.1").unwrap()), None);
    assert_eq!(lan_ip(parse_ip("::1").unwrap()), None);
    let ip: IpAddr = parse_ip("192.168.1.2").unwrap();
    assert_eq!(lan_ip(ip), Some(ip));
}

// -- The system's proxy ------------------------------------------------------

#[test]
fn parses_plain_ip_host_port() {
    assert_eq!(
        parse_proxy_server("127.0.0.1:7890"),
        Some(("127.0.0.1".to_string(), 7890))
    );
}

#[test]
fn parses_hostname_host_port() {
    assert_eq!(
        parse_proxy_server("localhost:8080"),
        Some(("localhost".to_string(), 8080))
    );
}

#[test]
fn parses_bracketed_ipv6() {
    assert_eq!(
        parse_proxy_server("[::1]:8080"),
        Some(("::1".to_string(), 8080))
    );
}

#[test]
fn parses_per_protocol_and_prefers_https() {
    assert_eq!(
        parse_proxy_server("http=127.0.0.1:8888;https=127.0.0.1:8889;socks=127.0.0.1:1080"),
        Some(("127.0.0.1".to_string(), 8889))
    );
    assert_eq!(
        parse_proxy_server("socks=a:1;HTTP = b:2"),
        Some(("b".to_string(), 2))
    );
    assert_eq!(parse_proxy_server("socks=a:1"), Some(("a".to_string(), 1)));
}

#[test]
fn brackets_ipv6_host_only() {
    assert_eq!(bracket_ipv6_host("::1"), "[::1]");
    assert_eq!(bracket_ipv6_host("2001:db8::1"), "[2001:db8::1]");
    assert_eq!(bracket_ipv6_host("127.0.0.1"), "127.0.0.1");
    assert_eq!(bracket_ipv6_host("localhost"), "localhost");
}

#[test]
fn rejects_empty_and_garbage() {
    assert_eq!(parse_proxy_server(""), None);
    assert_eq!(parse_proxy_server(":0"), None);
    assert_eq!(parse_proxy_server("no-port"), None);
    assert_eq!(parse_proxy_server("host:abc"), None);
}

#[test]
fn default_bypass_has_local_targets() {
    assert!(DEFAULT_BYPASS.contains("localhost"));
    assert!(DEFAULT_BYPASS.contains("127.0.0.1"));
    assert!(DEFAULT_BYPASS.contains("::1"));
    assert!(platform_bypass(Platform::Windows).contains("<local>"));
}

#[test]
fn sysproxy_conversion_preserves_fields() {
    let raw = sysproxy::Sysproxy {
        enable: true,
        host: "127.0.0.1".into(),
        port: 1080,
        bypass: "localhost".into(),
    };

    let proxy = SystemProxyConfig::from_parts(raw.enable, raw.host, raw.port, raw.bypass);
    assert!(proxy.enabled);
    assert_eq!(proxy.host, "127.0.0.1");
    assert_eq!(proxy.port, 1080);
    assert_eq!(proxy.bypass, "localhost");
}

#[test]
fn proxy_is_set_where_clients_can_reach_it() {
    let set = |platform, host| proxy_setting(platform, true, host, 7890, "x");
    assert_eq!(set(Platform::Linux, " 0.0.0.0 ").ok().unwrap().host, "127.0.0.1");
    assert_eq!(set(Platform::Linux, "::").ok().unwrap().host, "127.0.0.1");
    assert_eq!(set(Platform::Windows, "fd00::1").ok().unwrap().host, "[fd00::1]");
    assert_eq!(set(Platform::Linux, "fd00::1").ok().unwrap().host, "fd00::1");
    assert!(matches!(set(Platform::Linux, "  "), Err(WriteError::EmptyHost)));
    let unsupported = proxy_setting(Platform::Linux, false, "h", 1, "x").err().unwrap();
    assert_eq!(
        unsupported.message(),
        "system proxy is not supported on this platform"
    );
    assert!(!cleared_setting(true).ok().unwrap().enabled);
    assert!(cleared_setting(false).is_err());
    assert_eq!(clear_system_proxy().is_ok(), system_proxy_supported());
    if let Ok(config) = set_system_proxy(Platform::Linux, "127.0.0.1", 7890) {
        assert_eq!(config.bypass, DEFAULT_BYPASS);
    }
}

#[test]
fn written_servers_are_read_back() {
    for (host, read) in [
        (" 192.168.1.2 ", "192.168.1.2"),
        ("proxy.example", "proxy.example"),
        ("2001:db8::1", "2001:db8::1"),
        ("::", "127.0.0.1"),
    ] {
        let config = proxy_setting(Platform::Windows, true, host, 7890, "").unwrap();
        let stored = format!("{}:{}", config.host, config.port);
        assert_eq!(parse_proxy_server(&stored), Some((read.to_string(), 7890)));
    }
    assert_eq!(ensure_supported().is_ok(), system_proxy_supported());
}

#[test]
fn failures_to_write_ask_for_rights() {
    let config = SystemProxyConfig::from_parts(true, "h".to_string(), 1, String::new());
    assert_eq!(
        write_failed_message(&config, "broken"),
        "failed to set system proxy (h:1) \u{2014} broken"
    );
    assert_eq!(
        write_failed_message(&config, "access denied"),
        "failed to set system proxy (h:1) \u{2014} access denied\nTry running as Administrator."
    );
}

#[test]
fn unreadable_settings_are_tolerated() {
    assert!(matches!(
        get_system_proxy(Platform::Windows, Err(ReadFailure::Unparsable)),
        ReadOutcome::ReadRaw
    ));
    assert!(matches!(
        get_system_proxy(Platform::Linux, Err(ReadFailure::Unparsable)),
        ReadOutcome::Config(c) if !c.enabled
    ));
    assert!(matches!(
        get_system_proxy(Platform::Windows, Err(ReadFailure::Missing)),
        ReadOutcome::Config(c) if !c.enabled
    ));
    assert!(matches!(
        get_system_proxy(Platform::Windows, Err(ReadFailure::Other("x".to_string()))),
        ReadOutcome::Error(e) if e == "failed to read system proxy: x"
    ));
    let config = tolerant_config(1, "http=h:80", "b".to_string());
    assert_eq!((config.enabled, config.host.as_str(), config.port), (true, "h", 80));
    let config = tolerant_config(0, "", "b".to_string());
    assert_eq!((config.enabled, config.host.as_str(), config.port), (false, "", 0));
}

#[test]
fn system_without_settings_is_an_error() {
    assert!(supported_or_error(true).is_ok());
    assert!(matches!(supported_or_error(false), Err(WriteError::Unsupported)));
    assert_eq!(ensure_supported().is_ok(), system_proxy_supported());
}
