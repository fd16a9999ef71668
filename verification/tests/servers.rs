//! The servers on this side, and what stands between them and the outbounds.

use std::sync::Arc;

use sockrocket_core::config::{Node, ProxyProtocol};
use sockrocket_core::net::{parse_ip, IpAddr, SocketAddr};
use sockrocket_core::proxy::connector::{
    upstream_timeout_message, DirectOutbound, OutboundKind, RetryOutbound, RetryStep,
    SharedOutbound, SwappableOutbound,
};
use sockrocket_core::proxy::health::{
    find_best_node, probe_interval, FailureTracker, Failover, HealthCheckConfig, HealthEvent,
    HealthRun,
};
use sockrocket_core::proxy::http::{
    find_header_end, parse_host_port, parse_request_line, plan_forward, plan_request,
    rewrite_head, starts_with_ignore_ascii_case, HeaderReader, HeaderStep, HttpError, HttpPlan,
    UrlParts, MAX_HEADER_SIZE, REPLY_BAD_GATEWAY, REPLY_ESTABLISHED,
};
use sockrocket_core::proxy::pool::{
    ConnPool, Filling, RoundStep, DEFAULT_CAPACITY, DEFAULT_MAX_AGE_NANOS, FILL_CONCURRENCY,
};
use sockrocket_core::proxy::quic_conn::{
    budget_message, prefer_socket_addrs, Flight, SingleFlight,
};
use sockrocket_core::proxy::race::{Race, RaceStep};
use sockrocket_core::proxy::relay::{BufferPool, FlowStep, Relay, RELAY_BUF_SIZE};
use sockrocket_core::proxy::service::{ProxyService, ALREADY_RUNNING};
use sockrocket_core::proxy::socks5::{
    connect_reply, greeting_step, read_socks5_addr, request_step, socks5_reply, AddressStep,
    Greeting, Request, Socks5Error,
};
use sockrocket_core::proxy::stats::{closed_after, ProxyState, ProxyStats};

// -- Connector ---------------------------------------------------------------

#[test]
fn test_direct_outbound() {
    let outbound = OutboundKind::Direct(DirectOutbound);
    assert_eq!(outbound.name(), "direct");
    assert_eq!(SharedOutbound::direct().0.name(), "direct");
}

#[test]
fn test_swappable_outbound_switches_target() {
    let first = SharedOutbound::direct();
    let second = SharedOutbound::direct();
    let mut swappable = SwappableOutbound::new(first.share());
    assert!(Arc::ptr_eq(&swappable.current().0, &first.0));
    swappable.set(second.share());
    assert!(Arc::ptr_eq(&swappable.current().0, &second.0));
    assert!(!Arc::ptr_eq(&swappable.current().0, &first.0));
}

#[test]
fn test_retry_outbound_zero_attempts_does_not_panic() {
    let retry = RetryOutbound {
        inner: Arc::new(OutboundKind::Direct(DirectOutbound)),
        max_attempts: 0,
        base_delay_ms: 1,
        max_delay_ms: 1,
    };
    let mut attempts = retry.attempts();
    assert!(matches!(retry.on_failure(&mut attempts), RetryStep::GiveUp));
}

#[test]
fn pauses_grow_up_to_their_limit() {
    let retry = RetryOutbound {
        inner: Arc::new(OutboundKind::Direct(DirectOutbound)),
        max_attempts: 5,
        base_delay_ms: 100,
        max_delay_ms: 300,
    };
    let mut attempts = retry.attempts();
    let mut pauses = vec![];
    while let RetryStep::Pause(ms) = retry.on_failure(&mut attempts) {
        pauses.push(ms);
    }
    assert_eq!(pauses, vec![100, 200, 300, 300]);
}

#[test]
fn retry_keeps_the_name() {
    let shared = SharedOutbound::direct().with_retry(3);
    assert_eq!(shared.0.name(), "direct");
    assert!(upstream_timeout_message("h", 1).contains("h:1"));
}

// -- Health ------------------------------------------------------------------

#[test]
fn failure_tracker_triggers_at_threshold() {
    let mut tracker = FailureTracker::new(2);
    assert!(!tracker.record_failure());
    assert!(tracker.record_failure());
    tracker.reset();
    assert!(!tracker.record_failure());
    tracker.record_success();
    assert!(!tracker.record_failure());
}

#[test]
fn failure_tracker_threshold_is_at_least_one() {
    let mut tracker = FailureTracker::new(0);
    assert!(tracker.record_failure());
}

#[test]
fn find_best_node_returns_none_when_all_unreachable() {
    assert_eq!(find_best_node(&[None, None]), None);
}

#[test]
fn fastest_node_is_the_best() {
    assert_eq!(
        find_best_node(&[Some((0, 90)), None, Some((2, 30)), Some((3, 30))]),
        Some((2, 30))
    );
}

fn health(threshold: u32, auto_switch: bool) -> HealthRun {
    HealthRun::new(HealthCheckConfig {
        enabled: true,
        interval_secs: 30,
        failure_threshold: threshold,
        auto_switch,
    })
}

#[test]
fn repeated_failures_lead_to_another_node() {
    let mut run = health(2, true);
    let outcome = run.on_probe(Err("refused".to_string()));
    assert!(!outcome.failover);
    match outcome.event {
        HealthEvent::ProbeFailed { consecutive_failures, error } => {
            assert_eq!(consecutive_failures, 1);
            assert_eq!(error, "refused");
        }
        _ => panic!("the probe failed"),
    }
    assert!(run.on_probe(Err("refused".to_string())).failover);

    match run.on_search(Some((1, 42))) {
        Failover::Build { index, latency_ms } => assert_eq!((index, latency_ms), (1, 42)),
        Failover::Nothing(_) => panic!("there is a node"),
    }
    assert!(matches!(
        run.on_search(None),
        Failover::Nothing(HealthEvent::SwitchFailed { .. })
    ));
    let node = Node {
        name: "b".to_string(),
        server: "127.0.0.1".to_string(),
        port: 1,
        protocol: ProxyProtocol::Trojan {
            password: "x".to_string(),
            udp: false,
        },
        transport: None,
        latency_ms: None,
        tags: vec![],
        extra: vec![],
    };
    match run.on_built(&node, 1, 42, true) {
        HealthEvent::AutoSwitched { node_index, node_name, latency_ms } => {
            assert_eq!((node_index, node_name.as_str(), latency_ms), (1, "b", 42));
        }
        _ => panic!("the node was switched"),
    }
    assert!(matches!(
        run.on_built(&node, 1, 42, false),
        HealthEvent::SwitchFailed { .. }
    ));
}

#[test]
fn threshold_is_reached_by_failures_in_a_row() {
    let mut run = health(3, true);
    for _ in 0..2 {
        assert!(!run.on_probe(Err("x".to_string())).failover);
        assert!(!run.on_probe(Err("x".to_string())).failover);
        assert_eq!(run.tracker.consecutive, 2);
        assert!(!run.on_probe(Ok(1)).failover);
        assert_eq!(run.tracker.consecutive, 0);
    }
    for _ in 0..2 {
        assert!(!run.on_probe(Err("x".to_string())).failover);
        assert!(!run.on_probe(Err("x".to_string())).failover);
        assert!(run.on_probe(Err("x".to_string())).failover);
        assert_eq!(run.tracker.consecutive, 0);
    }
}

#[test]
fn answered_probe_is_no_failure() {
    let mut run = health(1, true);
    let outcome = run.on_probe(Ok(12));
    assert!(!outcome.failover);
    assert!(matches!(outcome.event, HealthEvent::ProbeOk { latency_ms: 12 }));
    let mut run = health(1, false);
    assert!(!run.on_probe(Err("x".to_string())).failover);
}

#[test]
fn probes_are_not_too_frequent() {
    let mut config = HealthCheckConfig {
        enabled: true,
        interval_secs: 0,
        failure_threshold: 1,
        auto_switch: false,
    };
    assert_eq!(probe_interval(&config), 5);
    config.interval_secs = 60;
    assert_eq!(probe_interval(&config), 60);
}

// -- HTTP --------------------------------------------------------------------

#[test]
fn test_parse_host_port() {
    let (h, p) = parse_host_port("example.com:443", 443).ok().unwrap();
    assert_eq!(h, "example.com");
    assert_eq!(p, 443);

    let (h, p) = parse_host_port("example.com", 80).ok().unwrap();
    assert_eq!(h, "example.com");
    assert_eq!(p, 80);

    let (h, p) = parse_host_port("[::1]:8080", 443).ok().unwrap();
    assert_eq!(h, "::1");
    assert_eq!(p, 8080);

}

#[test]
fn ports_that_are_no_numbers() {
    let (h, p) = parse_host_port("example.com:http", 443).ok().unwrap();
    assert_eq!((h.as_str(), p), ("example.com:http", 443));
    let (h, p) = parse_host_port("[::1]", 443).ok().unwrap();
    assert_eq!((h.as_str(), p), ("::1", 443));
    assert!(matches!(
        parse_host_port("[::1]:http", 443),
        Err(HttpError::InvalidPort)
    ));
}

#[test]
fn test_parse_request_line() {
    let line = b"CONNECT example.com:443 HTTP/1.1\r\nHost: example.com\r\n\r\n";
    let (m, t, v) = parse_request_line(line).ok().unwrap();
    assert_eq!(m, "CONNECT");
    assert_eq!(t, "example.com:443");
    assert_eq!(v, "HTTP/1.1");

    assert!(matches!(
        parse_request_line(b"NONSENSE\r\n\r\n"),
        Err(HttpError::InvalidRequestLine(_))
    ));
    assert!(matches!(
        parse_request_line(&[0xff, 0xfe, 0x20]),
        Err(HttpError::NotText)
    ));
}

#[test]
fn test_find_header_end() {
    assert_eq!(find_header_end(b"GET / HTTP/1.1\r\n\r\n"), Some(14));
    assert_eq!(find_header_end(b"GET / HTTP/1.1\r\n"), None);
}

#[test]
fn test_starts_with_ignore_ascii_case() {
    assert!(starts_with_ignore_ascii_case(
        "Proxy-Connection: keep-alive",
        "proxy-connection:"
    ));
    assert!(starts_with_ignore_ascii_case("CONNECTION: close", "connection:"));
    assert!(!starts_with_ignore_ascii_case("connect", "connection:"));
    assert!(!starts_with_ignore_ascii_case(
        "X-Connection: close",
        "proxy-connection:"
    ));
}

#[test]
fn test_read_http_header_split_across_reads() {
    let request: &[u8] = b"GET http://example.com/ HTTP/1.1\r\nHost: example.com\r\n\r\nBODY";
    let mut reader = HeaderReader::new();
    let mut at = 0;
    loop {
        let end = (at + 7).min(request.len());
        match reader.on_data(&request[at..end]) {
            HeaderStep::More => at = end,
            HeaderStep::Done { header, remaining } => {
                assert_eq!(
                    header,
                    b"GET http://example.com/ HTTP/1.1\r\nHost: example.com\r\n\r\n"
                );
                let mut all = remaining;
                all.extend_from_slice(&request[end..]);
                assert_eq!(all, b"BODY");
                break;
            }
            HeaderStep::TooLarge => panic!("the header is short"),
        }
    }
}

#[test]
fn endless_header_is_refused() {
    let mut reader = HeaderReader::new();
    let chunk = vec![b'a'; MAX_HEADER_SIZE + 1];
    assert!(matches!(reader.on_data(&chunk), HeaderStep::TooLarge));
}

#[test]
fn test_http_connect_tunnel() {
    let request = b"CONNECT 127.0.0.1:8080 HTTP/1.1\r\nHost: 127.0.0.1:8080\r\n\r\n";
    match plan_request(request) {
        HttpPlan::Tunnel { host, port } => {
            assert_eq!(host, "127.0.0.1");
            assert_eq!(port, 8080);
        }
        _ => panic!("a tunnel is asked for"),
    }
    assert!(REPLY_ESTABLISHED.contains("200"));
    assert!(REPLY_BAD_GATEWAY.contains("502"));
}

#[test]
fn plain_requests_are_rewritten() {
    let request = b"GET http://example.com:8080/a?b=c HTTP/1.1\r\nHost: example.com\r\nProxy-Connection: keep-alive\r\nAccept: */*\r\n\r\n";
    match plan_request(request) {
        HttpPlan::Forward { host, port, head } => {
            assert_eq!(host, "example.com");
            assert_eq!(port, 8080);
            let head = head.unwrap();
            assert!(head.starts_with("GET /a?b=c HTTP/1.1\r\n"), "got: {}", head);
            assert!(!head.contains("Proxy-Connection"));
            assert!(head.contains("Accept: */*\r\n"));
            assert!(head.ends_with("\r\n\r\n"));
        }
        _ => panic!("the request is forwarded"),
    }
}

#[test]
fn broken_requests_are_refused() {
    assert!(matches!(
        plan_request(b"GET /relative HTTP/1.1\r\n\r\n"),
        HttpPlan::BadRequest(HttpError::NotAbsolute(_))
    ));
    assert!(matches!(
        plan_request(b"GET http://[::1 HTTP/1.1\r\n\r\n"),
        HttpPlan::Drop(HttpError::InvalidUrl(_))
    ));
    let no_host = UrlParts {
        host: None,
        port: None,
        path: "/".to_string(),
        query: None,
    };
    assert!(matches!(
        plan_forward(no_host, "GET", b"GET http:/// HTTP/1.1\r\n\r\n"),
        HttpPlan::Drop(HttpError::NoHost)
    ));
}

#[test]
fn proxy_lines_are_dropped() {
    let head = rewrite_head(
        "GET",
        "/",
        "GET http://a/ HTTP/1.1\r\nHost: a\r\nProxy-Connection: keep-alive\r\n\r\n",
    );
    assert_eq!(head, "GET / HTTP/1.1\r\nHost: a\r\nConnection: close\r\n\r\n");
    let head = rewrite_head("GET", "/", "GET http://a/ HTTP/1.1\r\nCONNECTION: upgrade\r\n\r\n");
    assert_eq!(head, "GET / HTTP/1.1\r\nCONNECTION: upgrade\r\n\r\n");
}

// -- SOCKS5 ------------------------------------------------------------------

#[test]
fn test_socks5_connect_ipv4() {
    assert!(matches!(
        greeting_step(&[0x05, 0x01, 0x00]),
        Greeting::Accept([0x05, 0x00])
    ));
    let mut req = vec![0x05, 0x01, 0x00, 0x01, 127, 0, 0, 1];
    req.extend_from_slice(&8080u16.to_be_bytes());
    match request_step(&req) {
        Request::Connect { host, port } => {
            assert_eq!(host, "127.0.0.1");
            assert_eq!(port, 8080);
        }
        _ => panic!("the request is sound"),
    }
    let resp = connect_reply(true);
    assert_eq!(resp[0], 0x05);
    assert_eq!(resp[1], 0x00);
    assert_ne!(connect_reply(false)[1], 0x00);
}

#[test]
fn test_socks5_connect_domain() {
    let domain = b"localhost";
    let mut req = vec![0x05, 0x01, 0x00, 0x03, domain.len() as u8];
    req.extend_from_slice(domain);
    req.extend_from_slice(&443u16.to_be_bytes());
    for n in 0..req.len() {
        assert!(matches!(request_step(&req[..n]), Request::Read(_)));
    }
    match request_step(&req) {
        Request::Connect { host, port } => {
            assert_eq!(host, "localhost");
            assert_eq!(port, 443);
        }
        _ => panic!("the request is sound"),
    }
}

#[test]
fn test_read_socks5_addr_ipv6() {
    let mut req = vec![0x04u8];
    req.extend_from_slice(&1u128.to_be_bytes());
    req.extend_from_slice(&8080u16.to_be_bytes());
    match read_socks5_addr(&req) {
        AddressStep::Done { host, port } => {
            assert_eq!(host, "::1");
            assert_eq!(port, 8080);
        }
        _ => panic!("the address is sound"),
    }
}

#[test]
fn test_socks5_connect_ipv6() {
    let mut req = vec![0x05, 0x01, 0x00, 0x04];
    req.extend_from_slice(&1u128.to_be_bytes());
    req.extend_from_slice(&443u16.to_be_bytes());
    match request_step(&req) {
        Request::Connect { host, port } => {
            assert_eq!(host, "::1");
            assert_eq!(port, 443);
        }
        _ => panic!("the request is sound"),
    }
}

#[test]
fn socks5_refuses_what_it_does_not_speak() {
    assert!(matches!(
        greeting_step(&[0x04, 0x01, 0x00]),
        Greeting::Refuse { error: Socks5Error::BadVersion(4), .. }
    ));
    assert!(matches!(
        greeting_step(&[0x05, 0x01, 0x02]),
        Greeting::Refuse { error: Socks5Error::NoAcceptableMethod, .. }
    ));
    assert!(matches!(
        request_step(&[0x04, 0x01, 0x00, 0x01, 1, 2, 3, 4, 0, 80]),
        Request::Refuse { error: Socks5Error::BadRequestVersion(4), .. }
    ));
    assert!(matches!(
        request_step(&[0x05, 0x02, 0x00, 0x01, 1, 2, 3, 4, 0, 80]),
        Request::Refuse { error: Socks5Error::Bind, .. }
    ));
    assert!(matches!(
        request_step(&[0x05, 0x03, 0x00, 0x01, 1, 2, 3, 4, 0, 80]),
        Request::Refuse { error: Socks5Error::UdpAssociate, .. }
    ));
    assert!(matches!(
        request_step(&[0x05, 0x09, 0x00, 0x01, 1, 2, 3, 4, 0, 80]),
        Request::Refuse { error: Socks5Error::UnknownCommand(9), .. }
    ));
    assert!(matches!(
        read_socks5_addr(&[0x07]),
        AddressStep::Bad(Socks5Error::BadAddressType(7))
    ));
    assert!(matches!(
        read_socks5_addr(&[0x03, 1, 0xff, 0, 80]),
        AddressStep::Bad(Socks5Error::BadName)
    ));
    assert_eq!(socks5_reply(7), [5, 7, 0, 1, 0, 0, 0, 0, 0, 0]);
}

// -- Statistics --------------------------------------------------------------

#[test]
fn connection_ids_unique_and_close_targets_right_record() {
    let mut stats = ProxyStats::default();
    let mut ids = Vec::new();
    for i in 0..64u64 {
        stats.add_connection();
        if i % 2 == 1 {
            ids.push(stats.record_connection(format!("host-{}:443", i - 1), "SOCKS5"));
            ids.push(stats.record_connection(format!("host-{}:443", i), "SOCKS5"));
        }
    }

    let mut sorted = ids.clone();
    sorted.sort_unstable();
    assert_eq!(sorted, (0..64).collect::<Vec<u64>>());
    assert_eq!(stats.total_connections(), 64);
    assert_eq!(stats.active_connections(), 64);

    for id in ids {
        stats.close_connection(id, id, id * 10);
    }
    let recent = stats.recent_connections(usize::MAX, |_| true);
    assert_eq!(recent.len(), 64);
    for (idx, rec) in recent.iter().enumerate() {
        let expected_id = 63 - idx as u64;
        assert!(!rec.active);
        assert_eq!(rec.bytes_up, expected_id);
        assert_eq!(rec.bytes_down, expected_id * 10);
    }
}

#[test]
fn close_connection_accumulates_totals() {
    let mut stats = ProxyStats::default();
    let a = stats.record_connection("a:443".to_string(), "HTTP");
    let b = stats.record_connection("b:443".to_string(), "SOCKS5");
    stats.close_connection(a, 100, 1000);
    stats.close_connection(b, 200, 2000);
    assert_eq!(stats.bytes_sent(), 300);
    assert_eq!(stats.bytes_received(), 3000);
    stats.add_bytes(1, 2);
    assert_eq!(stats.bytes_sent(), 301);
    assert_eq!(stats.bytes_received(), 3002);
}

#[test]
fn only_the_latest_connections_are_kept() {
    let mut stats = ProxyStats::default();
    for i in 0..200u64 {
        let id = stats.record_connection_at(format!("h{}", i), "HTTP", i);
        assert_eq!(id, i);
    }
    let recent = stats.recent_connections(usize::MAX, |_| true);
    assert_eq!(recent.len(), 120);
    assert_eq!(recent[0].dest, "h199");
    assert_eq!(recent[119].dest, "h80");
    stats.close_connection(3, 1, 1);
    assert!(stats.recent_connections(5, |r| r.active).len() == 5);
    stats.reset();
    assert_eq!(stats.total_connections(), 0);
}

// -- Pool --------------------------------------------------------------------

/// One filling of a pool by a maker of connections that never fails.
fn fill(pool: &mut ConnPool<u32>, now: u64) -> usize {
    let mut largest = 0;
    loop {
        let batch = pool.next_batch();
        if batch == 0 {
            break;
        }
        largest = largest.max(batch);
        for i in 0..batch {
            assert!(pool.offer(i as u32, now).is_none());
        }
    }
    pool.finish_fill();
    largest
}

#[test]
fn pool_warms_up_eagerly_to_default_capacity() {
    let (mut pool, warming) = ConnPool::<u32>::new(true);
    assert!(warming);
    fill(&mut pool, 0);
    assert_eq!(pool.conns.len(), 16);
    assert_eq!(DEFAULT_CAPACITY, 16);
    assert_eq!(DEFAULT_MAX_AGE_NANOS, 120_000_000_000);
    assert_eq!(pool.offer(9, 0), Some(9));
}

#[test]
fn pool_fill_respects_concurrency_cap() {
    let (mut pool, _) = ConnPool::<u32>::with_capacity(8, true);
    let largest = fill(&mut pool, 0);
    assert_eq!(pool.conns.len(), 8);
    assert!(largest <= FILL_CONCURRENCY);
}

#[test]
fn pool_get_returns_warm_connection_and_refills() {
    let (mut pool, _) = ConnPool::<u32>::with_capacity(4, true);
    fill(&mut pool, 0);
    assert_eq!(pool.conns.len(), 4);
    let taken = pool.get(1);
    assert!(taken.stream.is_some());
    assert!(taken.fill, "a refill is due");
    fill(&mut pool, 1);
    assert_eq!(pool.conns.len(), 4);
}

#[test]
fn lazy_pool_never_warms_in_background() {
    let mut pool = ConnPool::<u32>::lazy();
    let taken = pool.get(0);
    assert!(taken.stream.is_none());
    assert!(!taken.fill);
    assert_eq!(pool.conns.len(), 0);
}

#[test]
fn pool_fill_gives_up_after_three_failed_rounds() {
    let (pool, _) = ConnPool::<u32>::with_capacity(4, true);
    let mut filling = Filling::new();
    let mut attempts = 0;
    loop {
        let batch = pool.next_batch();
        attempts += batch;
        match filling.on_round(batch, batch) {
            RoundStep::GiveUp => break,
            RoundStep::Pause => {}
            RoundStep::Next => panic!("all of it failed"),
        }
    }
    assert_eq!(attempts, 12);
    assert_eq!(pool.conns.len(), 0);
}

#[test]
fn old_connections_are_not_used() {
    let (mut pool, _) = ConnPool::<u32>::with_capacity(2, true);
    assert!(pool.offer(1, 0).is_none());
    assert!(pool.offer(2, 100_000_000_000).is_none());
    let taken = pool.get(130_000_000_000);
    assert_eq!(taken.stream, Some(2));
}

// -- QUIC --------------------------------------------------------------------

fn addr(s: &str) -> SocketAddr {
    SocketAddr {
        ip: parse_ip(s).unwrap(),
        port: 443,
    }
}

#[test]
fn test_prefer_socket_addrs_prefers_ipv4_and_dedups() {
    let ordered = prefer_socket_addrs(vec![
        addr("2001:db8::1"),
        addr("198.51.100.10"),
        addr("198.51.100.10"),
        addr("2001:db8::2"),
    ]);

    assert_eq!(ordered.len(), 3);
    assert!(matches!(ordered[0].ip, IpAddr::V4(_)));
    assert!(matches!(ordered[1].ip, IpAddr::V6(_)));
    assert!(matches!(ordered[2].ip, IpAddr::V6(_)));
}

#[test]
fn test_singleflight_concurrent_connects_run_once() {
    let mut cache = SingleFlight::<u32>::new();
    let mut calls = 0;
    for _ in 0..8 {
        match cache.look(true) {
            Flight::Ready => {}
            Flight::Connect => {
                calls += 1;
                assert_eq!(cache.offer(calls, true), None);
            }
        }
        assert_eq!(cache.value, Some(1));
    }
    assert_eq!(calls, 1);
    // One that came too late is handed back.
    assert_eq!(cache.offer(9, true), Some(9));
    assert_eq!(cache.value, Some(1));
}

#[test]
fn test_singleflight_reconnects_after_death() {
    let mut cache = SingleFlight::<usize>::new();
    assert!(matches!(cache.look(false), Flight::Connect));
    cache.offer(1, false);
    assert_eq!(cache.value, Some(1));
    assert!(matches!(cache.look(false), Flight::Connect));
    assert_eq!(cache.offer(2, false), None);
    assert_eq!(cache.value, Some(2));
    assert!(budget_message().contains("30"));
}

// -- Races -------------------------------------------------------------------

#[test]
fn attempts_start_one_after_another() {
    let mut race = Race::new(2, false);
    assert!(matches!(race.step(), RaceStep::Start(0)));
    race.on_started();
    assert!(matches!(race.step(), RaceStep::Pause));
    race.on_pause_over();
    assert!(matches!(race.step(), RaceStep::Start(1)));
    race.on_started();
    race.on_failed(0);
    race.on_failed(1);
    assert!(matches!(race.step(), RaceStep::Lost(Some(_))));
    assert!(matches!(Race::new(0, true).step(), RaceStep::Lost(None)));
}

#[test]
fn failure_does_not_wait_for_the_pause() {
    let mut race = Race::new(2, false);
    race.on_started();
    race.on_failed(0);
    assert!(matches!(race.step(), RaceStep::Start(1)));
}

// -- Relay -------------------------------------------------------------------

#[test]
fn test_relay_bidirectional() {
    let mut relay = Relay::new();
    assert!(matches!(relay.a_to_b.step(), FlowStep::Read(65536)));
    assert!(!relay.a_to_b.on_read(b"hello relay"));
    let mut out = Vec::new();
    while matches!(relay.a_to_b.step(), FlowStep::Write) {
        let n = relay.a_to_b.pending().len().min(4);
        out.extend_from_slice(&relay.a_to_b.pending()[..n]);
        relay.a_to_b.on_wrote(n).ok().unwrap();
    }
    assert_eq!(out, b"hello relay");
    assert_eq!(relay.poll(), None);
    assert!(relay.a_to_b.on_read(&[]));
    assert!(relay.b_to_a.on_read(&[]));
    assert_eq!(relay.poll(), Some((11, 0)));
}

#[test]
fn nothing_written_ends_the_relay() {
    let mut relay = Relay::new();
    relay.a_to_b.on_read(b"x");
    assert!(relay.a_to_b.on_wrote(0).is_err());
}

#[test]
fn test_buf_size() {
    assert_eq!(RELAY_BUF_SIZE, 65536);
}

#[test]
fn buffers_are_used_again() {
    let mut pool = BufferPool::<u32>::new();
    assert_eq!(pool.take(), None);
    for i in 0..40 {
        pool.give(i);
    }
    assert_eq!(pool.free.len(), 32);
    assert!(pool.take().is_some());
}

// -- Service -----------------------------------------------------------------

#[test]
fn test_proxy_service_lifecycle() {
    let mut service = ProxyService::new();
    assert!(matches!(service.state(), ProxyState::Disconnected));
    assert!(!service.is_running());

    assert!(service.start().is_ok());
    assert!(matches!(service.state(), ProxyState::Connecting));
    service.started();
    assert!(service.is_running());
    assert!(matches!(service.state(), ProxyState::Connected));
    assert!(service.start().is_err());
    assert_eq!(ALREADY_RUNNING, "Proxy service is already running");

    service.stop();
    assert!(!service.is_running());
    assert!(matches!(service.state(), ProxyState::Disconnected));
}

#[test]
fn test_proxy_service_full_flow() {
    let mut service = ProxyService::with_outbound(SharedOutbound::direct());
    service.start().ok().unwrap();
    service.started();
    assert_eq!(service.outbound.0.name(), "direct");

    // SOCKS5
    assert!(matches!(
        greeting_step(&[0x05, 0x01, 0x00]),
        Greeting::Accept([0x05, 0x00])
    ));
    let mut req = vec![0x05, 0x01, 0x00, 0x01, 127, 0, 0, 1];
    req.extend_from_slice(&19999u16.to_be_bytes());
    assert!(matches!(request_step(&req), Request::Connect { port: 19999, .. }));
    assert_eq!(connect_reply(true)[1], 0x00);

    // HTTP
    let connect = b"CONNECT 127.0.0.1:19999 HTTP/1.1\r\nHost: 127.0.0.1\r\n\r\n";
    assert!(matches!(plan_request(connect), HttpPlan::Tunnel { port: 19999, .. }));
    assert!(REPLY_ESTABLISHED.contains("200"));

    let id = service.stats.record_connection("127.0.0.1:19999".to_string(), "SOCKS5");
    service.stats.close_connection(id, 12, 12);
    assert_eq!(service.stats().bytes_sent(), 12);

    service.set_outbound(SharedOutbound::direct().with_retry(2));
    assert_eq!(service.outbound.0.name(), "direct");
    service.stop();
}

#[test]
fn health_checks_follow_their_switch() {
    let mut config = HealthCheckConfig {
        enabled: true,
        interval_secs: 30,
        failure_threshold: 2,
        auto_switch: true,
    };
    let mut service = ProxyService::new();
    service.start().ok().unwrap();
    service.started();
    assert!(service.enable_health_check(&config));
    config.enabled = false;
    assert!(!service.restart_health_check(&config));
}

#[test]
fn failed_connect_leaves_the_value_as_it_was() {
    let mut cache = SingleFlight::<u32>::new();
    assert!(matches!(cache.look(true), Flight::Connect));
    assert_eq!(cache.finish(Err::<u32, &str>("refused"), true), Err("refused"));
    assert_eq!(cache.value, None);
    // The next caller tries anew, and the one after it takes what was made.
    assert!(matches!(cache.look(true), Flight::Connect));
    assert_eq!(cache.finish(Ok::<u32, &str>(7), true), Ok(()));
    assert!(matches!(cache.look(true), Flight::Ready));
    assert_eq!(cache.finish(Err::<u32, &str>("late"), true), Err("late"));
    assert_eq!(cache.value, Some(7));
    // A live value stays, whoever comes late.
    assert_eq!(cache.finish(Ok::<u32, &str>(8), true), Ok(()));
    assert_eq!(cache.value, Some(7));
}

#[test]
fn outbound_taken_earlier_is_kept() {
    let first = SharedOutbound::direct();
    let second = SharedOutbound::direct();
    let mut swappable = SwappableOutbound::new(first.share());
    let taken = swappable.current();
    swappable.set(second.share());
    assert!(Arc::ptr_eq(&taken.0, &first.0));
    assert!(Arc::ptr_eq(&swappable.current().0, &second.0));
}

#[test]
fn failed_connection_is_closed_with_no_bytes() {
    assert_eq!(closed_after(Some((3, 9))), (3, 9));
    assert_eq!(closed_after(None), (0, 0));
}

#[test]
fn relay_carries_every_byte_once() {
    let inputs: [Vec<u8>; 2] = [
        (0..150_000u32).map(|i| (i % 251) as u8).collect(),
        b"answer".to_vec(),
    ];
    for (at_hand, takes) in [(70_000, 1000), (333, usize::MAX), (usize::MAX, usize::MAX)] {
        let mut relay = Relay::new();
        let mut outputs = [Vec::new(), Vec::new()];
        for (side, input) in inputs.iter().enumerate() {
            assert_eq!(relay.poll(), None);
            let flow = if side == 0 { &mut relay.a_to_b } else { &mut relay.b_to_a };
            let mut at = 0;
            let mut ends = 0;
            loop {
                match flow.step() {
                    FlowStep::Write => {
                        let n = flow.pending().len().min(takes);
                        outputs[side].extend_from_slice(&flow.pending()[..n]);
                        flow.on_wrote(n).ok().unwrap();
                        assert_eq!(flow.total, outputs[side].len() as u64);
                    }
                    FlowStep::Read(most) => {
                        let end = (at + most.min(at_hand)).min(input.len());
                        if flow.on_read(&input[at..end]) {
                            ends += 1;
                            assert_eq!(outputs[side], *input);
                        }
                        at = end;
                    }
                    FlowStep::Finished => break,
                }
            }
            assert_eq!(ends, 1);
        }
        assert_eq!(outputs, inputs);
        assert_eq!(relay.poll(), Some((150_000, 6)));
    }
}
