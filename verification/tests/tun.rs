//! The tunnel: commands, routes, and what comes out of it.

use etherparse::{IcmpEchoHeader, Icmpv4Header, Icmpv4Type, Icmpv6Header, Icmpv6Type};

use sockrocket_core::net::{parse_ip, IpAddr, SocketAddr};
use sockrocket_core::platform::{Platform, System};
use sockrocket_core::proxy::outbound_bind::{apply_to_tcp_socket, outbound_bind, OptionValue};
use sockrocket_core::proxy::tun::commands::{
    linux_v6_addr_args, linux_v6_bypass_add_args, linux_v6_bypass_del_args,
    linux_v6_default_add_args, linux_v6_default_del_args, macos_v6_add_default_args,
    macos_v6_addr_args, macos_v6_bypass_add_args, macos_v6_bypass_del_args,
    macos_v6_change_default_args, macos_v6_delete_default_args, scoped_v6_gateway,
    windows_v6_add_default_args, windows_v6_addr_args, windows_v6_bypass_add_args,
    windows_v6_bypass_del_args, windows_v6_del_default_args, windows_v6_set_iface_metric_args,
    Command, TUN_GATEWAY, TUN_GATEWAY_V6, TUN_IPV6, TUN_MTU, TUN_PREFIX_V6,
};
use sockrocket_core::proxy::tun::environment::{
    command_paths, current_privilege_status, default_tun_name, find_cmd, judge_relaunch,
    relaunch_parameters, tun_creation_failure_message, tun_privileged, tun_requirements,
    tun_route_failure_hint, tun_supported, validate_tun_environment, wintun_dll_available,
    wintun_dll_is_current, PrivilegeStatus,
};
use sockrocket_core::proxy::tun::gateway::{
    get_default_gateway, get_default_gateway_v6, on_first_answer, on_second_answer, on_v6_answer,
    parse_linux_v6_default_route, parse_macos_v6_route_get, parse_windows_ps_v6_gateway,
    GatewayStep, Query,
};
use sockrocket_core::proxy::tun::icmp::{icmpv4_echo_reply, icmpv6_echo_reply};
use sockrocket_core::proxy::tun::plan::{
    command_line, judge_command, CommandResult, DeviceStep, DeviceWait, Plan, PlanAction, Step,
};
use sockrocket_core::proxy::tun::routes::{
    bypass_addresses, setup_tun_routes, split_by_family, TunRouteInfo, TunState,
};
use sockrocket_core::proxy::tun::stream::{
    addr_to_host_port, handle_tun_dns, handle_tun_stream, relax_tun_rp_filter, tun_dial_target,
    tun_tcp_mss, ConfigureStep, ConfigureV6, DnsStep, PoolAnswer, RelaxStep, RelaxTries,
    StreamAction, TunAction, TunEvent, TunProxy, TunStream,
};
use sockrocket_core::router::engine::{MatchRule, RouteAction, Router, RuleSet};

fn v4(s: &str) -> u32 {
    match parse_ip(s).unwrap() {
        IpAddr::V4(a) => a,
        IpAddr::V6(_) => panic!("an IPv4 address"),
    }
}

fn v6(s: &str) -> u128 {
    match parse_ip(s).unwrap() {
        IpAddr::V6(a) => a,
        IpAddr::V4(_) => panic!("an IPv6 address"),
    }
}

/// The commands of a plan of which everything succeeds, or fails.
fn lines(steps: Vec<Step>, ok: bool) -> (Vec<String>, Option<String>) {
    let mut plan = Plan::new(steps);
    let mut out = Vec::new();
    loop {
        match plan.next() {
            PlanAction::Run(c) => out.push(command_line(c).iter().collect()),
            PlanAction::Write { path, content } => out.push(format!("{} > {}", content, path)),
            PlanAction::AwaitDevice(name) => out.push(format!("await {}", name)),
            PlanAction::Done => return (out, None),
            PlanAction::Failed(e) => return (out, Some(e.clone())),
        }
        plan.on_result(ok);
    }
}

#[test]
fn test_tun_supported() {
    assert!(tun_supported(Platform::Linux));
    assert!(tun_supported(Platform::Macos));
    assert!(tun_supported(Platform::Windows));
    assert!(!tun_supported(Platform::Other));
}

#[test]
fn test_tun_requirements_not_empty() {
    for platform in [Platform::Linux, Platform::Macos, Platform::Windows, Platform::Other] {
        let req = tun_requirements(platform);
        assert!(!req.is_empty());
    }
}

#[test]
fn test_default_gateway_detection() {
    match get_default_gateway(Platform::Linux) {
        GatewayStep::Ask(Query::ReadFile(path)) => assert_eq!(path, "/proc/net/route"),
        _ => panic!("the table of routes is read first"),
    }
    let table = "Iface\tDestination\tGateway\tFlags\tRefCnt\tUse\tMetric\tMask\n\
                 eth0\t0000A8C0\t00000000\t0001\t0\t0\t0\t00FFFFFF\n\
                 eth0\t00000000\t0101A8C0\t0003\t0\t0\t0\t00000000\n";
    match on_first_answer(Platform::Linux, Ok(table)) {
        GatewayStep::Found(gw, iface) => {
            assert_eq!(gw, v4("192.168.1.1"));
            assert!(!iface.is_empty(), "interface name should not be empty");
            assert_eq!(iface, "eth0");
        }
        _ => panic!("the table names a gateway"),
    }
    let bad = "t\neth0\t00000000\tzz\t0003\t0\t0\t0\t00000000\n";
    match on_first_answer(Platform::Linux, Ok(bad)) {
        GatewayStep::Failed(e) => assert_eq!(e, "Invalid gateway hex in /proc/net/route"),
        _ => panic!("the gateway is no number"),
    }
    assert!(matches!(
        on_first_answer(Platform::Linux, Err("no such file")),
        GatewayStep::Ask(Query::Run(_))
    ));
    match on_second_answer(
        Platform::Linux,
        Ok("default via 192.168.1.1 dev eth0 proto dhcp metric 100"),
    ) {
        GatewayStep::Found(gw, iface) => {
            assert_eq!((gw, iface.as_str()), (v4("192.168.1.1"), "eth0"));
        }
        _ => panic!("the answer names a gateway"),
    }
    match on_second_answer(Platform::Linux, Ok("")) {
        GatewayStep::Failed(e) => assert_eq!(e, "No default gateway found on Linux"),
        _ => panic!("there is no gateway"),
    }
}

#[test]
fn gateways_on_macos_and_windows() {
    let out = "   route to: default\n    gateway: 10.0.0.1\n  interface: en1\n";
    match on_first_answer(Platform::Macos, Ok(out)) {
        GatewayStep::Found(gw, iface) => assert_eq!((gw, iface.as_str()), (v4("10.0.0.1"), "en1")),
        _ => panic!("the answer names a gateway"),
    }
    match on_first_answer(Platform::Macos, Ok("gateway: 10.0.0.1\n")) {
        GatewayStep::Found(_, iface) => assert_eq!(iface, "en0"),
        _ => panic!("the answer names a gateway"),
    }
    match on_second_answer(Platform::Macos, Ok("x\ndefault 10.0.0.1 UGSc en7\n")) {
        GatewayStep::Found(_, iface) => assert_eq!(iface, "en7"),
        _ => panic!("the answer names a gateway"),
    }
    let out = "Network\n  0.0.0.0   0.0.0.0  192.168.1.1  192.168.1.100  25\n";
    match on_first_answer(Platform::Windows, Ok(out)) {
        GatewayStep::Found(gw, iface) => {
            assert_eq!((gw, iface.as_str()), (v4("192.168.1.1"), "192.168.1.100"));
        }
        _ => panic!("the answer names a gateway"),
    }
    match on_second_answer(Platform::Windows, Ok(" 192.168.1.1\r\n")) {
        GatewayStep::Found(gw, iface) => assert_eq!((gw, iface.as_str()), (v4("192.168.1.1"), "0.0.0.0")),
        _ => panic!("the answer names a gateway"),
    }
    assert!(matches!(get_default_gateway(Platform::Other), GatewayStep::Failed(_)));
    assert!(get_default_gateway_v6(Platform::Other).is_none());
    let question = get_default_gateway_v6(Platform::Linux).unwrap();
    assert_eq!(question.args, vec!["-6", "route", "show", "default"]);
    assert_eq!(
        on_v6_answer(Platform::Linux, "default via fe80::1 dev eth0\n"),
        Some((v6("fe80::1"), "eth0".to_string()))
    );
}

#[test]
fn test_validate_tun_environment() {
    let ok = PrivilegeStatus::Privileged;
    let missing = PrivilegeStatus::Missing;
    assert!(validate_tun_environment(Platform::Linux, true, true, missing).is_ok());
    assert!(validate_tun_environment(Platform::Linux, false, true, ok)
        .unwrap_err()
        .contains("/dev/net/tun"));
    assert!(validate_tun_environment(Platform::Linux, true, false, ok)
        .unwrap_err()
        .contains("iproute2"));
    assert!(validate_tun_environment(Platform::Windows, true, false, ok).is_err());
    assert_eq!(
        validate_tun_environment(Platform::Macos, true, true, missing),
        Err("Requires root privileges (sudo)")
    );
    assert!(validate_tun_environment(Platform::Other, true, true, ok).is_err());
}

#[test]
fn rights_are_told_apart() {
    assert_eq!(
        current_privilege_status(Platform::Linux, Some(true)),
        PrivilegeStatus::Privileged
    );
    assert_eq!(
        current_privilege_status(Platform::Windows, None),
        PrivilegeStatus::Unknown
    );
    assert!(tun_privileged(PrivilegeStatus::Privileged));
    assert!(!tun_privileged(PrivilegeStatus::Unknown));
    assert_eq!(
        tun_creation_failure_message(Platform::Windows, true, PrivilegeStatus::Unknown),
        "Failed to create TUN device. Ensure the TUN driver is installed and requires administrator privileges"
    );
    assert_eq!(
        tun_route_failure_hint(Platform::Linux, PrivilegeStatus::Missing),
        "Requires root or CAP_NET_ADMIN capability"
    );
    assert_eq!(default_tun_name(Platform::Macos), "utun3");
    assert_eq!(default_tun_name(Platform::Linux), "sockrocket-tun");
}

#[test]
fn starting_again_can_be_refused() {
    assert_eq!(relaunch_parameters(&["a", "b"]), "--tun-admin a b");
    assert!(judge_relaunch(33).is_ok());
    assert_eq!(
        judge_relaunch(1223).unwrap_err(),
        "UAC elevation cancelled by user"
    );
    assert_eq!(
        judge_relaunch(5).unwrap_err(),
        "ShellExecuteW runas failed with code 5"
    );
    assert!(wintun_dll_available(Platform::Linux, false));
    assert!(!wintun_dll_available(Platform::Windows, false));
    assert!(wintun_dll_is_current(Some(&[1, 2]), &[1, 2]));
    assert!(!wintun_dll_is_current(Some(&[1]), &[1, 2]));
    assert!(!wintun_dll_is_current(None, &[]));
}

#[test]
fn test_addr_to_host_port() {
    let addr = SocketAddr {
        ip: parse_ip("1.2.3.4").unwrap(),
        port: 443,
    };
    let (host, port) = addr_to_host_port(addr);
    assert_eq!(host, "1.2.3.4");
    assert_eq!(port, 443);
}

#[test]
fn test_tun_tcp_mss() {
    assert_eq!(tun_tcp_mss(1500), 1440);
    assert!(tun_tcp_mss(TUN_MTU) <= TUN_MTU - 60);
}

#[test]
fn test_tun_ipv6_constants_are_ula() {
    assert_eq!((TUN_IPV6 >> 112) & 0xfe00, 0xfc00);
    assert_eq!((TUN_GATEWAY_V6 >> 112) & 0xfe00, 0xfc00);
    assert_eq!(TUN_IPV6 >> 64, TUN_GATEWAY_V6 >> 64);
    assert_ne!(TUN_IPV6, TUN_GATEWAY_V6);
    assert_eq!(TUN_PREFIX_V6, 64);
}

#[test]
fn test_split_by_family() {
    let mixed = vec![
        IpAddr::V4(v4("1.2.3.4")),
        IpAddr::V6(v6("2001:db8::1")),
        IpAddr::V4(v4("5.6.7.8")),
        IpAddr::V6(v6("fd00::1")),
    ];
    let (a, b) = split_by_family(&mixed);
    assert_eq!(a, vec![v4("1.2.3.4"), v4("5.6.7.8")]);
    assert_eq!(b, vec![v6("2001:db8::1"), v6("fd00::1")]);
    assert!(split_by_family(&[]).0.is_empty());
}

#[test]
fn test_scoped_v6_gateway() {
    assert_eq!(scoped_v6_gateway(v6("fe80::1"), "en0"), "fe80::1%en0");
    assert_eq!(scoped_v6_gateway(v6("2001:db8::1"), "en0"), "2001:db8::1");
}

#[test]
fn test_parse_linux_v6_default_route() {
    let out = "default via fe80::1 dev eth0 proto ra metric 1024 pref medium\n";
    let (gw, iface) = parse_linux_v6_default_route(out).unwrap();
    assert_eq!(gw, v6("fe80::1"));
    assert_eq!(iface, "eth0");

    let out = "default dev tun0 metric 3\ndefault via 2001:db8::1 dev wlan0 proto static\n";
    let (gw, iface) = parse_linux_v6_default_route(out).unwrap();
    assert_eq!(gw, v6("2001:db8::1"));
    assert_eq!(iface, "wlan0");

    assert!(parse_linux_v6_default_route("").is_none());
    assert!(parse_linux_v6_default_route("default via :: dev eth0\n").is_none());
    assert!(parse_linux_v6_default_route("garbage\n").is_none());
}

#[test]
fn test_parse_macos_v6_route_get() {
    let out = "   route to: ::\ndestination: ::\n       mask: ::\n\
               gateway: fe80::1%en0\n  interface: en0\n";
    let (gw, iface) = parse_macos_v6_route_get(out).unwrap();
    assert_eq!(gw, v6("fe80::1"));
    assert_eq!(iface, "en0");

    assert!(parse_macos_v6_route_get("gateway: ::\ninterface: en0\n").is_none());
    assert!(parse_macos_v6_route_get("interface: en0\n").is_none());
    assert!(parse_macos_v6_route_get("").is_none());
}

#[test]
fn test_parse_windows_ps_v6_gateway() {
    let (gw, iface) = parse_windows_ps_v6_gateway("fe80::1|Ethernet\r\n").unwrap();
    assert_eq!(gw, v6("fe80::1"));
    assert_eq!(iface, "Ethernet");

    let (gw, iface) = parse_windows_ps_v6_gateway("2001:db8::1|Wi-Fi\n").unwrap();
    assert_eq!(gw, v6("2001:db8::1"));
    assert_eq!(iface, "Wi-Fi");

    assert!(parse_windows_ps_v6_gateway("::|Ethernet").is_none());
    assert!(parse_windows_ps_v6_gateway("fe80::1|").is_none());
    assert!(parse_windows_ps_v6_gateway("").is_none());
    assert!(parse_windows_ps_v6_gateway("no-pipe-here").is_none());
}

#[test]
fn test_linux_v6_command_builders() {
    let gw = v6("fe80::1");
    let dns = v6("2001:4860:4860::8888");

    assert_eq!(
        linux_v6_addr_args("tun0"),
        vec!["-6", "addr", "add", "fd9a:4c2e:17b0::2/64", "dev", "tun0"]
    );
    assert_eq!(
        linux_v6_default_add_args(TUN_GATEWAY_V6, "tun0"),
        vec![
            "-6",
            "route",
            "add",
            "default",
            "via",
            "fd9a:4c2e:17b0::1",
            "dev",
            "tun0",
            "metric",
            "3"
        ]
    );
    assert_eq!(
        linux_v6_default_del_args(TUN_GATEWAY_V6, "tun0"),
        vec![
            "-6",
            "route",
            "del",
            "default",
            "via",
            "fd9a:4c2e:17b0::1",
            "dev",
            "tun0"
        ]
    );
    assert_eq!(
        linux_v6_bypass_add_args(dns, gw, "eth0"),
        vec![
            "-6",
            "route",
            "add",
            "2001:4860:4860::8888/128",
            "via",
            "fe80::1",
            "dev",
            "eth0"
        ]
    );
    assert_eq!(
        linux_v6_bypass_del_args(dns),
        vec!["-6", "route", "del", "2001:4860:4860::8888/128"]
    );
}

#[test]
fn test_macos_v6_command_builders() {
    let dns = v6("2001:4860:4860::8888");

    assert_eq!(
        macos_v6_addr_args("utun3"),
        vec!["utun3", "inet6", "fd9a:4c2e:17b0::2", "prefixlen", "64"]
    );
    assert_eq!(
        macos_v6_change_default_args("fd9a:4c2e:17b0::1"),
        vec!["-n", "change", "-inet6", "default", "fd9a:4c2e:17b0::1"]
    );
    assert_eq!(
        macos_v6_delete_default_args(),
        vec!["-n", "delete", "-inet6", "default"]
    );
    assert_eq!(
        macos_v6_add_default_args("fe80::1%en0"),
        vec!["-n", "add", "-inet6", "default", "fe80::1%en0"]
    );
    assert_eq!(
        macos_v6_bypass_add_args(dns, "fe80::1%en0"),
        vec![
            "-n",
            "add",
            "-inet6",
            "-host",
            "2001:4860:4860::8888",
            "fe80::1%en0"
        ]
    );
    assert_eq!(
        macos_v6_bypass_del_args(dns),
        vec!["-n", "delete", "-inet6", "-host", "2001:4860:4860::8888"]
    );
}

#[test]
fn test_windows_v6_command_builders() {
    let gw = v6("fe80::1");
    let dns = v6("2001:4860:4860::8888");

    assert_eq!(
        windows_v6_addr_args("sockrocket-tun"),
        vec![
            "interface",
            "ipv6",
            "set",
            "address",
            "interface=sockrocket-tun",
            "address=fd9a:4c2e:17b0::2/64"
        ]
    );
    assert_eq!(
        windows_v6_set_iface_metric_args("sockrocket-tun"),
        vec![
            "interface",
            "ipv6",
            "set",
            "interface",
            "interface=sockrocket-tun",
            "metric=5"
        ]
    );
    assert_eq!(
        windows_v6_add_default_args("sockrocket-tun", TUN_GATEWAY_V6, Some(3)),
        vec![
            "interface",
            "ipv6",
            "add",
            "route",
            "prefix=::/0",
            "interface=sockrocket-tun",
            "nexthop=fd9a:4c2e:17b0::1",
            "metric=3"
        ]
    );
    assert_eq!(
        windows_v6_add_default_args("Ethernet", gw, None),
        vec![
            "interface",
            "ipv6",
            "add",
            "route",
            "prefix=::/0",
            "interface=Ethernet",
            "nexthop=fe80::1"
        ]
    );
    assert_eq!(
        windows_v6_del_default_args("sockrocket-tun"),
        vec![
            "interface",
            "ipv6",
            "delete",
            "route",
            "prefix=::/0",
            "interface=sockrocket-tun"
        ]
    );
    assert_eq!(
        windows_v6_bypass_add_args(dns, "Ethernet", gw),
        vec![
            "interface",
            "ipv6",
            "add",
            "route",
            "prefix=2001:4860:4860::8888/128",
            "interface=Ethernet",
            "nexthop=fe80::1",
            "metric=5"
        ]
    );
    assert_eq!(
        windows_v6_bypass_del_args(dns, "Ethernet"),
        vec![
            "interface",
            "ipv6",
            "delete",
            "route",
            "prefix=2001:4860:4860::8888/128",
            "interface=Ethernet"
        ]
    );
}

#[test]
fn test_icmpv6_echo_reply_roundtrip() {
    let src = v6("fd9a:4c2e:17b0::2");
    let dst = v6("2001:4860:4860::8888");

    let echo = IcmpEchoHeader { id: 0x1234, seq: 7 };
    let mut req = Icmpv6Header::new(Icmpv6Type::EchoRequest(echo));
    let req_payload = b"sockrocket-ping";
    req.update_checksum(src.to_be_bytes(), dst.to_be_bytes(), req_payload)
        .unwrap();
    let mut req_bytes = req.to_bytes().to_vec();
    req_bytes.extend_from_slice(req_payload);

    let reply = icmpv6_echo_reply(&req_bytes, dst, src).expect("echo reply");

    let (reply_header, reply_payload) = Icmpv6Header::from_slice(&reply).unwrap();
    match reply_header.icmp_type {
        Icmpv6Type::EchoReply(h) => {
            assert_eq!(h.id, 0x1234);
            assert_eq!(h.seq, 7);
        }
        other => panic!("expected EchoReply, got {:?}", other),
    }
    assert_eq!(reply_payload, req_payload);
    assert_ne!(reply_header.checksum, 0, "checksum must be filled in");
    let mut expected = Icmpv6Header::new(Icmpv6Type::EchoReply(echo));
    expected
        .update_checksum(dst.to_be_bytes(), src.to_be_bytes(), req_payload)
        .unwrap();
    assert_eq!(reply_header.checksum, expected.checksum);
}

#[test]
fn ping_is_answered_with_its_own_load() {
    let echo = IcmpEchoHeader { id: 9, seq: 3 };
    let mut req = Icmpv4Header::new(Icmpv4Type::EchoRequest(echo));
    req.update_checksum(b"load");
    let mut bytes = req.to_bytes().to_vec();
    bytes.extend_from_slice(b"load");
    let stream = TunStream::Packet {
        src: IpAddr::V4(1),
        dst: IpAddr::V4(2),
        protocol: 1,
        payload: bytes.clone(),
    };
    match handle_tun_stream(&stream, None, None) {
        StreamAction::Reply(reply) => {
            let (header, rest) = Icmpv4Header::from_slice(&reply).unwrap();
            assert_eq!(header.icmp_type, Icmpv4Type::EchoReply(echo));
            assert_eq!(rest, b"load");
            let mut expected = Icmpv4Header::new(Icmpv4Type::EchoReply(echo));
            expected.update_checksum(b"load");
            assert_eq!(header.checksum, expected.checksum);
        }
        _ => panic!("a ping is answered"),
    }
    assert_eq!(
        icmpv4_echo_reply(&[8, 0, 0, 0, 0, 1, 0, 1]),
        Some(vec![0, 0, 0xff, 0xfd, 0, 1, 0, 1])
    );
    assert_eq!(
        icmpv4_echo_reply(&[8, 0, 0, 0, 0, 1, 0, 1, 0xab]),
        Some(vec![0, 0, 0x54, 0xfd, 0, 1, 0, 1, 0xab])
    );
    assert_eq!(
        icmpv4_echo_reply(&[8, 0, 0, 0, 0, 0, 0, 0]),
        Some(vec![0, 0, 0xff, 0xff, 0, 0, 0, 0])
    );
    assert_eq!(
        icmpv4_echo_reply(&[8, 0, 0, 0, 0xff, 0xff, 0, 0]),
        Some(vec![0, 0, 0, 0, 0xff, 0xff, 0, 0])
    );
    assert_eq!(icmpv4_echo_reply(&[8, 0, 0]), None);
    assert_eq!(icmpv4_echo_reply(&[3, 0, 0, 0, 0, 0, 0, 0]), None);
    let other = TunStream::Packet {
        src: IpAddr::V4(1),
        dst: IpAddr::V4(2),
        protocol: 2,
        payload: bytes,
    };
    assert!(matches!(handle_tun_stream(&other, None, None), StreamAction::Ignore));
    assert!(matches!(
        handle_tun_stream(&TunStream::Unknown, None, None),
        StreamAction::Ignore
    ));
}

#[test]
fn test_icmpv6_non_echo_dropped() {
    let rs = [133u8, 0, 0, 0, 0, 0, 0, 0];
    let a = v6("fe80::1");
    let b = v6("ff02::2");
    assert!(icmpv6_echo_reply(&rs, a, b).is_none());

    assert_eq!(
        icmpv6_echo_reply(&[128, 0, 0, 0, 0, 1, 0, 1], 0, 0),
        Some(vec![129, 0, 0x7e, 0xbb, 0, 1, 0, 1])
    );
    assert!(icmpv6_echo_reply(&[128u8, 0], a, b).is_none());
    assert!(icmpv6_echo_reply(&[], a, b).is_none());
}

#[test]
fn test_tun_dns_multiple_queries_per_association() {
    assert_eq!(handle_tun_dns(13), DnsStep::Answer);
    assert_eq!(handle_tun_dns(13), DnsStep::Answer);
    assert_eq!(handle_tun_dns(5), DnsStep::Skip);
    assert_eq!(handle_tun_dns(13), DnsStep::Answer);
    assert_eq!(handle_tun_dns(0), DnsStep::Close);
    let dns = TunStream::Udp {
        dst: SocketAddr { ip: IpAddr::V4(v4("8.8.8.8")), port: 53 },
    };
    assert!(matches!(handle_tun_stream(&dns, None, None), StreamAction::AnswerDns));
}

#[test]
fn test_find_cmd_known() {
    let result = find_cmd(Platform::Linux, "ls", Some("/usr/bin/ls\n"), &[]);
    assert_eq!(result.as_deref(), Some("/usr/bin/ls"));
    let paths = command_paths(Platform::Linux, "ls");
    assert_eq!(paths, vec!["/usr/sbin/ls", "/sbin/ls", "/usr/bin/ls", "/bin/ls"]);
    let result = find_cmd(Platform::Linux, "ls", None, &[false, false, true, true]);
    assert_eq!(result.as_deref(), Some("/usr/bin/ls"));
    assert_eq!(find_cmd(Platform::Macos, "ls", Some(" \n"), &[false; 4]), None);
    let result = find_cmd(Platform::Windows, "route", Some("C:\\a.exe\r\nC:\\b.exe\r\n"), &[]);
    assert_eq!(result.as_deref(), Some("C:\\a.exe"));
    assert_eq!(find_cmd(Platform::Windows, "route", None, &[true]), None);
}

#[test]
fn test_tun_create_and_stop() {
    let mut tun = TunProxy::start(Platform::Linux, None, Some(TUN_GATEWAY_V6));
    assert!(!tun.tun_name().is_empty(), "TUN device name should not be empty");
    assert_eq!(tun.tun_name(), "sockrocket-tun");

    let info = tun.route_info();
    assert_eq!(info.tun_gateway, TUN_GATEWAY);
    assert_eq!(info.tun_gateway_v6, Some(TUN_GATEWAY_V6));

    assert_eq!(tun.begin(), TunAction::Wait);
    assert_eq!(tun.on_event(TunEvent::Accepted), TunAction::Handle);
    assert_eq!(tun.on_event(TunEvent::StreamEnded), TunAction::Wait);
    assert_eq!(tun.on_event(TunEvent::AcceptFailed), TunAction::Finish);
    assert_eq!(tun.on_event(TunEvent::Shutdown), TunAction::Finish);
    tun.stop();
    assert_eq!(tun.begin(), TunAction::Finish);
}

#[test]
fn device_is_configured_with_patience() {
    let mut linux = ConfigureV6::new(Platform::Linux, "t");
    assert!(matches!(linux.step(), ConfigureStep::Run(_)));
    assert!(matches!(linux.on_result(false), ConfigureStep::Done(None)));
    let mut windows = ConfigureV6::new(Platform::Windows, "t");
    assert!(matches!(windows.on_result(false), ConfigureStep::Pause));
    assert!(matches!(windows.on_result(false), ConfigureStep::Pause));
    assert!(matches!(
        windows.on_result(true),
        ConfigureStep::Done(Some(g)) if g == TUN_GATEWAY_V6
    ));
    assert!(matches!(
        ConfigureV6::new(Platform::Other, "t").step(),
        ConfigureStep::Done(None)
    ));
    assert_eq!(
        relax_tun_rp_filter(Platform::Linux, "t"),
        Some(("/proc/sys/net/ipv4/conf/t/rp_filter".to_string(), "2"))
    );
    assert_eq!(relax_tun_rp_filter(Platform::Macos, "t"), None);
}

#[test]
fn device_is_waited_for() {
    let mut wait = DeviceWait::new();
    assert_eq!(wait.on_look(false, None), DeviceStep::Pause);
    assert_eq!(wait.on_look(true, Some("down\n")), DeviceStep::Pause);
    assert_eq!(wait.on_look(true, Some("unknown\n")), DeviceStep::Ready);
    let mut wait = DeviceWait::new();
    for _ in 0..20 {
        assert_eq!(wait.on_look(false, None), DeviceStep::Pause);
    }
    assert_eq!(wait.on_look(false, None), DeviceStep::Missing);
    assert_eq!(wait.on_look(true, None), DeviceStep::Ready);
}

#[test]
fn streams_go_where_names_lead() {
    let addr = SocketAddr { ip: IpAddr::V4(v4("198.18.0.5")), port: 443 };
    let mut pool = PoolAnswer {
        is_fake: true,
        mapped: Some("example.com".to_string()),
        domestic: None,
    };
    let target = tun_dial_target(addr, Some(&pool), None).unwrap();
    assert_eq!((target.host.as_str(), target.port, target.force_direct), ("example.com", 443, false));

    pool.mapped = None;
    let err = tun_dial_target(addr, Some(&pool), None).unwrap_err();
    assert_eq!(
        err,
        "fake-IP 198.18.0.5 has no live mapping (evicted?) \u{2014} dropping stream"
    );
    assert!(matches!(
        handle_tun_stream(&TunStream::Tcp { dst: addr }, Some(&pool), None),
        StreamAction::Close(_)
    ));

    let mut rules = RuleSet::new();
    rules.add_rule(MatchRule::DomainKeyword("bank".to_string()), RouteAction::Proxy);
    let router = Router::new(rules);
    let domestic = PoolAnswer {
        is_fake: false,
        mapped: None,
        domestic: Some("www.bank.cn".to_string()),
    };
    let target = tun_dial_target(addr, Some(&domestic), Some(&router)).unwrap();
    assert_eq!((target.host.as_str(), target.force_direct), ("www.bank.cn", false));
    let target = tun_dial_target(addr, Some(&domestic), None).unwrap();
    assert_eq!((target.host.as_str(), target.force_direct), ("198.18.0.5", true));
    let target = tun_dial_target(addr, None, Some(&router)).unwrap();
    assert_eq!((target.host.as_str(), target.force_direct), ("198.18.0.5", false));
}

// -- Routes ------------------------------------------------------------------

fn info() -> TunRouteInfo {
    TunRouteInfo {
        tun_name: "sockrocket-tun".to_string(),
        tun_gateway: TUN_GATEWAY,
        tun_gateway_v6: Some(TUN_GATEWAY_V6),
    }
}

#[test]
fn bypass_holds_node_and_name_servers() {
    let (a, b) = bypass_addresses(&[IpAddr::V4(v4("1.1.1.1")), IpAddr::V4(v4("9.9.9.9"))]);
    assert_eq!(
        a,
        vec![v4("1.1.1.1"), v4("9.9.9.9"), v4("8.8.8.8"), v4("223.5.5.5"), v4("119.29.29.29")]
    );
    assert_eq!(
        b,
        vec![
            v6("2001:4860:4860::8888"),
            v6("2606:4700:4700::1111"),
            v6("2400:3200::1"),
            v6("2402:4e00::")
        ]
    );
}

#[test]
fn routes_are_set_up_kept_in_step_and_taken_back() {
    let mut state = TunState::new();
    let mut setup = setup_tun_routes(Platform::Linux, info(), &[IpAddr::V4(v4("5.5.5.5"))]);
    let steps = setup.on_gateway(&mut state, v4("192.168.1.1"), "eth0".to_string(), None, "hint");
    let (run, failure) = lines(steps, true);
    assert_eq!(failure, None);
    assert_eq!(run[0], "1 > /proc/sys/net/ipv4/ip_forward");
    assert_eq!(run[1], "ip route add 5.5.5.5/32 via 192.168.1.1 dev eth0");
    assert_eq!(run[6], "await sockrocket-tun");
    assert_eq!(
        run[8],
        "ip route add default via 10.10.0.1 dev sockrocket-tun metric 10"
    );
    assert_eq!(run.len(), 9);

    // The program's own sockets stay on the physical interface.
    let bind = outbound_bind(state.outbound_bind()).unwrap();
    assert_eq!(bind.if_name.as_deref(), Some("eth0"));
    let option = apply_to_tcp_socket(state.outbound_bind(), Platform::Linux, true).unwrap();
    assert_eq!((option.level, option.name), (1, 25));
    assert!(matches!(option.value, OptionValue::Bytes(b) if b == b"eth0"));

    assert!(setup.wants_v6());
    let steps = setup.on_gateway_v6(v6("fe80::1"), "eth0".to_string(), "hint");
    let (run, _) = lines(steps, true);
    assert_eq!(
        run.last().unwrap(),
        "ip -6 route add default via fd9a:4c2e:17b0::1 dev sockrocket-tun metric 3"
    );
    let mut guard = setup.finish(&mut state, true);

    let steps = state
        .update_tun_bypass_ips(Platform::Linux, &[IpAddr::V4(v4("6.6.6.6"))])
        .unwrap();
    let (run, _) = lines(steps, true);
    assert_eq!(
        run,
        vec![
            "ip route del 5.5.5.5/32",
            "ip route add 6.6.6.6/32 via 192.168.1.1"
        ]
    );

    let (run, failure) = lines(guard.restore(Platform::Linux, &mut state), false);
    assert_eq!(failure, None);
    assert_eq!(run[0], "ip route del default via 10.10.0.1");
    assert!(run.contains(&"ip -6 route del 2400:3200::1/128".to_string()));
    assert!(outbound_bind(state.outbound_bind()).is_none());
    assert!(guard.restore(Platform::Linux, &mut state).is_empty());
    assert!(state.emergency_restore_routes(Platform::Linux, None).is_empty());
    assert_eq!(
        state.update_tun_bypass_ips(Platform::Linux, &[]).err(),
        Some("TUN is not running \u{2014} no bypass routes to update")
    );
}

#[test]
fn failed_setup_says_why() {
    let mut state = TunState::new();
    let mut setup = setup_tun_routes(Platform::Windows, info(), &[]);
    let steps = setup.on_gateway(
        &mut state,
        v4("192.168.1.1"),
        "192.168.1.100".to_string(),
        Some(12),
        "Requires Administrator privileges",
    );
    let (run, failure) = lines(steps, false);
    assert_eq!(
        run.last().unwrap(),
        "route add 0.0.0.0 mask 0.0.0.0 10.10.0.1 metric 3"
    );
    assert_eq!(
        failure.as_deref(),
        Some("Failed to set default route through TUN. Requires Administrator privileges")
    );
    let option = apply_to_tcp_socket(state.outbound_bind(), Platform::Windows, true).unwrap();
    assert_eq!((option.level, option.name), (41, 31));
    assert!(matches!(option.value, OptionValue::Bytes(b) if b == [0, 0, 0, 12]));

    let steps = setup.on_gateway_v6(v6("fe80::1"), "Ethernet".to_string(), "x");
    assert!(lines(steps, false).1.is_some());
    let (run, failure) = lines(setup.rollback_v6(), false);
    assert_eq!(failure, None);
    assert_eq!(run.len(), 4);
    assert_eq!(
        run[2],
        "netsh interface ipv6 delete route prefix=2400:3200::1/128 interface=Ethernet"
    );
}

#[test]
fn default_route_on_macos_is_replaced() {
    let mut state = TunState::new();
    let mut setup = setup_tun_routes(Platform::Macos, info(), &[]);
    let steps = setup.on_gateway(&mut state, v4("10.0.0.1"), "en0".to_string(), Some(4), "h");
    let (run, failure) = lines(steps, false);
    assert_eq!(
        &run[4..],
        &[
            "route -n change default 10.10.0.1",
            "route -n delete default",
            "route -n add default 10.10.0.1"
        ]
    );
    assert_eq!(
        failure.as_deref(),
        Some("Failed to set default route through TUN. h")
    );
    let _guard = setup.finish(&mut state, false);
    let (run, failure) = lines(state.emergency_restore_routes(Platform::Macos, None), true);
    assert_eq!(failure, None);
    assert_eq!(run[0], "route -n change default 10.0.0.1");
    assert_eq!(run[1], "route -n delete -host 8.8.8.8");
}

#[test]
fn missing_default_route_is_put_back_in_an_emergency() {
    for (current, expected) in [(None, true), (Some(v4("10.0.0.1")), false)] {
        let mut state = TunState::new();
        let mut setup = setup_tun_routes(Platform::Windows, info(), &[]);
        setup.on_gateway(&mut state, v4("10.0.0.1"), "10.0.0.2".to_string(), None, "h");
        let _guard = setup.finish(&mut state, false);
        let (run, _) = lines(state.emergency_restore_routes(Platform::Windows, current), true);
        let put_back = "route add 0.0.0.0 mask 0.0.0.0 10.0.0.1 metric 5".to_string();
        assert_eq!(run.contains(&put_back), expected);
    }
}

#[test]
fn commands_are_judged_by_their_end() {
    let command = Command {
        program: "ip".to_string(),
        args: vec!["route".to_string(), "show".to_string()],
    };
    let ended = |success| CommandResult::Ended {
        success,
        stdout: b"out".to_vec(),
        stderr: b" bad\n".to_vec(),
    };
    assert_eq!(judge_command(&command, &ended(true)).unwrap(), "out");
    assert_eq!(
        judge_command(&command, &ended(false)).unwrap_err(),
        "ip route show failed: bad"
    );
    assert_eq!(
        judge_command(&command, &CommandResult::NotStarted("gone".to_string())).unwrap_err(),
        "Failed to run ip route show: gone"
    );
    assert_eq!(
        judge_command(&command, &CommandResult::TimedOut { secs: 10 }).unwrap_err(),
        "ip route show timed out after 10s"
    );
    assert_eq!(Platform::Linux.system(), Some(System::Linux));
}

#[test]
fn filter_is_relaxed_in_ten_tries_or_not_at_all() {
    let mut tries = RelaxTries::new();
    for _ in 0..9 {
        assert_eq!(tries.on_result(false), RelaxStep::Pause);
    }
    assert_eq!(tries.on_result(false), RelaxStep::GiveUp);

    let mut tries = RelaxTries::new();
    assert_eq!(tries.on_result(false), RelaxStep::Pause);
    assert_eq!(tries.on_result(true), RelaxStep::Done);
}

#[test]
fn every_exemption_is_taken_back_in_an_emergency() {
    let mut state = TunState::new();
    let bypass = [IpAddr::V4(v4("5.5.5.5")), IpAddr::V6(v6("2001:db8::5"))];
    let mut setup = setup_tun_routes(Platform::Linux, info(), &bypass);
    setup.on_gateway(&mut state, v4("192.168.1.1"), "eth0".to_string(), None, "h");
    let (set_up, _) = lines(setup.on_gateway_v6(v6("fe80::1"), "eth0".to_string(), "h"), true);
    let _guard = setup.finish(&mut state, true);
    let (run, failure) = lines(state.emergency_restore_routes(Platform::Linux, None), true);
    assert_eq!(failure, None);
    assert!(run.contains(&"ip route del 5.5.5.5/32".to_string()));
    for address in ["2001:db8::5", "2400:3200::1", "2402:4e00::"] {
        assert!(set_up.iter().any(|l| l.contains(&format!("route add {}/128", address))));
        assert!(run.contains(&format!("ip -6 route del {}/128", address)));
    }
}
