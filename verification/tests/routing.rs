//! Rules, ranges and the decisions made of them.

use std::sync::Arc;

use sockrocket_core::config::RoutingRule;
use sockrocket_core::net::{parse_ip, IpAddr, SocketAddr};
use sockrocket_core::proxy::connector::SharedOutbound;
use sockrocket_core::proxy::routing::{RoutingOutbound, RoutingStep};
use sockrocket_core::router::engine::{
    choose_address, cidr_match, parse_cidr, MatchRule, RouteAction, RouteStep, Router, RuleSet,
};
use sockrocket_core::router::geoip::GeoIpDb;
use sockrocket_core::router::rule_mode::rule_mode_ruleset;

fn ip(s: &str) -> IpAddr {
    parse_ip(s).unwrap()
}

fn rule(kind: &str, pattern: &str, target: &str, enabled: bool) -> RoutingRule {
    RoutingRule {
        rule_type: kind.to_string(),
        pattern: pattern.to_string(),
        target: target.to_string(),
        enabled,
    }
}

#[test]
fn test_route_resolving_geoip_matches_domain_via_dns() {
    let make = || {
        let mut rules = RuleSet::new();
        rules.add_rule(MatchRule::GeoIp("PRIVATE".to_string()), RouteAction::Direct);
        rules.add_rule(MatchRule::MatchAll, RouteAction::Proxy);
        Router::new(rules).with_geoip(Arc::new(GeoIpDb::builtin()))
    };

    assert_eq!(make().route("localhost", 80), RouteAction::Proxy);

    let mut router = make();
    match router.route_resolving("localhost", 80) {
        RouteStep::Resolve(host) => assert_eq!(host, "localhost"),
        RouteStep::Decided(_) => panic!("the address of the host decides"),
    }
    assert_eq!(
        router.route_resolved("localhost", Some(ip("127.0.0.1"))),
        RouteAction::Direct
    );
    match router.route_resolving("localhost", 80) {
        RouteStep::Decided(action) => assert_eq!(action, RouteAction::Direct),
        RouteStep::Resolve(_) => panic!("the decision is remembered"),
    }
}

#[test]
fn test_from_config_skips_disabled_rules() {
    let rules = vec![
        rule("domain-suffix", "example.com", "direct", false),
        rule("match", "*", "proxy", true),
    ];
    let mut router = Router::new(RuleSet::from_config(&rules));
    assert_eq!(router.route("api.example.com", 443), RouteAction::Proxy);
}

#[test]
fn test_route_domain_exact() {
    let mut rules = RuleSet::new();
    rules.add_rule(MatchRule::Domain("example.com".to_string()), RouteAction::Direct);
    let mut router = Router::new(rules);

    assert_eq!(router.route("example.com", 443), RouteAction::Direct);
    assert_eq!(router.route("other.com", 443), RouteAction::Proxy);
}

#[test]
fn test_route_domain_suffix() {
    let mut rules = RuleSet::new();
    rules.add_rule(
        MatchRule::DomainSuffix(".google.com".to_string()),
        RouteAction::Proxy,
    );
    rules.add_rule(MatchRule::DomainSuffix(".cn".to_string()), RouteAction::Direct);
    rules.set_default(RouteAction::Proxy);
    let mut router = Router::new(rules);

    assert_eq!(router.route("www.google.com", 443), RouteAction::Proxy);
    assert_eq!(router.route("google.com", 443), RouteAction::Proxy);
    assert_eq!(router.route("baidu.cn", 80), RouteAction::Direct);
    assert_eq!(router.route("example.org", 80), RouteAction::Proxy);
}

#[test]
fn test_route_domain_keyword() {
    let mut rules = RuleSet::new();
    rules.add_rule(
        MatchRule::DomainKeyword("google".to_string()),
        RouteAction::Proxy,
    );
    let mut router = Router::new(rules);

    assert_eq!(router.route("www.google.com", 443), RouteAction::Proxy);
    assert_eq!(router.route("googleapis.com", 443), RouteAction::Proxy);
    assert_eq!(router.route("example.com", 443), RouteAction::Proxy);
}

#[test]
fn test_route_ip_cidr_v4() {
    let mut rules = RuleSet::new();
    rules.add_rule(
        MatchRule::IpCidr {
            addr: ip("192.168.0.0"),
            prefix_len: 16,
        },
        RouteAction::Direct,
    );
    rules.add_rule(
        MatchRule::IpCidr {
            addr: ip("10.0.0.0"),
            prefix_len: 8,
        },
        RouteAction::Direct,
    );
    let mut router = Router::new(rules);

    assert_eq!(router.route("192.168.1.1", 80), RouteAction::Direct);
    assert_eq!(router.route("192.168.255.255", 80), RouteAction::Direct);
    assert_eq!(router.route("192.169.0.1", 80), RouteAction::Proxy);
    assert_eq!(router.route("10.1.2.3", 80), RouteAction::Direct);
    assert_eq!(router.route("11.0.0.1", 80), RouteAction::Proxy);
}

#[test]
fn test_route_ip_cidr_v6() {
    let mut rules = RuleSet::new();
    rules.add_rule(
        MatchRule::IpCidr {
            addr: ip("::1"),
            prefix_len: 128,
        },
        RouteAction::Direct,
    );
    rules.add_rule(
        MatchRule::IpCidr {
            addr: ip("fd00::"),
            prefix_len: 8,
        },
        RouteAction::Direct,
    );
    let mut router = Router::new(rules);

    assert_eq!(router.route("::1", 80), RouteAction::Direct);
    assert_eq!(router.route("fd12::1", 80), RouteAction::Direct);
    assert_eq!(router.route("2001:db8::1", 80), RouteAction::Proxy);
}

#[test]
fn test_route_match_all() {
    let mut rules = RuleSet::new();
    rules.add_rule(MatchRule::DomainSuffix(".cn".to_string()), RouteAction::Direct);
    rules.add_rule(MatchRule::MatchAll, RouteAction::Proxy);
    let mut router = Router::new(rules);

    assert_eq!(router.route("baidu.cn", 80), RouteAction::Direct);
    assert_eq!(router.route("anything.com", 443), RouteAction::Proxy);
}

#[test]
fn test_route_reject() {
    let mut rules = RuleSet::new();
    rules.add_rule(MatchRule::DomainKeyword("ads".to_string()), RouteAction::Reject);
    let mut router = Router::new(rules);

    assert_eq!(router.route("ads.example.com", 80), RouteAction::Reject);
}

#[test]
fn test_from_config() {
    let rules = vec![
        rule("domain-suffix", "cn", "direct", true),
        rule("ip-cidr", "192.168.0.0/16", "direct", true),
        rule("domain-keyword", "google", "proxy", true),
        rule("match", "", "proxy", true),
    ];

    let ruleset = RuleSet::from_config(&rules);
    assert_eq!(ruleset.rules().len(), 4);

    let mut router = Router::new(ruleset);
    assert_eq!(router.route("baidu.cn", 80), RouteAction::Direct);
    assert_eq!(router.route("192.168.1.1", 443), RouteAction::Direct);
    assert_eq!(router.route("www.google.com", 443), RouteAction::Proxy);
}

#[test]
fn test_parse_cidr() {
    assert_eq!(parse_cidr("192.168.0.0/16"), Some((ip("192.168.0.0"), 16)));
    assert_eq!(parse_cidr("::1/128"), Some((ip("::1"), 128)));
    assert_eq!(parse_cidr("invalid"), None);
    assert_eq!(parse_cidr("192.168.0.0/33"), None);
}

#[test]
fn test_cidr_match() {
    assert!(cidr_match(ip("192.168.1.1"), ip("192.168.0.0"), 16));
    assert!(!cidr_match(ip("192.169.0.1"), ip("192.168.0.0"), 16));
    assert!(cidr_match(ip("10.0.0.0"), ip("0.0.0.0"), 0));
}

#[test]
fn families_do_not_mix() {
    assert!(!cidr_match(ip("::1"), ip("0.0.0.0"), 0));
    assert!(!cidr_match(ip("1.2.3.4"), ip("::"), 0));
    assert!(cidr_match(ip("2001:db8::1"), ip("2001:db8::"), 32));
    assert!(!cidr_match(ip("2001:db9::1"), ip("2001:db8::"), 32));
}

#[test]
fn test_case_insensitive() {
    let mut rules = RuleSet::new();
    rules.add_rule(
        MatchRule::Domain("Example.COM".to_lowercase()),
        RouteAction::Direct,
    );
    let mut router = Router::new(rules);

    assert_eq!(router.route("EXAMPLE.COM", 80), RouteAction::Direct);
    assert_eq!(router.route("example.com", 80), RouteAction::Direct);
}

#[test]
fn test_route_cache_key_is_lowercased() {
    let mut rules = RuleSet::new();
    rules.add_rule(MatchRule::Domain("example.com".to_string()), RouteAction::Direct);
    let mut router = Router::new(rules);

    assert_eq!(router.route("EXAMPLE.COM", 80), RouteAction::Direct);

    assert!(router.cached("example.com").is_some());
    assert!(router.cached("EXAMPLE.COM").is_none());
    assert_eq!(router.cached_len(), 1);
}

#[test]
fn test_route_and_route_resolving_share_lowercased_cache() {
    let mut rules = RuleSet::new();
    rules.add_rule(
        MatchRule::DomainSuffix(".example.com".to_string()),
        RouteAction::Direct,
    );
    let mut router = Router::new(rules);

    assert_eq!(router.route("WWW.EXAMPLE.COM", 443), RouteAction::Direct);
    for host in ["www.example.com", "Www.Example.Com"] {
        match router.route_resolving(host, 443) {
            RouteStep::Decided(action) => assert_eq!(action, RouteAction::Direct),
            RouteStep::Resolve(_) => panic!("no address is needed"),
        }
    }

    assert_eq!(router.cached_len(), 1);
    assert_eq!(router.cached("www.example.com"), Some(RouteAction::Direct));
}

#[test]
fn cache_keeps_the_latest_decisions() {
    let mut router = Router::new(RuleSet::new());
    for i in 0..5000u32 {
        let host = format!("host-{}.example", i);
        assert_eq!(router.route(&host, 443), RouteAction::Proxy);
    }
    assert_eq!(router.cached_len(), 4096);
    assert!(router.cached("host-0.example").is_none());
    assert!(router.cached("host-4999.example").is_some());
}

#[test]
fn rules_on_names_alone() {
    let mut rules = RuleSet::new();
    rules.add_rule(MatchRule::GeoIp("PRIVATE".to_string()), RouteAction::Direct);
    rules.add_rule(MatchRule::DomainKeyword("bank".to_string()), RouteAction::Direct);
    rules.add_rule(MatchRule::MatchAll, RouteAction::Reject);
    let router = Router::new(rules);
    assert_eq!(router.route_domain_only("My.Bank.com"), Some(RouteAction::Direct));
    assert_eq!(router.route_domain_only("example.com"), None);
    assert_eq!(router.route_uncached("example.com", 1), RouteAction::Reject);
}

#[test]
fn first_rule_that_holds_decides() {
    let rules = vec![
        rule("domain-suffix", "example.com", "reject", true),
        rule("domain", "www.example.com", "direct", true),
    ];
    let mut router = Router::new(RuleSet::from_config(&rules));
    assert_eq!(router.route("www.example.com", 443), RouteAction::Reject);
}

#[test]
fn address_for_a_name() {
    let v4 = SocketAddr { ip: ip("1.2.3.4"), port: 0 };
    let v6 = SocketAddr { ip: ip("2001:db8::1"), port: 0 };
    assert_eq!(choose_address(&[]), None);
    assert_eq!(choose_address(&[v6, v4]), Some(ip("1.2.3.4")));
    assert_eq!(choose_address(&[v6]), Some(ip("2001:db8::1")));
}

#[test]
fn test_builtin_private() {
    let db = GeoIpDb::builtin();

    assert_eq!(db.lookup(ip("192.168.1.1")), Some("PRIVATE"));
    assert_eq!(db.lookup(ip("10.0.0.1")), Some("PRIVATE"));
    assert_eq!(db.lookup(ip("172.16.5.1")), Some("PRIVATE"));
    assert_eq!(db.lookup(ip("127.0.0.1")), Some("PRIVATE"));
    assert_eq!(db.lookup(ip("::1")), Some("PRIVATE"));

    assert_eq!(db.lookup(ip("8.8.8.8")), None);
    assert_eq!(db.lookup(ip("1.1.1.1")), None);
}

#[test]
fn test_load_from_text() {
    let text = "\n# GeoIP test data\n1.0.0.0/8 CN\n8.8.8.0/24 US\n2001:db8::/32 TEST\n";
    let db = GeoIpDb::load_from_text(text);
    assert_eq!(db.entry_count(), 3);

    assert_eq!(db.lookup(ip("1.2.3.4")), Some("CN"));
    assert_eq!(db.lookup(ip("8.8.8.8")), Some("US"));
    assert_eq!(db.lookup(ip("8.8.9.1")), None);
    assert_eq!(db.lookup(ip("2001:db8::1")), Some("TEST"));
}

#[test]
fn test_longest_prefix_match() {
    let db = GeoIpDb::load_from_text("\n1.0.0.0/8 CN\n1.1.1.0/24 US\n");

    assert_eq!(db.lookup(ip("1.1.1.1")), Some("US"));
    assert_eq!(db.lookup(ip("1.2.3.4")), Some("CN"));
}

#[test]
fn unreadable_ranges_are_left_out() {
    let mut db = GeoIpDb::new();
    db.add_entry("nonsense", "XX");
    db.add_entry("1.2.3.4/999", "XX");
    db.add_entry("9.0.0.0/8", "nine");
    db.build();
    assert_eq!(db.entry_count(), 1);
    assert_eq!(db.lookup(ip("9.9.9.9")), Some("NINE"));
}

#[test]
fn rule_mode_ruleset_uses_builtin_rules_when_empty() {
    let mut builtin = RuleSet::new();
    builtin.add_rule(
        MatchRule::DomainSuffix(".baidu.com".to_string()),
        RouteAction::Direct,
    );
    let mut router = Router::new(rule_mode_ruleset(&[], builtin));
    assert_eq!(router.route("www.baidu.com", 443), RouteAction::Direct);
}

#[test]
fn rule_mode_ruleset_prefers_custom_rules_when_present() {
    let rules = vec![
        rule("domain-suffix", "example.com", "reject", true),
        rule("match", "*", "proxy", true),
    ];

    let mut router = Router::new(rule_mode_ruleset(&rules, RuleSet::new()));
    assert_eq!(router.route("api.example.com", 443), RouteAction::Reject);
}

#[test]
fn test_routing_outbound_direct() {
    let mut rules = RuleSet::new();
    rules.set_default(RouteAction::Direct);
    let mut outbound = RoutingOutbound::new(Router::new(rules), SharedOutbound::direct());
    match outbound.connect("127.0.0.1", 8080) {
        RoutingStep::Via(chosen) => assert_eq!(chosen.0.name(), "direct"),
        _ => panic!("everything goes straight to its target"),
    }
    assert_eq!(outbound.name(), "routing");
}

#[test]
fn test_routing_outbound_reject() {
    let mut rules = RuleSet::new();
    rules.add_rule(MatchRule::DomainKeyword("ads".to_string()), RouteAction::Reject);
    let mut outbound = RoutingOutbound::new(Router::new(rules), SharedOutbound::direct());
    for _ in 0..2 {
        match outbound.connect("ads.example.com", 80) {
            RoutingStep::Refused(err) => assert!(err.contains("rejected")),
            _ => panic!("the target is refused"),
        }
    }
}

#[test]
fn names_are_resolved_for_rules_on_addresses() {
    let mut rules = RuleSet::new();
    rules.add_rule(
        MatchRule::IpCidr { addr: ip("10.0.0.0"), prefix_len: 8 },
        RouteAction::Reject,
    );
    let mut outbound = RoutingOutbound::new(Router::new(rules), SharedOutbound::direct());
    match outbound.connect("Inner.example", 80) {
        RoutingStep::Resolve(name) => assert_eq!(name, "inner.example"),
        _ => panic!("the address decides"),
    }
    match outbound.connect_resolved("Inner.example", 80, Some(ip("10.1.2.3"))) {
        RoutingStep::Refused(err) => assert_eq!(
            err,
            "Connection rejected by routing rule: Inner.example:80"
        ),
        _ => panic!("the target is refused"),
    }
    assert!(matches!(
        outbound.connect("inner.example", 80),
        RoutingStep::Refused(_)
    ));
}

#[test]
fn answers_do_not_depend_on_earlier_ones() {
    let make = || {
        let rules = vec![
            rule("ip-cidr", "fe80::/10", "direct", true),
            rule("domain-suffix", "example.com", "reject", true),
            rule("match", "*", "proxy", true),
        ];
        Router::new(RuleSet::from_config(&rules))
    };
    let targets = ["FE80::1", "fe80::1", "A.Example.com", "a.example.COM", "other.org"];
    let mut used = make();
    for _ in 0..3 {
        for target in targets {
            assert_eq!(used.route(target, 443), make().route(target, 443));
        }
    }
    assert_eq!(used.route("FE80::1", 80), RouteAction::Direct);
    assert_eq!(used.cached_len(), 3);
}

#[test]
fn longest_prefix_wins_in_any_order() {
    let ranges = [("1.1.0.0/16", "b"), ("1.1.1.1/32", "d"), ("1.0.0.0/8", "a"), ("1.1.1.0/24", "c")];
    for turn in 0..ranges.len() {
        let mut db = GeoIpDb::new();
        for i in 0..ranges.len() {
            let (cidr, country) = ranges[(turn + i) % ranges.len()];
            db.add_entry(cidr, country);
        }
        for _ in 0..2 {
            db.build();
            assert_eq!(db.entry_count(), 4);
            assert_eq!(db.lookup(ip("1.1.1.1")), Some("D"));
            assert_eq!(db.lookup(ip("1.1.1.2")), Some("C"));
            assert_eq!(db.lookup(ip("1.1.2.2")), Some("B"));
            assert_eq!(db.lookup(ip("1.2.2.2")), Some("A"));
            assert_eq!(db.lookup(ip("2.1.1.1")), None);
        }
    }
}

#[test]
fn names_outside_ascii_are_remembered_in_lower_case() {
    let rules = vec![
        rule("domain", "k.example", "direct", true),
        rule("ip-cidr", "fe80::/10", "reject", true),
        rule("match", "*", "proxy", true),
    ];
    let mut router = Router::new(RuleSet::from_config(&rules));
    // The lower case of the Kelvin sign is a k.
    assert_eq!(router.route("\u{212a}.example", 443), RouteAction::Direct);
    assert_eq!(router.cached("k.example"), Some(RouteAction::Direct));
    assert_eq!(router.route("\u{41f}.example", 443), RouteAction::Proxy);
    assert_eq!(router.cached("\u{43f}.example"), Some(RouteAction::Proxy));
    // Full-width digits and a name that only looks like an address.
    assert_eq!(router.route("fe80::\u{ff11}", 443), RouteAction::Proxy);
    assert_eq!(router.route("fe80::1", 443), RouteAction::Reject);
    assert_eq!(router.cached_len(), 4);
}
