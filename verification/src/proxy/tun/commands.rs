//! The commands with which a system is told its addresses and routes.

use vstd::prelude::*;

use crate::config;
use crate::net;
use crate::platform::System;
use crate::text;

verus! {

broadcast use {
    vstd::seq::group_seq_axioms,
    vstd::slice::group_slice_axioms,
    vstd::array::group_array_axioms,
    vstd::string::group_string_axioms,
    vstd::std_specs::vec::group_vec_axioms,
};

/// A command and its arguments.
#[derive(Debug)]
pub struct Command {
    pub program: String,
    pub args: Vec<String>,
}

/// A command as its contracts speak of it.
#[verifier::ext_equal]
pub struct CommandModel {
    pub program: Seq<char>,
    pub args: Seq<Seq<char>>,
}

impl View for Command {
    type V = CommandModel;

    open spec fn view(&self) -> CommandModel {
        CommandModel { program: self.program@, args: config::text_list(self.args@) }
    }
}

/// A command of fixed words.
pub open spec fn command_of(program: Seq<char>, args: Seq<Seq<char>>) -> CommandModel {
    CommandModel { program, args }
}

/// Words as characters.
pub open spec fn word_list(v: Seq<&str>) -> Seq<Seq<char>> {
    v.map_values(|s: &str| s@)
}

/// A list of words.
pub fn args_of(words: &[&str]) -> (r: Vec<String>)
    ensures
        config::text_list(r@) == word_list(words@),
{
    let mut out: Vec<String> = Vec::new();
    let mut i: usize = 0;
    while i < words.len()
        invariant
            i <= words@.len(),
            config::text_list(out@) == word_list(words@).take(i as int),
        decreases words@.len() - i,
    {
        let word = text::string_of(text::chars_of(words[i]).as_slice());
        let ghost before = out@;
        out.push(word);
        proof {
            assert(config::text_list(out@) =~= config::text_list(before).push(word@));
            assert(word_list(words@).take(i + 1) =~= word_list(words@).take(i as int).push(
                words@[i as int]@,
            ));
        }
        i = i + 1;
    }
    assert(word_list(words@).take(i as int) =~= word_list(words@));
    out
}

fn command(program: &str, args: Vec<String>) -> (r: Command)
    ensures
        r@ == command_of(program@, config::text_list(args@)),
{
    Command { program: text::string_of(text::chars_of(program).as_slice()), args }
}

/// Two texts in one.
pub fn joined(a: &str, b: &str) -> (r: String)
    ensures
        r@ == a@ + b@,
{
    let mut out: Vec<char> = Vec::new();
    text::append_str(&mut out, a);
    text::append_str(&mut out, b);
    assert(out@ =~= a@ + b@);
    text::string_of(out.as_slice())
}

/// An IPv4 address as text.
pub fn v4_string(ip: u32) -> (r: String)
    ensures
        r@ == net::v4_text(ip),
{
    text::string_of(net::format_v4(ip).as_slice())
}

/// An IPv6 address as text.
pub fn v6_string(ip: u128) -> (r: String)
    ensures
        r@ == net::v6_text(ip),
{
    text::string_of(net::format_v6(ip).as_slice())
}

// ---------------------------------------------------------------------------
// Addresses of the tunnel
// ---------------------------------------------------------------------------

/// The address of the tunnel: 10.10.0.2.
pub const TUN_IPV4: u32 = 0x0a0a_0002;

/// The gateway of the tunnel: 10.10.0.1.
pub const TUN_GATEWAY: u32 = 0x0a0a_0001;

/// The netmask of the tunnel: 255.255.255.0.
pub const TUN_NETMASK: u32 = 0xffff_ff00;

/// The size of a packet in the tunnel.
pub const TUN_MTU: u16 = 1500;

/// The IPv6 address of the tunnel: fd9a:4c2e:17b0::2.
pub const TUN_IPV6: u128 = 0xfd9a_4c2e_17b0_0000_0000_0000_0000_0002;

/// The IPv6 gateway of the tunnel: fd9a:4c2e:17b0::1.
pub const TUN_GATEWAY_V6: u128 = 0xfd9a_4c2e_17b0_0000_0000_0000_0000_0001;

/// The length of the IPv6 prefix of the tunnel.
pub const TUN_PREFIX_V6: u8 = 64;

// ---------------------------------------------------------------------------
// IPv6 on Linux
// ---------------------------------------------------------------------------
/// The arguments of `ip` that give the tunnel its IPv6 address.
pub open spec fn linux_v6_addr_line(dev: Seq<char>) -> Seq<Seq<char>> {
    seq!["-6"@, "addr"@, "add"@, net::v6_text(TUN_IPV6) + "/64"@, "dev"@, dev]
}

/// The arguments of `ip` that give the tunnel its IPv6 address.
pub fn linux_v6_addr_args(dev: &str) -> (r: Vec<String>)
    ensures
        config::text_list(r@) == linux_v6_addr_line(dev@),
{
    let w3 = joined(v6_string(TUN_IPV6).as_str(), "/64");
    let r = args_of(["-6", "addr", "add", w3.as_str(), "dev", dev].as_slice());
    assert(config::text_list(r@) =~= linux_v6_addr_line(dev@));
    r
}

/// The arguments of `ip` that make the tunnel the default route.
pub open spec fn linux_v6_default_add_line(tun_gw: u128, dev: Seq<char>) -> Seq<Seq<char>> {
    seq!["-6"@, "route"@, "add"@, "default"@, "via"@, net::v6_text(tun_gw), "dev"@, dev, "metric"@, "3"@]
}

/// The arguments of `ip` that make the tunnel the default route.
pub fn linux_v6_default_add_args(tun_gw: u128, dev: &str) -> (r: Vec<String>)
    ensures
        config::text_list(r@) == linux_v6_default_add_line(tun_gw, dev@),
{
    let w5 = v6_string(tun_gw);
    let r = args_of(["-6", "route", "add", "default", "via", w5.as_str(), "dev", dev, "metric", "3"].as_slice());
    assert(config::text_list(r@) =~= linux_v6_default_add_line(tun_gw, dev@));
    r
}

/// The arguments of `ip` that take the default route from the tunnel.
pub open spec fn linux_v6_default_del_line(tun_gw: u128, dev: Seq<char>) -> Seq<Seq<char>> {
    seq!["-6"@, "route"@, "del"@, "default"@, "via"@, net::v6_text(tun_gw), "dev"@, dev]
}

/// The arguments of `ip` that take the default route from the tunnel.
pub fn linux_v6_default_del_args(tun_gw: u128, dev: &str) -> (r: Vec<String>)
    ensures
        config::text_list(r@) == linux_v6_default_del_line(tun_gw, dev@),
{
    let w5 = v6_string(tun_gw);
    let r = args_of(["-6", "route", "del", "default", "via", w5.as_str(), "dev", dev].as_slice());
    assert(config::text_list(r@) =~= linux_v6_default_del_line(tun_gw, dev@));
    r
}

/// The arguments of `ip` that lead an address past the tunnel.
pub open spec fn linux_v6_bypass_add_line(ip: u128, gw: u128, dev: Seq<char>) -> Seq<Seq<char>> {
    seq!["-6"@, "route"@, "add"@, net::v6_text(ip) + "/128"@, "via"@, net::v6_text(gw), "dev"@, dev]
}

/// The arguments of `ip` that lead an address past the tunnel.
pub fn linux_v6_bypass_add_args(ip: u128, gw: u128, dev: &str) -> (r: Vec<String>)
    ensures
        config::text_list(r@) == linux_v6_bypass_add_line(ip, gw, dev@),
{
    let w3 = joined(v6_string(ip).as_str(), "/128");
    let w5 = v6_string(gw);
    let r = args_of(["-6", "route", "add", w3.as_str(), "via", w5.as_str(), "dev", dev].as_slice());
    assert(config::text_list(r@) =~= linux_v6_bypass_add_line(ip, gw, dev@));
    r
}

/// The arguments of `ip` that lead an address no longer past the tunnel.
pub open spec fn linux_v6_bypass_del_line(ip: u128) -> Seq<Seq<char>> {
    seq!["-6"@, "route"@, "del"@, net::v6_text(ip) + "/128"@]
}

/// The arguments of `ip` that lead an address no longer past the tunnel.
pub fn linux_v6_bypass_del_args(ip: u128) -> (r: Vec<String>)
    ensures
        config::text_list(r@) == linux_v6_bypass_del_line(ip),
{
    let w3 = joined(v6_string(ip).as_str(), "/128");
    let r = args_of(["-6", "route", "del", w3.as_str()].as_slice());
    assert(config::text_list(r@) =~= linux_v6_bypass_del_line(ip));
    r
}

// ---------------------------------------------------------------------------
// IPv6 on macOS
// ---------------------------------------------------------------------------

/// A gateway as `route` wants it: one that is only known on its link names
/// the interface.
pub open spec fn scoped_gateway_text(gateway: u128, iface: Seq<char>) -> Seq<char> {
    if gateway / 0x40_0000_0000_0000_0000_0000_0000_0000 == 0x3fa {
        net::v6_text(gateway) + ("%"@ + iface)
    } else {
        net::v6_text(gateway)
    }
}

/// A gateway as `route` wants it.
pub fn scoped_v6_gateway(gateway: u128, iface: &str) -> (r: String)
    ensures
        r@ == scoped_gateway_text(gateway, iface@),
{
    let t = v6_string(gateway);
    if gateway / 0x40_0000_0000_0000_0000_0000_0000_0000 == 0x3fa {
        joined(t.as_str(), joined("%", iface).as_str())
    } else {
        t
    }
}

/// The arguments of `ifconfig` that give the tunnel its IPv6 address.
pub open spec fn macos_v6_addr_line(dev: Seq<char>) -> Seq<Seq<char>> {
    seq![dev, "inet6"@, net::v6_text(TUN_IPV6), "prefixlen"@, "64"@]
}

/// The arguments of `ifconfig` that give the tunnel its IPv6 address.
pub fn macos_v6_addr_args(dev: &str) -> (r: Vec<String>)
    ensures
        config::text_list(r@) == macos_v6_addr_line(dev@),
{
    let w2 = v6_string(TUN_IPV6);
    let r = args_of([dev, "inet6", w2.as_str(), "prefixlen", "64"].as_slice());
    assert(config::text_list(r@) =~= macos_v6_addr_line(dev@));
    r
}

/// The arguments of `route` that change the default route.
pub open spec fn macos_v6_change_default_line(scoped_gw: Seq<char>) -> Seq<Seq<char>> {
    seq!["-n"@, "change"@, "-inet6"@, "default"@, scoped_gw]
}

/// The arguments of `route` that change the default route.
pub fn macos_v6_change_default_args(scoped_gw: &str) -> (r: Vec<String>)
    ensures
        config::text_list(r@) == macos_v6_change_default_line(scoped_gw@),
{
    let r = args_of(["-n", "change", "-inet6", "default", scoped_gw].as_slice());
    assert(config::text_list(r@) =~= macos_v6_change_default_line(scoped_gw@));
    r
}

/// The arguments of `route` that take the default route away.
pub open spec fn macos_v6_delete_default_line() -> Seq<Seq<char>> {
    seq!["-n"@, "delete"@, "-inet6"@, "default"@]
}

/// The arguments of `route` that take the default route away.
pub fn macos_v6_delete_default_args() -> (r: Vec<String>)
    ensures
        config::text_list(r@) == macos_v6_delete_default_line(),
{
    let r = args_of(["-n", "delete", "-inet6", "default"].as_slice());
    assert(config::text_list(r@) =~= macos_v6_delete_default_line());
    r
}

/// The arguments of `route` that add a default route.
pub open spec fn macos_v6_add_default_line(scoped_gw: Seq<char>) -> Seq<Seq<char>> {
    seq!["-n"@, "add"@, "-inet6"@, "default"@, scoped_gw]
}

/// The arguments of `route` that add a default route.
pub fn macos_v6_add_default_args(scoped_gw: &str) -> (r: Vec<String>)
    ensures
        config::text_list(r@) == macos_v6_add_default_line(scoped_gw@),
{
    let r = args_of(["-n", "add", "-inet6", "default", scoped_gw].as_slice());
    assert(config::text_list(r@) =~= macos_v6_add_default_line(scoped_gw@));
    r
}

/// The arguments of `route` that lead an address past the tunnel.
pub open spec fn macos_v6_bypass_add_line(ip: u128, scoped_gw: Seq<char>) -> Seq<Seq<char>> {
    seq!["-n"@, "add"@, "-inet6"@, "-host"@, net::v6_text(ip), scoped_gw]
}

/// The arguments of `route` that lead an address past the tunnel.
pub fn macos_v6_bypass_add_args(ip: u128, scoped_gw: &str) -> (r: Vec<String>)
    ensures
        config::text_list(r@) == macos_v6_bypass_add_line(ip, scoped_gw@),
{
    let w4 = v6_string(ip);
    let r = args_of(["-n", "add", "-inet6", "-host", w4.as_str(), scoped_gw].as_slice());
    assert(config::text_list(r@) =~= macos_v6_bypass_add_line(ip, scoped_gw@));
    r
}

/// The arguments of `route` that lead an address no longer past the tunnel.
pub open spec fn macos_v6_bypass_del_line(ip: u128) -> Seq<Seq<char>> {
    seq!["-n"@, "delete"@, "-inet6"@, "-host"@, net::v6_text(ip)]
}

/// The arguments of `route` that lead an address no longer past the tunnel.
pub fn macos_v6_bypass_del_args(ip: u128) -> (r: Vec<String>)
    ensures
        config::text_list(r@) == macos_v6_bypass_del_line(ip),
{
    let w4 = v6_string(ip);
    let r = args_of(["-n", "delete", "-inet6", "-host", w4.as_str()].as_slice());
    assert(config::text_list(r@) =~= macos_v6_bypass_del_line(ip));
    r
}

// ---------------------------------------------------------------------------
// IPv6 on Windows
// ---------------------------------------------------------------------------

/// The arguments of `netsh` that give the tunnel its IPv6 address.
pub open spec fn windows_v6_addr_line(iface: Seq<char>) -> Seq<Seq<char>> {
    seq!["interface"@, "ipv6"@, "set"@, "address"@, "interface="@ + iface, "address="@ + (net::v6_text(TUN_IPV6) + "/64"@)]
}

/// The arguments of `netsh` that give the tunnel its IPv6 address.
pub fn windows_v6_addr_args(iface: &str) -> (r: Vec<String>)
    ensures
        config::text_list(r@) == windows_v6_addr_line(iface@),
{
    let w4 = joined("interface=", iface);
    let w5 = joined("address=", joined(v6_string(TUN_IPV6).as_str(), "/64").as_str());
    let r = args_of(["interface", "ipv6", "set", "address", w4.as_str(), w5.as_str()].as_slice());
    assert(config::text_list(r@) =~= windows_v6_addr_line(iface@));
    r
}

/// The arguments of `netsh` that put the tunnel before other interfaces.
pub open spec fn windows_v6_set_iface_metric_line(iface: Seq<char>) -> Seq<Seq<char>> {
    seq!["interface"@, "ipv6"@, "set"@, "interface"@, "interface="@ + iface, "metric=5"@]
}

/// The arguments of `netsh` that put the tunnel before other interfaces.
pub fn windows_v6_set_iface_metric_args(iface: &str) -> (r: Vec<String>)
    ensures
        config::text_list(r@) == windows_v6_set_iface_metric_line(iface@),
{
    let w4 = joined("interface=", iface);
    let r = args_of(["interface", "ipv6", "set", "interface", w4.as_str(), "metric=5"].as_slice());
    assert(config::text_list(r@) =~= windows_v6_set_iface_metric_line(iface@));
    r
}

/// The arguments of `netsh` that add a default route.
pub open spec fn windows_v6_add_default_line(iface: Seq<char>, gw: u128, metric: Option<u32>) -> Seq<
    Seq<char>,
> {
    let base = seq![
        "interface"@,
        "ipv6"@,
        "add"@,
        "route"@,
        "prefix=::/0"@,
        "interface="@ + iface,
        "nexthop="@ + net::v6_text(gw),
    ];
    match metric {
        Some(m) => base.push("metric="@ + text::decimal(m as nat)),
        None => base,
    }
}

/// The arguments of `netsh` that add a default route.
pub fn windows_v6_add_default_args(iface: &str, gw: u128, metric: Option<u32>) -> (r: Vec<String>)
    ensures
        config::text_list(r@) == windows_v6_add_default_line(iface@, gw, metric),
{
    let w5 = joined("interface=", iface);
    let w6 = joined("nexthop=", v6_string(gw).as_str());
    let mut r = args_of(
        ["interface", "ipv6", "add", "route", "prefix=::/0", w5.as_str(), w6.as_str()].as_slice(),
    );
    assert(config::text_list(r@) =~= windows_v6_add_default_line(iface@, gw, None));
    if let Some(m) = metric {
        let number = text::string_of(text::decimal_text(m as u64).as_slice());
        r.push(joined("metric=", number.as_str()));
        assert(config::text_list(r@) =~= windows_v6_add_default_line(iface@, gw, metric));
    }
    r
}

/// The arguments of `netsh` that take a default route away.
pub open spec fn windows_v6_del_default_line(iface: Seq<char>) -> Seq<Seq<char>> {
    seq!["interface"@, "ipv6"@, "delete"@, "route"@, "prefix=::/0"@, "interface="@ + iface]
}

/// The arguments of `netsh` that take a default route away.
pub fn windows_v6_del_default_args(iface: &str) -> (r: Vec<String>)
    ensures
        config::text_list(r@) == windows_v6_del_default_line(iface@),
{
    let w5 = joined("interface=", iface);
    let r = args_of(["interface", "ipv6", "delete", "route", "prefix=::/0", w5.as_str()].as_slice());
    assert(config::text_list(r@) =~= windows_v6_del_default_line(iface@));
    r
}

/// The arguments of `netsh` that lead an address past the tunnel.
pub open spec fn windows_v6_bypass_add_line(ip: u128, iface: Seq<char>, gw: u128) -> Seq<Seq<char>> {
    seq!["interface"@, "ipv6"@, "add"@, "route"@, "prefix="@ + (net::v6_text(ip) + "/128"@), "interface="@ + iface, "nexthop="@ + net::v6_text(gw), "metric=5"@]
}

/// The arguments of `netsh` that lead an address past the tunnel.
pub fn windows_v6_bypass_add_args(ip: u128, iface: &str, gw: u128) -> (r: Vec<String>)
    ensures
        config::text_list(r@) == windows_v6_bypass_add_line(ip, iface@, gw),
{
    let w4 = joined("prefix=", joined(v6_string(ip).as_str(), "/128").as_str());
    let w5 = joined("interface=", iface);
    let w6 = joined("nexthop=", v6_string(gw).as_str());
    let r = args_of(["interface", "ipv6", "add", "route", w4.as_str(), w5.as_str(), w6.as_str(), "metric=5"].as_slice());
    assert(config::text_list(r@) =~= windows_v6_bypass_add_line(ip, iface@, gw));
    r
}

/// The arguments of `netsh` that lead an address no longer past the tunnel.
pub open spec fn windows_v6_bypass_del_line(ip: u128, iface: Seq<char>) -> Seq<Seq<char>> {
    seq!["interface"@, "ipv6"@, "delete"@, "route"@, "prefix="@ + (net::v6_text(ip) + "/128"@), "interface="@ + iface]
}

/// The arguments of `netsh` that lead an address no longer past the tunnel.
pub fn windows_v6_bypass_del_args(ip: u128, iface: &str) -> (r: Vec<String>)
    ensures
        config::text_list(r@) == windows_v6_bypass_del_line(ip, iface@),
{
    let w4 = joined("prefix=", joined(v6_string(ip).as_str(), "/128").as_str());
    let w5 = joined("interface=", iface);
    let r = args_of(["interface", "ipv6", "delete", "route", w4.as_str(), w5.as_str()].as_slice());
    assert(config::text_list(r@) =~= windows_v6_bypass_del_line(ip, iface@));
    r
}

// ---------------------------------------------------------------------------
// Routes for single IPv4 addresses
// ---------------------------------------------------------------------------

/// The command that leads an address past the tunnel, while routes are set up.
pub open spec fn setup_bypass_route_line(system: System, ip: u32, gateway: u32, iface: Seq<char>) -> CommandModel {
    match system {
        System::Windows => command_of("route"@, seq!["add"@, net::v4_text(ip), "mask"@, "255.255.255.255"@, net::v4_text(gateway), "metric"@, "5"@]),
        System::Linux => command_of("ip"@, seq!["route"@, "add"@, net::v4_text(ip) + "/32"@, "via"@, net::v4_text(gateway), "dev"@, iface]),
        System::Macos => command_of("route"@, seq!["-n"@, "add"@, "-host"@, net::v4_text(ip), net::v4_text(gateway)]),
    }
}

/// The command that leads an address past the tunnel, while routes are set up.
pub fn setup_bypass_route(system: System, ip: u32, gateway: u32, iface: &str) -> (r: Command)
    ensures
        r@ == setup_bypass_route_line(system, ip, gateway, iface@),
{
    match system {
        System::Windows => {
            let w1 = v4_string(ip);
            let w4 = v4_string(gateway);
            let args = args_of(["add", w1.as_str(), "mask", "255.255.255.255", w4.as_str(), "metric", "5"].as_slice());
            let r = command("route", args);
            assert(r@.args =~= setup_bypass_route_line(system, ip, gateway, iface@).args);
            r
        },
        System::Linux => {
            let w2 = joined(v4_string(ip).as_str(), "/32");
            let w4 = v4_string(gateway);
            let args = args_of(["route", "add", w2.as_str(), "via", w4.as_str(), "dev", iface].as_slice());
            let r = command("ip", args);
            assert(r@.args =~= setup_bypass_route_line(system, ip, gateway, iface@).args);
            r
        },
        System::Macos => {
            let w3 = v4_string(ip);
            let w4 = v4_string(gateway);
            let args = args_of(["-n", "add", "-host", w3.as_str(), w4.as_str()].as_slice());
            let r = command("route", args);
            assert(r@.args =~= setup_bypass_route_line(system, ip, gateway, iface@).args);
            r
        },
    }
}

/// The command that leads an address past the tunnel, while it runs.
pub open spec fn add_bypass_route_line(system: System, ip: u32, gateway: u32) -> CommandModel {
    match system {
        System::Windows => command_of("route"@, seq!["add"@, net::v4_text(ip), "mask"@, "255.255.255.255"@, net::v4_text(gateway), "metric"@, "5"@]),
        System::Linux => command_of("ip"@, seq!["route"@, "add"@, net::v4_text(ip) + "/32"@, "via"@, net::v4_text(gateway)]),
        System::Macos => command_of("route"@, seq!["-n"@, "add"@, "-host"@, net::v4_text(ip), net::v4_text(gateway)]),
    }
}

/// The command that leads an address past the tunnel, while it runs.
pub fn add_bypass_route(system: System, ip: u32, gateway: u32) -> (r: Command)
    ensures
        r@ == add_bypass_route_line(system, ip, gateway),
{
    match system {
        System::Windows => {
            let w1 = v4_string(ip);
            let w4 = v4_string(gateway);
            let args = args_of(["add", w1.as_str(), "mask", "255.255.255.255", w4.as_str(), "metric", "5"].as_slice());
            let r = command("route", args);
            assert(r@.args =~= add_bypass_route_line(system, ip, gateway).args);
            r
        },
        System::Linux => {
            let w2 = joined(v4_string(ip).as_str(), "/32");
            let w4 = v4_string(gateway);
            let args = args_of(["route", "add", w2.as_str(), "via", w4.as_str()].as_slice());
            let r = command("ip", args);
            assert(r@.args =~= add_bypass_route_line(system, ip, gateway).args);
            r
        },
        System::Macos => {
            let w3 = v4_string(ip);
            let w4 = v4_string(gateway);
            let args = args_of(["-n", "add", "-host", w3.as_str(), w4.as_str()].as_slice());
            let r = command("route", args);
            assert(r@.args =~= add_bypass_route_line(system, ip, gateway).args);
            r
        },
    }
}

/// The command that leads an address no longer past the tunnel, while it runs.
pub open spec fn remove_bypass_route_line(system: System, ip: u32, gateway: u32) -> CommandModel {
    match system {
        System::Windows => command_of("route"@, seq!["delete"@, net::v4_text(ip), "mask"@, "255.255.255.255"@, net::v4_text(gateway)]),
        System::Linux => command_of("ip"@, seq!["route"@, "del"@, net::v4_text(ip) + "/32"@]),
        System::Macos => command_of("route"@, seq!["-n"@, "delete"@, "-host"@, net::v4_text(ip)]),
    }
}

/// The command that leads an address no longer past the tunnel, while it runs.
pub fn remove_bypass_route(system: System, ip: u32, gateway: u32) -> (r: Command)
    ensures
        r@ == remove_bypass_route_line(system, ip, gateway),
{
    match system {
        System::Windows => {
            let w1 = v4_string(ip);
            let w4 = v4_string(gateway);
            let args = args_of(["delete", w1.as_str(), "mask", "255.255.255.255", w4.as_str()].as_slice());
            let r = command("route", args);
            assert(r@.args =~= remove_bypass_route_line(system, ip, gateway).args);
            r
        },
        System::Linux => {
            let w2 = joined(v4_string(ip).as_str(), "/32");
            let args = args_of(["route", "del", w2.as_str()].as_slice());
            let r = command("ip", args);
            assert(r@.args =~= remove_bypass_route_line(system, ip, gateway).args);
            r
        },
        System::Macos => {
            let w3 = v4_string(ip);
            let args = args_of(["-n", "delete", "-host", w3.as_str()].as_slice());
            let r = command("route", args);
            assert(r@.args =~= remove_bypass_route_line(system, ip, gateway).args);
            r
        },
    }
}

/// The command that leads an address no longer past the tunnel, when all ends.
pub open spec fn restore_bypass_route_line(system: System, ip: u32) -> CommandModel {
    match system {
        System::Windows => command_of("route"@, seq!["delete"@, net::v4_text(ip)]),
        System::Linux => command_of("ip"@, seq!["route"@, "del"@, net::v4_text(ip) + "/32"@]),
        System::Macos => command_of("route"@, seq!["-n"@, "delete"@, "-host"@, net::v4_text(ip)]),
    }
}

/// The command that leads an address no longer past the tunnel, when all ends.
pub fn restore_bypass_route(system: System, ip: u32) -> (r: Command)
    ensures
        r@ == restore_bypass_route_line(system, ip),
{
    match system {
        System::Windows => {
            let w1 = v4_string(ip);
            let args = args_of(["delete", w1.as_str()].as_slice());
            let r = command("route", args);
            assert(r@.args =~= restore_bypass_route_line(system, ip).args);
            r
        },
        System::Linux => {
            let w2 = joined(v4_string(ip).as_str(), "/32");
            let args = args_of(["route", "del", w2.as_str()].as_slice());
            let r = command("ip", args);
            assert(r@.args =~= restore_bypass_route_line(system, ip).args);
            r
        },
        System::Macos => {
            let w3 = v4_string(ip);
            let args = args_of(["-n", "delete", "-host", w3.as_str()].as_slice());
            let r = command("route", args);
            assert(r@.args =~= restore_bypass_route_line(system, ip).args);
            r
        },
    }
}

// ---------------------------------------------------------------------------
// Routes for single IPv6 addresses
// ---------------------------------------------------------------------------

/// The command that leads an IPv6 address past the tunnel.
pub open spec fn add_bypass_route_v6_line(
    system: System,
    ip: u128,
    gateway: u128,
    iface: Seq<char>,
) -> CommandModel {
    match system {
        System::Windows => command_of("netsh"@, windows_v6_bypass_add_line(ip, iface, gateway)),
        System::Linux => command_of("ip"@, linux_v6_bypass_add_line(ip, gateway, iface)),
        System::Macos => command_of(
            "route"@,
            macos_v6_bypass_add_line(ip, scoped_gateway_text(gateway, iface)),
        ),
    }
}

/// The command that leads an IPv6 address past the tunnel.
pub fn add_bypass_route_v6(system: System, ip: u128, gateway: u128, iface: &str) -> (r: Command)
    ensures
        r@ == add_bypass_route_v6_line(system, ip, gateway, iface@),
{
    match system {
        System::Windows => command("netsh", windows_v6_bypass_add_args(ip, iface, gateway)),
        System::Linux => command("ip", linux_v6_bypass_add_args(ip, gateway, iface)),
        System::Macos => command(
            "route",
            macos_v6_bypass_add_args(ip, scoped_v6_gateway(gateway, iface).as_str()),
        ),
    }
}

/// The command that leads an IPv6 address no longer past the tunnel.
pub open spec fn remove_bypass_route_v6_line(system: System, ip: u128, iface: Seq<char>) -> CommandModel {
    match system {
        System::Windows => command_of("netsh"@, windows_v6_bypass_del_line(ip, iface)),
        System::Linux => command_of("ip"@, linux_v6_bypass_del_line(ip)),
        System::Macos => command_of("route"@, macos_v6_bypass_del_line(ip)),
    }
}

/// The command that leads an IPv6 address no longer past the tunnel.
pub fn remove_bypass_route_v6(system: System, ip: u128, iface: &str) -> (r: Command)
    ensures
        r@ == remove_bypass_route_v6_line(system, ip, iface@),
{
    match system {
        System::Windows => command("netsh", windows_v6_bypass_del_args(ip, iface)),
        System::Linux => command("ip", linux_v6_bypass_del_args(ip)),
        System::Macos => command("route", macos_v6_bypass_del_args(ip)),
    }
}

/// The command that gives the tunnel its IPv6 address.
pub open spec fn tun_v6_address_line(system: System, tun_name: Seq<char>) -> CommandModel {
    match system {
        System::Windows => command_of("netsh"@, windows_v6_addr_line(tun_name)),
        System::Linux => command_of("ip"@, linux_v6_addr_line(tun_name)),
        System::Macos => command_of("ifconfig"@, macos_v6_addr_line(tun_name)),
    }
}

/// The command that gives the tunnel its IPv6 address.
pub fn tun_v6_address(system: System, tun_name: &str) -> (r: Command)
    ensures
        r@ == tun_v6_address_line(system, tun_name@),
{
    match system {
        System::Windows => command("netsh", windows_v6_addr_args(tun_name)),
        System::Linux => command("ip", linux_v6_addr_args(tun_name)),
        System::Macos => command("ifconfig", macos_v6_addr_args(tun_name)),
    }
}

// ---------------------------------------------------------------------------
// Default routes
// ---------------------------------------------------------------------------

/// Linux: the default route is taken from a gateway on a device.
pub open spec fn linux_default_del_dev_line(gw: u32, dev: Seq<char>) -> CommandModel {
    command_of("ip"@, seq!["route"@, "del"@, "default"@, "via"@, net::v4_text(gw), "dev"@, dev])
}

/// Linux: the default route is taken from a gateway on a device.
pub fn linux_default_del_dev(gw: u32, dev: &str) -> (r: Command)
    ensures
        r@ == linux_default_del_dev_line(gw, dev@),
{
    let w4 = v4_string(gw);
    let args = args_of(["route", "del", "default", "via", w4.as_str(), "dev", dev].as_slice());
    let r = command("ip", args);
    assert(r@.args =~= linux_default_del_dev_line(gw, dev@).args);
    r
}

/// Linux: the default route is taken from a gateway.
pub open spec fn linux_default_del_line(gw: u32) -> CommandModel {
    command_of("ip"@, seq!["route"@, "del"@, "default"@, "via"@, net::v4_text(gw)])
}

/// Linux: the default route is taken from a gateway.
pub fn linux_default_del(gw: u32) -> (r: Command)
    ensures
        r@ == linux_default_del_line(gw),
{
    let w4 = v4_string(gw);
    let args = args_of(["route", "del", "default", "via", w4.as_str()].as_slice());
    let r = command("ip", args);
    assert(r@.args =~= linux_default_del_line(gw).args);
    r
}

/// Linux: the tunnel becomes the default route, before the usual one.
pub open spec fn linux_default_add_tun_line(gw: u32, dev: Seq<char>) -> CommandModel {
    command_of("ip"@, seq!["route"@, "add"@, "default"@, "via"@, net::v4_text(gw), "dev"@, dev, "metric"@, "10"@])
}

/// Linux: the tunnel becomes the default route, before the usual one.
pub fn linux_default_add_tun(gw: u32, dev: &str) -> (r: Command)
    ensures
        r@ == linux_default_add_tun_line(gw, dev@),
{
    let w4 = v4_string(gw);
    let args = args_of(["route", "add", "default", "via", w4.as_str(), "dev", dev, "metric", "10"].as_slice());
    let r = command("ip", args);
    assert(r@.args =~= linux_default_add_tun_line(gw, dev@).args);
    r
}

/// Linux: a gateway on a device becomes the default route.
pub open spec fn linux_default_add_line(gw: u32, dev: Seq<char>) -> CommandModel {
    command_of("ip"@, seq!["route"@, "add"@, "default"@, "via"@, net::v4_text(gw), "dev"@, dev])
}

/// Linux: a gateway on a device becomes the default route.
pub fn linux_default_add(gw: u32, dev: &str) -> (r: Command)
    ensures
        r@ == linux_default_add_line(gw, dev@),
{
    let w4 = v4_string(gw);
    let args = args_of(["route", "add", "default", "via", w4.as_str(), "dev", dev].as_slice());
    let r = command("ip", args);
    assert(r@.args =~= linux_default_add_line(gw, dev@).args);
    r
}

/// macOS: the default route is changed.
pub open spec fn macos_default_change_line(gw: u32) -> CommandModel {
    command_of("route"@, seq!["-n"@, "change"@, "default"@, net::v4_text(gw)])
}

/// macOS: the default route is changed.
pub fn macos_default_change(gw: u32) -> (r: Command)
    ensures
        r@ == macos_default_change_line(gw),
{
    let w3 = v4_string(gw);
    let args = args_of(["-n", "change", "default", w3.as_str()].as_slice());
    let r = command("route", args);
    assert(r@.args =~= macos_default_change_line(gw).args);
    r
}

/// macOS: the default route is taken away.
pub open spec fn macos_default_delete_line() -> CommandModel {
    command_of("route"@, seq!["-n"@, "delete"@, "default"@])
}

/// macOS: the default route is taken away.
pub fn macos_default_delete() -> (r: Command)
    ensures
        r@ == macos_default_delete_line(),
{
    let args = args_of(["-n", "delete", "default"].as_slice());
    let r = command("route", args);
    assert(r@.args =~= macos_default_delete_line().args);
    r
}

/// macOS: a default route is added.
pub open spec fn macos_default_add_line(gw: u32) -> CommandModel {
    command_of("route"@, seq!["-n"@, "add"@, "default"@, net::v4_text(gw)])
}

/// macOS: a default route is added.
pub fn macos_default_add(gw: u32) -> (r: Command)
    ensures
        r@ == macos_default_add_line(gw),
{
    let w3 = v4_string(gw);
    let args = args_of(["-n", "add", "default", w3.as_str()].as_slice());
    let r = command("route", args);
    assert(r@.args =~= macos_default_add_line(gw).args);
    r
}

/// Windows: the default route is taken from a gateway.
pub open spec fn windows_default_delete_line(gw: u32) -> CommandModel {
    command_of("route"@, seq!["delete"@, "0.0.0.0"@, "mask"@, "0.0.0.0"@, net::v4_text(gw)])
}

/// Windows: the default route is taken from a gateway.
pub fn windows_default_delete(gw: u32) -> (r: Command)
    ensures
        r@ == windows_default_delete_line(gw),
{
    let w4 = v4_string(gw);
    let args = args_of(["delete", "0.0.0.0", "mask", "0.0.0.0", w4.as_str()].as_slice());
    let r = command("route", args);
    assert(r@.args =~= windows_default_delete_line(gw).args);
    r
}

/// Windows: the tunnel becomes the default route, before the usual one.
pub open spec fn windows_default_add_tun_line(gw: u32) -> CommandModel {
    command_of("route"@, seq!["add"@, "0.0.0.0"@, "mask"@, "0.0.0.0"@, net::v4_text(gw), "metric"@, "3"@])
}

/// Windows: the tunnel becomes the default route, before the usual one.
pub fn windows_default_add_tun(gw: u32) -> (r: Command)
    ensures
        r@ == windows_default_add_tun_line(gw),
{
    let w4 = v4_string(gw);
    let args = args_of(["add", "0.0.0.0", "mask", "0.0.0.0", w4.as_str(), "metric", "3"].as_slice());
    let r = command("route", args);
    assert(r@.args =~= windows_default_add_tun_line(gw).args);
    r
}

/// Windows: a gateway becomes the default route.
pub open spec fn windows_default_add_line(gw: u32) -> CommandModel {
    command_of("route"@, seq!["add"@, "0.0.0.0"@, "mask"@, "0.0.0.0"@, net::v4_text(gw), "metric"@, "5"@])
}

/// Windows: a gateway becomes the default route.
pub fn windows_default_add(gw: u32) -> (r: Command)
    ensures
        r@ == windows_default_add_line(gw),
{
    let w4 = v4_string(gw);
    let args = args_of(["add", "0.0.0.0", "mask", "0.0.0.0", w4.as_str(), "metric", "5"].as_slice());
    let r = command("route", args);
    assert(r@.args =~= windows_default_add_line(gw).args);
    r
}

/// Linux: the tunnel becomes the default route for IPv6.
pub fn linux_v6_default_add(tun_gw: u128, dev: &str) -> (r: Command)
    ensures
        r@ == command_of("ip"@, linux_v6_default_add_line(tun_gw, dev@)),
{
    command("ip", linux_v6_default_add_args(tun_gw, dev))
}

/// Linux: the default route for IPv6 is taken from the tunnel.
pub fn linux_v6_default_del(tun_gw: u128, dev: &str) -> (r: Command)
    ensures
        r@ == command_of("ip"@, linux_v6_default_del_line(tun_gw, dev@)),
{
    command("ip", linux_v6_default_del_args(tun_gw, dev))
}

/// macOS: the default route for IPv6 is changed.
pub fn macos_v6_change_default(scoped_gw: &str) -> (r: Command)
    ensures
        r@ == command_of("route"@, macos_v6_change_default_line(scoped_gw@)),
{
    command("route", macos_v6_change_default_args(scoped_gw))
}

/// macOS: the default route for IPv6 is taken away.
pub fn macos_v6_delete_default() -> (r: Command)
    ensures
        r@ == command_of("route"@, macos_v6_delete_default_line()),
{
    command("route", macos_v6_delete_default_args())
}

/// macOS: a default route for IPv6 is added.
pub fn macos_v6_add_default(scoped_gw: &str) -> (r: Command)
    ensures
        r@ == command_of("route"@, macos_v6_add_default_line(scoped_gw@)),
{
    command("route", macos_v6_add_default_args(scoped_gw))
}

/// Windows: the tunnel is put before other interfaces.
pub fn windows_v6_set_iface_metric(iface: &str) -> (r: Command)
    ensures
        r@ == command_of("netsh"@, windows_v6_set_iface_metric_line(iface@)),
{
    command("netsh", windows_v6_set_iface_metric_args(iface))
}

/// Windows: a default route for IPv6 is added.
pub fn windows_v6_add_default(iface: &str, gw: u128, metric: Option<u32>) -> (r: Command)
    ensures
        r@ == command_of("netsh"@, windows_v6_add_default_line(iface@, gw, metric)),
{
    command("netsh", windows_v6_add_default_args(iface, gw, metric))
}

/// Windows: a default route for IPv6 is taken away.
pub fn windows_v6_del_default(iface: &str) -> (r: Command)
    ensures
        r@ == command_of("netsh"@, windows_v6_del_default_line(iface@)),
{
    command("netsh", windows_v6_del_default_args(iface))
}

} // verus!
