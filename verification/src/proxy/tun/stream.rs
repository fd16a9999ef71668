//! The traffic in the tunnel.

use vstd::prelude::*;

use crate::net;
use crate::net::{IpAddr, SocketAddr};
use crate::platform::Platform;
use crate::proxy::tun::commands;
use crate::proxy::tun::commands::{Command, TUN_GATEWAY, TUN_GATEWAY_V6};
use crate::proxy::tun::environment;
use crate::proxy::tun::icmp;
use crate::proxy::tun::routes::TunRouteInfo;
use crate::router::engine;
use crate::router::engine::Router;
use crate::text;

verus! {

broadcast use {
    vstd::seq::group_seq_axioms,
    vstd::slice::group_slice_axioms,
    vstd::string::group_string_axioms,
    vstd::std_specs::vec::group_vec_axioms,
};

// ---------------------------------------------------------------------------
// The device
// ---------------------------------------------------------------------------

/// The largest segment that fits into a packet behind the heads of IPv6 and
/// TCP.
pub fn tun_tcp_mss(mtu: u16) -> (r: u16)
    requires
        mtu >= 60,
    ensures
        r == mss_of(mtu),
{
    mtu - 60
}

/// The path of the switch that lets packets back in whose source lies
/// elsewhere.
pub open spec fn rp_filter_path_text(tun_name: Seq<char>) -> Seq<char> {
    "/proc/sys/net/ipv4/conf/"@ + tun_name + "/rp_filter"@
}

/// What is to be written, where, to let packets back in whose source lies
/// elsewhere: only on Linux.
pub fn relax_tun_rp_filter(platform: Platform, tun_name: &str) -> (r: Option<(String, &'static str)>)
    ensures
        platform == Platform::Linux ==> (r matches Some(w) && w.0@ == rp_filter_path_text(tun_name@)
            && w.1@ == "2"@),
        platform != Platform::Linux ==> r is None,
{
    match platform {
        Platform::Linux => {
            let mut out: Vec<char> = Vec::new();
            text::append_str(&mut out, "/proc/sys/net/ipv4/conf/");
            text::append_str(&mut out, tun_name);
            text::append_str(&mut out, "/rp_filter");
            assert(out@ =~= rp_filter_path_text(tun_name@));
            Some((text::string_of(out.as_slice()), "2"))
        },
        _ => None,
    }
}

/// How often the switch is written: it may come up after the device.
pub const RELAX_TRIES: u32 = 10;

/// What follows from a try to write the switch.
#[derive(Debug, Clone, Copy, PartialEq, Eq, Structural)]
pub enum RelaxStep {
    /// It is written.
    Done,
    /// After a pause it is written again.
    Pause,
    /// It cannot be written.
    GiveUp,
}

/// The tries to write the switch.
pub struct RelaxTries {
    failed: u32,
}

impl View for RelaxTries {
    type V = nat;

    closed spec fn view(&self) -> nat {
        self.failed as nat
    }
}

impl RelaxTries {
    /// No try was made.
    pub fn new() -> (r: Self)
        ensures
            r@ == 0,
    {
        RelaxTries { failed: 0 }
    }

    /// The switch was written, or could not be.
    pub fn on_result(&mut self, ok: bool) -> (r: RelaxStep)
        requires
            old(self)@ < RELAX_TRIES,
        ensures
            final(self)@ == (if ok {
                old(self)@
            } else {
                old(self)@ + 1
            }),
            r == (if ok {
                RelaxStep::Done
            } else if old(self)@ + 1 < RELAX_TRIES {
                RelaxStep::Pause
            } else {
                RelaxStep::GiveUp
            }),
    {
        if ok {
            return RelaxStep::Done;
        }
        self.failed = self.failed + 1;
        if self.failed < RELAX_TRIES {
            RelaxStep::Pause
        } else {
            RelaxStep::GiveUp
        }
    }
}

/// The device gets its IPv6 address. On Windows, where it may not be ready,
/// that is tried three times.
pub struct ConfigureV6 {
    platform: Platform,
    tun_name: String,
    tries: u32,
}

/// The same as contracts speak of it.
#[verifier::ext_equal]
pub struct ConfigureModel {
    pub platform: Platform,
    pub tun_name: Seq<char>,
    /// Tries that failed.
    pub tries: nat,
}

/// What comes next.
#[derive(Debug)]
pub enum ConfigureStep {
    Run(Command),
    /// After a pause the command is run again.
    Pause,
    /// The gateway of the device, or nothing: then the tunnel takes IPv4
    /// only.
    Done(Option<u128>),
}

impl View for ConfigureV6 {
    type V = ConfigureModel;

    closed spec fn view(&self) -> ConfigureModel {
        ConfigureModel {
            platform: self.platform,
            tun_name: self.tun_name@,
            tries: self.tries as nat,
        }
    }
}

/// How often the command is tried.
pub open spec fn tries_allowed(platform: Platform) -> nat {
    if platform == Platform::Windows {
        3
    } else {
        1
    }
}

impl ConfigureV6 {
    /// The device is to get its IPv6 address.
    pub fn new(platform: Platform, tun_name: &str) -> (r: Self)
        ensures
            r@ == (ConfigureModel { platform, tun_name: tun_name@, tries: 0 }),
    {
        ConfigureV6 {
            platform,
            tun_name: text::string_of(text::chars_of(tun_name).as_slice()),
            tries: 0,
        }
    }

    /// The command that is to be run.
    pub fn step(&self) -> (r: ConfigureStep)
        ensures
            match self@.platform.known() {
                Some(system) => r matches ConfigureStep::Run(c) && c@
                    == commands::tun_v6_address_line(system, self@.tun_name),
                None => r == ConfigureStep::Done(None),
            },
    {
        match self.platform.system() {
            Some(system) => ConfigureStep::Run(
                commands::tun_v6_address(system, self.tun_name.as_str()),
            ),
            None => ConfigureStep::Done(None),
        }
    }

    /// The command succeeded or failed.
    pub fn on_result(&mut self, ok: bool) -> (r: ConfigureStep)
        requires
            old(self)@.tries < tries_allowed(old(self)@.platform),
        ensures
            ok ==> r == ConfigureStep::Done(Some(TUN_GATEWAY_V6)) && final(self)@ == old(self)@,
            !ok ==> final(self)@ == (ConfigureModel { tries: old(self)@.tries + 1, ..old(self)@ }),
            !ok && final(self)@.tries < tries_allowed(old(self)@.platform) ==> r
                == ConfigureStep::Pause,
            !ok && final(self)@.tries >= tries_allowed(old(self)@.platform) ==> r
                == ConfigureStep::Done(None),
    {
        if ok {
            return ConfigureStep::Done(Some(TUN_GATEWAY_V6));
        }
        self.tries = self.tries + 1;
        let allowed: u32 = match self.platform {
            Platform::Windows => 3,
            _ => 1,
        };
        if self.tries < allowed {
            ConfigureStep::Pause
        } else {
            ConfigureStep::Done(None)
        }
    }
}

// ---------------------------------------------------------------------------
// The proxy
// ---------------------------------------------------------------------------

/// The proxy on the tunnel.
pub struct TunProxy {
    running: bool,
    tun_name: String,
    ipv6_gateway: Option<u128>,
}

/// The same as contracts speak of it.
#[verifier::ext_equal]
pub struct ProxyModel {
    pub running: bool,
    pub tun_name: Seq<char>,
    pub ipv6_gateway: Option<u128>,
}

/// What happens while the proxy waits for traffic.
#[derive(Debug, Clone, Copy, PartialEq, Eq, Structural)]
pub enum TunEvent {
    /// The proxy is to stop.
    Shutdown,
    /// Traffic came.
    Accepted,
    /// The tunnel failed.
    AcceptFailed,
    /// Some traffic is over.
    StreamEnded,
}

/// What the proxy does.
#[derive(Debug, Clone, Copy, PartialEq, Eq, Structural)]
pub enum TunAction {
    /// It waits for the next event.
    Wait,
    /// It handles what came.
    Handle,
    /// It ends all traffic and is done.
    Finish,
}

impl View for TunProxy {
    type V = ProxyModel;

    closed spec fn view(&self) -> ProxyModel {
        ProxyModel {
            running: self.running,
            tun_name: self.tun_name@,
            ipv6_gateway: self.ipv6_gateway,
        }
    }
}

impl TunProxy {
    /// The proxy starts on a device that was made. Where the device does not
    /// say its name, it is the one that was asked for.
    pub fn start(platform: Platform, device_name: Option<&str>, ipv6_gateway: Option<u128>) -> (r:
        Self)
        ensures
            r@ == (ProxyModel {
                running: true,
                tun_name: match device_name {
                    Some(n) => n@,
                    None => if platform == Platform::Macos {
                        "utun3"@
                    } else {
                        "sockrocket-tun"@
                    },
                },
                ipv6_gateway,
            }),
    {
        let name = match device_name {
            Some(n) => n,
            None => environment::default_tun_name(platform),
        };
        TunProxy {
            running: true,
            tun_name: text::string_of(text::chars_of(name).as_slice()),
            ipv6_gateway,
        }
    }

    /// The name of the device.
    pub fn tun_name(&self) -> (r: &str)
        ensures
            r@ == self@.tun_name,
    {
        self.tun_name.as_str()
    }

    /// What is needed to lead traffic into the tunnel.
    pub fn route_info(&self) -> (r: TunRouteInfo)
        ensures
            r.tun_name@ == self@.tun_name,
            r.tun_gateway == TUN_GATEWAY,
            r.tun_gateway_v6 == self@.ipv6_gateway,
    {
        TunRouteInfo {
            tun_name: self.tun_name.clone(),
            tun_gateway: TUN_GATEWAY,
            tun_gateway_v6: self.ipv6_gateway,
        }
    }

    /// The proxy is to stop.
    pub fn stop(&mut self)
        ensures
            final(self)@ == (ProxyModel { running: false, ..old(self)@ }),
    {
        self.running = false;
    }

    /// What the proxy does before anything happens.
    pub fn begin(&self) -> (r: TunAction)
        ensures
            r == (if self@.running {
                TunAction::Wait
            } else {
                TunAction::Finish
            }),
    {
        if self.running {
            TunAction::Wait
        } else {
            TunAction::Finish
        }
    }

    /// What the proxy does when something happens. What came is handled even
    /// while the proxy stops; then it is done.
    pub fn on_event(&self, event: TunEvent) -> (r: TunAction)
        ensures
            is_event_action(self@, event, r),
    {
        match event {
            TunEvent::Shutdown => TunAction::Finish,
            TunEvent::AcceptFailed => TunAction::Finish,
            TunEvent::Accepted => TunAction::Handle,
            TunEvent::StreamEnded => self.begin(),
        }
    }
}

// ---------------------------------------------------------------------------
// One stream
// ---------------------------------------------------------------------------

/// What the pool of made-up addresses says of an address.
#[derive(Debug)]
pub struct PoolAnswer {
    /// The address is made up. Only IPv4 addresses are.
    pub is_fake: bool,
    /// The name for which it was made up, if that is still known.
    pub mapped: Option<String>,
    /// The domestic name for which the address was given lately.
    pub domestic: Option<String>,
}

/// A target: a host, a port, and whether it is reached without any proxy.
#[derive(Debug)]
pub struct DialTarget {
    pub host: String,
    pub port: u16,
    pub force_direct: bool,
}

/// The same as contracts speak of it.
#[verifier::ext_equal]
pub struct TargetModel {
    pub host: Seq<char>,
    pub port: u16,
    pub force_direct: bool,
}

impl View for DialTarget {
    type V = TargetModel;

    open spec fn view(&self) -> TargetModel {
        TargetModel { host: self.host@, port: self.port, force_direct: self.force_direct }
    }
}

/// The text for a made-up address without a name.
pub open spec fn no_mapping_text(ip: u32) -> Seq<char> {
    "fake-IP "@ + net::v4_text(ip) + " has no live mapping (evicted?) \u{2014} dropping stream"@
}

/// The rules on names, if there are rules.
pub open spec fn named_verdict(router: Option<&Router>, name: Seq<char>) -> Option<
    engine::RouteAction,
> {
    match router {
        Some(r) => engine::name_verdict(r@.rules, text::folded(name)),
        None => None,
    }
}

/// Where a stream to an address goes: by name for a made-up address;
/// without any proxy for a domestic one, unless a rule speaks of its name; as
/// it is otherwise. A made-up address without a name leads nowhere.
pub open spec fn target_of(addr: SocketAddr, pool: Option<&PoolAnswer>, router: Option<&Router>) -> Result<
    TargetModel,
    Seq<char>,
> {
    let plain = TargetModel {
        host: net::ip_text(addr.ip),
        port: addr.port,
        force_direct: false,
    };
    match pool {
        Some(p) => if addr.ip is V4 && p.is_fake {
            match p.mapped {
                Some(name) => Ok(
                    TargetModel { host: name@, port: addr.port, force_direct: false },
                ),
                None => Err(no_mapping_text(addr.ip->V4_0)),
            }
        } else {
            match p.domestic {
                Some(name) => if named_verdict(router, name@) is Some {
                    Ok(TargetModel { host: name@, port: addr.port, force_direct: false })
                } else {
                    Ok(TargetModel { force_direct: true, ..plain })
                },
                None => Ok(plain),
            }
        },
        None => Ok(plain),
    }
}

/// Where a stream to an address goes.
pub fn tun_dial_target(addr: SocketAddr, pool: Option<&PoolAnswer>, router: Option<&Router>) -> (r:
    Result<DialTarget, String>)
    requires
        router matches Some(x) ==> x.wf(),
    ensures
        match target_of(addr, pool, router) {
            Ok(t) => r matches Ok(d) && d@ == t,
            Err(e) => r matches Err(m) && m@ == e,
        },
{
    let host = text::string_of(net::format_ip(addr.ip).as_slice());
    if let Some(p) = pool {
        if p.is_fake {
            if let IpAddr::V4(v4) = addr.ip {
                return match &p.mapped {
                    Some(name) => Ok(
                        DialTarget { host: name.clone(), port: addr.port, force_direct: false },
                    ),
                    None => {
                        let mut out: Vec<char> = Vec::new();
                        text::append_str(&mut out, "fake-IP ");
                        text::append_chars(&mut out, net::format_v4(v4).as_slice());
                        text::append_str(
                            &mut out,
                            " has no live mapping (evicted?) \u{2014} dropping stream",
                        );
                        assert(out@ =~= no_mapping_text(v4));
                        Err(text::string_of(out.as_slice()))
                    },
                };
            }
        }
        if let Some(name) = &p.domestic {
            let ruled: bool = match router {
                Some(r) => r.route_domain_only(name.as_str()).is_some(),
                None => false,
            };
            if ruled {
                return Ok(DialTarget { host: name.clone(), port: addr.port, force_direct: false });
            }
            return Ok(DialTarget { host, port: addr.port, force_direct: true });
        }
    }
    Ok(DialTarget { host, port: addr.port, force_direct: false })
}

/// Host and port of an address.
pub fn addr_to_host_port(addr: SocketAddr) -> (r: (String, u16))
    ensures
        r.0@ == net::ip_text(addr.ip),
        r.1 == addr.port,
{
    (text::string_of(net::format_ip(addr.ip).as_slice()), addr.port)
}

/// What came out of the tunnel.
#[derive(Debug)]
pub enum TunStream {
    Tcp { dst: SocketAddr },
    Udp { dst: SocketAddr },
    /// A packet of another protocol.
    Packet { src: IpAddr, dst: IpAddr, protocol: u8, payload: Vec<u8> },
    /// A packet of no known network.
    Unknown,
}

/// What is done with it.
#[derive(Debug)]
pub enum StreamAction {
    /// It is joined with a connection to a target.
    Dial(DialTarget),
    /// Questions for names are answered.
    AnswerDns,
    /// It is closed, for this reason.
    Close(String),
    /// A packet is sent back.
    Reply(Vec<u8>),
    /// Nothing.
    Ignore,
}

/// What is done with a stream that has a target.
pub open spec fn is_dial(
    addr: SocketAddr,
    pool: Option<&PoolAnswer>,
    router: Option<&Router>,
    r: StreamAction,
) -> bool {
    match target_of(addr, pool, router) {
        Ok(t) => r matches StreamAction::Dial(d) && d@ == t,
        Err(e) => r matches StreamAction::Close(m) && m@ == e,
    }
}

/// What is done with a packet: only pings are answered.
pub open spec fn is_packet_action(
    src: IpAddr,
    dst: IpAddr,
    protocol: u8,
    payload: Seq<u8>,
    r: StreamAction,
) -> bool {
    let reply = match (src, dst) {
        (IpAddr::V4(_), _) => if protocol == 1 {
            icmp::v4_reply(payload)
        } else {
            None
        },
        (IpAddr::V6(s), IpAddr::V6(d)) => if protocol == 58 {
            icmp::v6_reply(payload, d, s)
        } else {
            None
        },
        _ => None,
    };
    match reply {
        Some(b) => r matches StreamAction::Reply(x) && x@ == b,
        None => r is Ignore,
    }
}

/// What is done with what came out of the tunnel.
pub open spec fn is_stream_action(
    stream: TunStream,
    pool: Option<&PoolAnswer>,
    router: Option<&Router>,
    r: StreamAction,
) -> bool {
    match stream {
        TunStream::Tcp { dst } => is_dial(dst, pool, router, r),
        TunStream::Udp { dst } => if dst.port == 53 {
            r is AnswerDns
        } else {
            is_dial(dst, pool, router, r)
        },
        TunStream::Packet { src, dst, protocol, payload } => is_packet_action(
            src,
            dst,
            protocol,
            payload@,
            r,
        ),
        TunStream::Unknown => r is Ignore,
    }
}

fn dial(addr: SocketAddr, pool: Option<&PoolAnswer>, router: Option<&Router>) -> (r: StreamAction)
    requires
        router matches Some(x) ==> x.wf(),
    ensures
        is_dial(addr, pool, router, r),
{
    match tun_dial_target(addr, pool, router) {
        Ok(t) => StreamAction::Dial(t),
        Err(e) => StreamAction::Close(e),
    }
}

fn reply_or_ignore(reply: Option<Vec<u8>>) -> (r: StreamAction)
    ensures
        match reply {
            Some(b) => r == StreamAction::Reply(b),
            None => r is Ignore,
        },
{
    match reply {
        Some(b) => StreamAction::Reply(b),
        None => StreamAction::Ignore,
    }
}

/// What is done with what came out of the tunnel. `pool` is what the pool of
/// made-up addresses says of the target, if there is a pool.
pub fn handle_tun_stream(stream: &TunStream, pool: Option<&PoolAnswer>, router: Option<&Router>) -> (r:
    StreamAction)
    requires
        router matches Some(x) ==> x.wf(),
    ensures
        is_stream_action(*stream, pool, router, r),
{
    match stream {
        TunStream::Tcp { dst } => dial(*dst, pool, router),
        TunStream::Udp { dst } => if dst.port == 53 {
            StreamAction::AnswerDns
        } else {
            dial(*dst, pool, router)
        },
        TunStream::Packet { src, dst, protocol, payload } => match *src {
            IpAddr::V4(_) => if *protocol == 1 {
                reply_or_ignore(icmp::icmpv4_echo_reply(payload.as_slice()))
            } else {
                StreamAction::Ignore
            },
            IpAddr::V6(s) => match *dst {
                IpAddr::V6(d) => if *protocol == 58 {
                    reply_or_ignore(icmp::icmpv6_echo_reply(payload.as_slice(), d, s))
                } else {
                    StreamAction::Ignore
                },
                IpAddr::V4(_) => StreamAction::Ignore,
            },
        },
        TunStream::Unknown => StreamAction::Ignore,
    }
}

/// A made-up address is never dialled itself: its name is, or nothing.
pub proof fn law_made_up_addresses_are_not_dialled(
    ip: u32,
    port: u16,
    pool: PoolAnswer,
    router: Option<&Router>,
)
    requires
        pool.is_fake,
    ensures
        match target_of(SocketAddr { ip: IpAddr::V4(ip), port }, Some(&pool), router) {
            Ok(t) => pool.mapped is Some && t.host == pool.mapped->0@ && !t.force_direct,
            Err(_) => pool.mapped is None,
        },
{
}

/// The user's rules come before the rule for domestic names: where one speaks
/// of the name, the stream takes the way of the rules.
pub proof fn law_rules_beat_domestic_names(addr: SocketAddr, pool: PoolAnswer, router: &Router)
    requires
        !pool.is_fake,
        pool.domestic is Some,
        engine::name_verdict(router@.rules, text::folded(pool.domestic->0@)) is Some,
    ensures
        target_of(addr, Some(&pool), Some(router)) == Ok::<TargetModel, Seq<char>>(
            TargetModel { host: pool.domestic->0@, port: addr.port, force_direct: false },
        ),
{
}

/// Without a pool every stream goes where it says.
pub proof fn law_without_a_pool_nothing_changes(addr: SocketAddr, router: Option<&Router>)
    ensures
        target_of(addr, None, router) == Ok::<TargetModel, Seq<char>>(
            TargetModel { host: net::ip_text(addr.ip), port: addr.port, force_direct: false },
        ),
{
}

// ---------------------------------------------------------------------------
// Questions for names
// ---------------------------------------------------------------------------

/// What is done with what was read of a stream of questions.
#[derive(Debug, Clone, Copy, PartialEq, Eq, Structural)]
pub enum DnsStep {
    /// The stream is over.
    Close,
    /// Too short for a question: the next is waited for.
    Skip,
    /// A question: it is answered, then the next is waited for.
    Answer,
}

/// What is done with what was read, by its length.
pub fn handle_tun_dns(n: usize) -> (r: DnsStep)
    ensures
        is_dns_step(n, r),
{
    if n == 0 {
        DnsStep::Close
    } else if n < 12 {
        DnsStep::Skip
    } else {
        DnsStep::Answer
    }
}

// ---------------------------------------------------------------------------
// What the tunnel is for
// ---------------------------------------------------------------------------

/// The stream has a target: it is a TCP stream, or a UDP stream that asks for
/// no names.
pub open spec fn leads_to(stream: TunStream, addr: SocketAddr) -> bool {
    match stream {
        TunStream::Tcp { dst } => dst == addr,
        TunStream::Udp { dst } => dst == addr && addr.port != 53,
        _ => false,
    }
}

/// A stream to a made-up address is joined with a connection to the name for
/// which the address was made up, at the port of the stream, by the way of the
/// rules; where the name is no longer known it is closed, and nothing is
/// dialled.
pub proof fn law_made_up_address_is_dialled_by_name(
    stream: TunStream,
    ip: u32,
    port: u16,
    pool: &PoolAnswer,
    router: Option<&Router>,
    r: StreamAction,
)
    requires
        leads_to(stream, SocketAddr { ip: IpAddr::V4(ip), port }),
        pool.is_fake,
        is_stream_action(stream, Some(pool), router, r),
    ensures
        pool.mapped matches Some(name) ==> (r matches StreamAction::Dial(d) && d.host@ == name@
            && d.port == port && !d.force_direct),
        pool.mapped is None ==> r is Close,
{
}

/// A stream to any other address is joined with a connection to that address
/// and port, by the way of the rules, where there is no pool, or the pool knows
/// of no domestic name.
pub proof fn law_plain_address_is_dialled_as_it_is(
    stream: TunStream,
    addr: SocketAddr,
    pool: Option<&PoolAnswer>,
    router: Option<&Router>,
    r: StreamAction,
)
    requires
        leads_to(stream, addr),
        pool matches Some(p) ==> (!p.is_fake || addr.ip is V6) && p.domestic is None,
        is_stream_action(stream, pool, router, r),
    ensures
        r matches StreamAction::Dial(d) && net::ip_of(d.host@) == Some(addr.ip) && d.port
            == addr.port && !d.force_direct,
{
    net::law_ip_text_is_read_back(addr.ip);
}

/// A stream to the address of a domestic name takes no proxy, and goes to the
/// address itself, unless a rule speaks of the name: then it goes to the name,
/// by the way of the rules.
pub proof fn law_domestic_address_is_dialled_directly(
    stream: TunStream,
    addr: SocketAddr,
    pool: &PoolAnswer,
    router: Option<&Router>,
    r: StreamAction,
)
    requires
        leads_to(stream, addr),
        !pool.is_fake || addr.ip is V6,
        pool.domestic is Some,
        is_stream_action(stream, Some(pool), router, r),
    ensures
        r matches StreamAction::Dial(d) && d.port == addr.port && ({
            let name = pool.domestic->0@;
            let ruled = router is Some && engine::name_verdict(
                router->0@.rules,
                text::folded(name),
            ) is Some;
            if ruled {
                d.host@ == name && !d.force_direct
            } else {
                net::ip_of(d.host@) == Some(addr.ip) && d.force_direct
            }
        }),
{
    net::law_ip_text_is_read_back(addr.ip);
}

/// Questions for names are answered here, whatever address they are sent to,
/// and nothing else is.
pub proof fn law_only_questions_for_names_are_answered(
    stream: TunStream,
    pool: Option<&PoolAnswer>,
    router: Option<&Router>,
    r: StreamAction,
)
    requires
        is_stream_action(stream, pool, router, r),
    ensures
        r is AnswerDns == (stream matches TunStream::Udp { dst } && dst.port == 53),
        r is Dial ==> stream is Tcp || stream is Udp,
        r is Reply ==> stream is Packet,
        stream is Unknown ==> r is Ignore,
{
}

/// A packet that is no ping leads to nothing: neither one of another protocol,
/// nor one between the two families of addresses.
pub proof fn law_other_packets_are_ignored(
    src: IpAddr,
    dst: IpAddr,
    protocol: u8,
    payload: Vec<u8>,
    pool: Option<&PoolAnswer>,
    router: Option<&Router>,
    r: StreamAction,
)
    requires
        is_stream_action(TunStream::Packet { src, dst, protocol, payload }, pool, router, r),
        src is V4 ==> protocol != 1,
        src is V6 ==> protocol != 58 || dst is V4,
    ensures
        r is Ignore,
{
}

/// A ping is answered: with what it carried, under the same identifier and
/// number, as a reply.
pub proof fn law_pings_are_answered(
    src: IpAddr,
    dst: IpAddr,
    protocol: u8,
    payload: Vec<u8>,
    pool: Option<&PoolAnswer>,
    router: Option<&Router>,
    r: StreamAction,
)
    requires
        is_stream_action(TunStream::Packet { src, dst, protocol, payload }, pool, router, r),
        src is V4 && protocol == 1 && payload@.len() >= 8 && payload@[0] == 8 && payload@[1] == 0
            || src is V6 && dst is V6 && protocol == 58 && 8 <= payload@.len() <= 0xffff_ffff
            && payload@[0] == 128 && payload@[1] == 0,
    ensures
        r matches StreamAction::Reply(x) && x@.len() == payload@.len() && x@[0] == (if src is V4 {
            0u8
        } else {
            129u8
        }) && x@[1] == 0 && x@.skip(4) == payload@.skip(4),
{
    let p = payload@;
    if src is V4 {
        icmp::law_reply_echoes(p);
        let x = icmp::v4_reply(p)->0;
        icmp::lemma_echo_bytes(x, p, 0, 8);
    } else {
        let s = src->V6_0;
        let d = dst->V6_0;
        icmp::law_v6_reply_echoes(p, d, s);
        let x = icmp::v6_reply(p, d, s)->0;
        icmp::lemma_echo_bytes(x, p, 129, 128);
    }
}

/// The longest segment of TCP that fits into a packet.
pub open spec fn mss_of(mtu: u16) -> int {
    mtu - 60
}

/// What the tunnel does with a message on the port for questions.
pub open spec fn is_dns_step(n: usize, r: DnsStep) -> bool {
    r == (if n == 0 {
        DnsStep::Close
    } else if n < 12 {
        DnsStep::Skip
    } else {
        DnsStep::Answer
    })
}

/// What the tunnel does about an event.
pub open spec fn is_event_action(m: ProxyModel, event: TunEvent, r: TunAction) -> bool {
    r == (match event {
        TunEvent::Shutdown => TunAction::Finish,
        TunEvent::AcceptFailed => TunAction::Finish,
        TunEvent::Accepted => TunAction::Handle,
        TunEvent::StreamEnded => if m.running {
            TunAction::Wait
        } else {
            TunAction::Finish
        },
    })
}

/// A segment fits into a packet behind an IPv6 header of 40 bytes and a TCP header of 20.
pub proof fn law_segment_fits_into_a_packet(mtu: u16)
    ensures
        40 + 20 + mss_of(mtu) == mtu,
{
}

/// Every message that has a whole header, of twelve bytes, is answered; an empty one is the end.
pub proof fn law_whole_questions_are_answered(n: usize, r: DnsStep)
    requires
        is_dns_step(n, r),
    ensures
        r is Answer <==> n >= 12,
        r is Close <==> n == 0,
{
}

/// A stream is handled, the end of one lets a running tunnel go on, and all else ends it.
pub proof fn law_tunnel_goes_on_while_it_runs(m: ProxyModel, event: TunEvent, r: TunAction)
    requires
        is_event_action(m, event, r),
    ensures
        r is Handle <==> event is Accepted,
        r is Wait <==> event is StreamEnded && m.running,
        r is Finish <==> event is Shutdown || event is AcceptFailed || event is StreamEnded
            && !m.running,
{
}

} // verus!
