//! What stands between a protocol and its server: name resolution, TLS,
//! REALITY and WebSocket.
//!
//! Sockets and handshakes are not part of this module. It says which address
//! is dialled, how each layer is set up, and what follows from the outcome.

use vstd::prelude::*;

use crate::bytes;
use crate::config;
use crate::config::{RealityConfig, TlsConfig, TransportConfig, TransportType, WsConfig};
use crate::crypto;
use crate::net;
use crate::net::{IpAddr, SocketAddr};
use crate::table;
use crate::table::TextMap;
use crate::text;

verus! {

broadcast use {
    vstd::seq::group_seq_axioms,
    vstd::map::group_map_axioms,
    vstd::set::group_set_axioms,
    vstd::slice::group_slice_axioms,
    vstd::array::group_array_axioms,
    vstd::string::group_string_axioms,
    vstd::std_specs::vec::group_vec_axioms,
};

/// Seconds for the TCP connection, and again for the TLS handshake.
pub const DEFAULT_CONNECT_TIMEOUT_SECS: u64 = 15;

/// Seconds that a connection waits for the probe of another one.
pub const PROBE_WAIT_SECS: u64 = 2;

/// Milliseconds between attempts on the addresses of one server.
pub const STAGGER_MS: u64 = 300;

/// Nanoseconds for which the addresses of a server are remembered.
pub const SERVER_ADDR_CACHE_TTL_NANOS: u64 = 60_000_000_000;

// ---------------------------------------------------------------------------
// Addresses
// ---------------------------------------------------------------------------

/// A host and a port as one text; an IPv6 address stands in brackets.
pub open spec fn host_port_text(host: Seq<char>, port: u16) -> Seq<char> {
    let bare = text::unbracketed(host);
    if net::v6_groups(bare) is Some {
        seq!['['] + bare + seq![']', ':'] + text::decimal(port as nat)
    } else {
        host + seq![':'] + text::decimal(port as nat)
    }
}

/// A host and a port as one text; an IPv6 address stands in brackets, whether
/// the host came with them or without.
pub fn format_host_port(host: &str, port: u16) -> (r: String)
    ensures
        r@ == host_port_text(host@, port),
{
    let chars = text::chars_of(host);
    let bare = text::trim_brackets(chars.as_slice());
    let mut out: Vec<char> = Vec::new();
    if net::parse_v6(bare).is_some() {
        out.push('[');
        text::append_chars(&mut out, bare);
        out.push(']');
        out.push(':');
    } else {
        text::append_chars(&mut out, chars.as_slice());
        out.push(':');
    }
    text::append_chars(&mut out, text::decimal_text(port as u64).as_slice());
    assert(out@ =~= host_port_text(host@, port));
    text::string_of(out.as_slice())
}

/// Host and port, joined by a colon.
pub open spec fn server_key_text(server: Seq<char>, port: u16) -> Seq<char> {
    server + seq![':'] + text::decimal(port as nat)
}

/// Host and port, joined by a colon.
pub fn server_key(server: &str, port: u16) -> (r: String)
    ensures
        r@ == server_key_text(server@, port),
{
    let mut out = text::chars_of(server);
    out.push(':');
    text::append_chars(&mut out, text::decimal_text(port as u64).as_slice());
    assert(out@ =~= server_key_text(server@, port));
    text::string_of(out.as_slice())
}

/// How an address text is dialled.
#[derive(Debug)]
pub enum DialTarget {
    /// An address literal: dialled as it is.
    Literal(SocketAddr),
    /// A name with a port: the name is resolved through the cache first.
    Name { host: String, port: u16 },
    /// Anything else: left to the system's resolver.
    System,
}

/// The port of an address text, with the text before it.
pub open spec fn split_port(addr: Seq<char>) -> Option<(Seq<char>, u16)> {
    let i = text::last_index(addr, ':');
    if i < 0 {
        None
    } else {
        match text::parsed_uint(addr.skip(i + 1), 10, 65535) {
            Some(p) => Some((addr.take(i), p as u16)),
            None => None,
        }
    }
}

/// How an address text is dialled.
pub open spec fn dial_target_of(addr: Seq<char>, r: DialTarget) -> bool {
    match split_port(addr) {
        None => r is System,
        Some((host, port)) => match net::ip_of(text::unbracketed(host)) {
            Some(ip) => r == DialTarget::Literal(SocketAddr { ip, port }),
            None => r matches DialTarget::Name { host: h, port: p } && h@ == host && p == port,
        },
    }
}

/// How an address text is dialled.
pub fn dial_target(addr: &str) -> (r: DialTarget)
    ensures
        dial_target_of(addr@, r),
{
    let chars = text::chars_of(addr);
    let i: usize = match text::rfind_char(chars.as_slice(), ':') {
        Some(i) => i,
        None => {
            return DialTarget::System;
        },
    };
    let host = vstd::slice::slice_subrange(chars.as_slice(), 0, i);
    let tail = vstd::slice::slice_subrange(chars.as_slice(), i + 1, chars.len());
    assert(host@ =~= addr@.take(i as int));
    assert(tail@ =~= addr@.skip(i + 1));
    match text::parse_uint(tail, 10, 65535) {
        Some(p) => {
            let port: u16 = p as u16;
            match net::parse_ip_chars(text::trim_brackets(host)) {
                Some(ip) => DialTarget::Literal(SocketAddr { ip, port }),
                None => DialTarget::Name { host: text::string_of(host), port },
            }
        },
        None => DialTarget::System,
    }
}

/// The addresses of a server, each with the port.
pub open spec fn with_port_of(ips: Seq<IpAddr>, port: u16) -> Seq<SocketAddr> {
    ips.map_values(|ip: IpAddr| SocketAddr { ip, port })
}

/// The addresses of a server, each with the port.
pub fn with_port(ips: &[IpAddr], port: u16) -> (r: Vec<SocketAddr>)
    ensures
        r@ == with_port_of(ips@, port),
{
    let mut out: Vec<SocketAddr> = Vec::new();
    let mut i: usize = 0;
    while i < ips.len()
        invariant
            i <= ips@.len(),
            out@ == with_port_of(ips@.take(i as int), port),
        decreases ips@.len() - i,
    {
        out.push(SocketAddr { ip: ips[i], port });
        i = i + 1;
        assert(out@ =~= with_port_of(ips@.take(i as int), port));
    }
    assert(ips@.take(i as int) =~= ips@);
    out
}

/// The text for a connection that took too long.
pub open spec fn tcp_timeout_text(addr: Seq<char>, secs: u64) -> Seq<char> {
    "TCP connection to "@ + addr + " timed out after "@ + text::decimal(secs as nat) + "s"@
}

/// The text for a connection that took too long.
pub fn tcp_timeout_message(addr: &str, secs: u64) -> (r: String)
    ensures
        r@ == tcp_timeout_text(addr@, secs),
{
    let mut out: Vec<char> = Vec::new();
    text::append_str(&mut out, "TCP connection to ");
    text::append_str(&mut out, addr);
    text::append_str(&mut out, " timed out after ");
    text::append_chars(&mut out, text::decimal_text(secs).as_slice());
    text::append_str(&mut out, "s");
    assert(out@ =~= tcp_timeout_text(addr@, secs));
    text::string_of(out.as_slice())
}

/// The text for a handshake that took too long.
pub open spec fn tls_timeout_text(addr: Seq<char>, sni: Seq<char>, secs: u64) -> Seq<char> {
    "TLS handshake with "@ + addr + " (SNI: "@ + sni + ") timed out after "@ + text::decimal(
        secs as nat,
    ) + "s"@
}

/// The text for a handshake that took too long.
pub fn tls_timeout_message(addr: &str, sni: &str, secs: u64) -> (r: String)
    ensures
        r@ == tls_timeout_text(addr@, sni@, secs),
{
    let mut out: Vec<char> = Vec::new();
    text::append_str(&mut out, "TLS handshake with ");
    text::append_str(&mut out, addr);
    text::append_str(&mut out, " (SNI: ");
    text::append_str(&mut out, sni);
    text::append_str(&mut out, ") timed out after ");
    text::append_chars(&mut out, text::decimal_text(secs).as_slice());
    text::append_str(&mut out, "s");
    assert(out@ =~= tls_timeout_text(addr@, sni@, secs));
    text::string_of(out.as_slice())
}

// ---------------------------------------------------------------------------
// Server addresses
// ---------------------------------------------------------------------------

/// The addresses of servers, each with the time at which they were learnt.
pub struct ServerAddrCache {
    pub entries: TextMap<(Vec<IpAddr>, u64)>,
}

/// The addresses that the cache still gives out for a host.
pub open spec fn fresh(
    entries: Map<Seq<char>, (Vec<IpAddr>, u64)>,
    host: Seq<char>,
    now: u64,
) -> Option<Seq<IpAddr>> {
    if entries.contains_key(host) && now - entries[host].1 < SERVER_ADDR_CACHE_TTL_NANOS {
        Some(entries[host].0@)
    } else {
        None
    }
}

/// A copy of addresses.
pub fn copy_ips(ips: &[IpAddr]) -> (r: Vec<IpAddr>)
    ensures
        r@ == ips@,
{
    let mut out: Vec<IpAddr> = Vec::new();
    let mut i: usize = 0;
    while i < ips.len()
        invariant
            i <= ips@.len(),
            out@ == ips@.take(i as int),
        decreases ips@.len() - i,
    {
        out.push(ips[i]);
        i = i + 1;
        assert(out@ =~= ips@.take(i as int));
    }
    assert(ips@.take(i as int) =~= ips@);
    out
}

impl ServerAddrCache {
    /// Every host stands once.
    pub open spec fn wf(self) -> bool {
        self.entries.wf()
    }

    /// An empty cache.
    pub fn new() -> (r: Self)
        ensures
            r.wf(),
            r.entries@ == Map::<Seq<char>, (Vec<IpAddr>, u64)>::empty(),
    {
        ServerAddrCache { entries: TextMap::new() }
    }

    /// The addresses of a host, if they were learnt within the last minute.
    pub fn get(&self, host: &str, now: u64) -> (r: Option<Vec<IpAddr>>)
        requires
            self.wf(),
        ensures
            r is Some == fresh(self.entries@, host@, now) is Some,
            r matches Some(v) ==> fresh(self.entries@, host@, now) == Some(v@),
    {
        match self.entries.get(host) {
            Some(e) => {
                if now < e.1 || now - e.1 < SERVER_ADDR_CACHE_TTL_NANOS {
                    Some(copy_ips(e.0.as_slice()))
                } else {
                    None
                }
            },
            None => None,
        }
    }

    /// Remembers the addresses of a host in place of earlier ones.
    pub fn insert(&mut self, host: &str, ips: Vec<IpAddr>, now: u64)
        requires
            old(self).wf(),
        ensures
            final(self).wf(),
            final(self).entries@ == old(self).entries@.insert(host@, (ips, now)),
    {
        self.entries.insert(host, (ips, now));
    }
}

/// The cache gives back what was put in, for as long as it is fresh, and then
/// nothing; other hosts are not affected.
pub proof fn law_cache_remembers(
    entries: Map<Seq<char>, (Vec<IpAddr>, u64)>,
    host: Seq<char>,
    other: Seq<char>,
    ips: Vec<IpAddr>,
    at: u64,
    now: u64,
)
    requires
        other != host,
    ensures
        now - at < SERVER_ADDR_CACHE_TTL_NANOS ==> fresh(entries.insert(host, (ips, at)), host, now)
            == Some(ips@),
        now - at >= SERVER_ADDR_CACHE_TTL_NANOS ==> fresh(
            entries.insert(host, (ips, at)),
            host,
            now,
        ) is None,
        fresh(entries.insert(host, (ips, at)), other, now) == fresh(entries, other, now),
{
}

/// How the addresses of a server are found.
#[derive(Debug)]
pub enum ServerLookup {
    /// The host is an address: there is nothing to look up.
    Literal,
    /// The addresses are remembered.
    Known(Vec<IpAddr>),
    /// The host has to be resolved, by the bootstrap resolver first where
    /// `bootstrap` says so, and otherwise by the system alone.
    Ask { host: String, bootstrap: bool },
}

/// How the addresses of a server are found. While outgoing sockets are bound
/// to an interface, the bootstrap resolver is left out.
pub open spec fn lookup_of(
    entries: Map<Seq<char>, (Vec<IpAddr>, u64)>,
    host: Seq<char>,
    now: u64,
    bound: bool,
    r: ServerLookup,
) -> bool {
    let bare = text::unbracketed(host);
    if net::ip_of(bare) is Some {
        r is Literal
    } else {
        match fresh(entries, bare, now) {
            Some(ips) => r matches ServerLookup::Known(v) && v@ == ips,
            None => r matches ServerLookup::Ask { host: h, bootstrap } && h@ == bare && bootstrap
                == !bound,
        }
    }
}

/// How the addresses of a server are found.
pub fn server_lookup(cache: &ServerAddrCache, host: &str, now: u64, bound: bool) -> (r:
    ServerLookup)
    requires
        cache.wf(),
    ensures
        lookup_of(cache.entries@, host@, now, bound, r),
{
    let chars = text::chars_of(host);
    let bare = text::trim_brackets(chars.as_slice());
    if net::parse_ip_chars(bare).is_some() {
        return ServerLookup::Literal;
    }
    let name = text::string_of(bare);
    match cache.get(name.as_str(), now) {
        Some(ips) => ServerLookup::Known(ips),
        None => ServerLookup::Ask { host: name, bootstrap: !bound },
    }
}

/// The answers of both families in order; no answer counts as a failure.
pub open spec fn joined_answers(a: Option<Seq<IpAddr>>, aaaa: Option<Seq<IpAddr>>) -> Option<
    Seq<IpAddr>,
> {
    let all = (if a is Some { a->0 } else { seq![] }) + (if aaaa is Some { aaaa->0 } else {
        seq![]
    });
    if all.len() == 0 {
        None
    } else {
        Some(all)
    }
}

/// An optional list of addresses.
pub open spec fn opt_ips(v: Option<Vec<IpAddr>>) -> Option<Seq<IpAddr>> {
    match v {
        Some(l) => Some(l@),
        None => None,
    }
}

/// The answers of both families in order; no answer counts as a failure.
pub fn join_answers(a: Option<Vec<IpAddr>>, aaaa: Option<Vec<IpAddr>>) -> (r: Option<Vec<IpAddr>>)
    ensures
        opt_ips(r) == joined_answers(opt_ips(a), opt_ips(aaaa)),
{
    let mut all: Vec<IpAddr> = Vec::new();
    if let Some(v) = &a {
        let mut i: usize = 0;
        while i < v.len()
            invariant
                i <= v@.len(),
                all@ == v@.take(i as int),
            decreases v@.len() - i,
        {
            all.push(v[i]);
            i = i + 1;
            assert(all@ =~= v@.take(i as int));
        }
        assert(v@.take(i as int) =~= v@);
    }
    let ghost first = all@;
    if let Some(v) = &aaaa {
        let mut i: usize = 0;
        assert(first + v@.take(0) =~= first);
        while i < v.len()
            invariant
                i <= v@.len(),
                all@ == first + v@.take(i as int),
            decreases v@.len() - i,
        {
            all.push(v[i]);
            i = i + 1;
            assert(all@ =~= first + v@.take(i as int));
        }
        assert(v@.take(i as int) =~= v@);
    }
    assert(all@ =~= (if opt_ips(a) is Some { opt_ips(a)->0 } else { seq![] }) + (if opt_ips(
        aaaa,
    ) is Some { opt_ips(aaaa)->0 } else { seq![] }));
    if all.len() == 0 {
        None
    } else {
        Some(all)
    }
}

// ---------------------------------------------------------------------------
// TLS
// ---------------------------------------------------------------------------

/// The browsers whose handshake can be imitated.
#[derive(Debug, Clone, Copy, PartialEq, Eq, Structural)]
pub enum Fingerprint {
    Chrome112,
    Chrome108,
    Firefox105,
    Safari17,
}

/// The browser that a name stands for; Chrome where the name is not known.
pub open spec fn fingerprint_of(name: Option<Seq<char>>) -> Fingerprint {
    match name {
        None => Fingerprint::Chrome112,
        Some(n) => if text::folded(n) == "safari"@ {
            Fingerprint::Safari17
        } else if text::folded(n) == "firefox"@ {
            Fingerprint::Firefox105
        } else if text::folded(n) == "chrome108"@ {
            Fingerprint::Chrome108
        } else {
            Fingerprint::Chrome112
        },
    }
}

/// The browser that a name stands for; Chrome where the name is not known.
pub fn fingerprint(name: &Option<String>) -> (r: Fingerprint)
    ensures
        r == fingerprint_of(config::opt_text(*name)),
{
    proof {
        reveal_strlit("safari");
        reveal_strlit("firefox");
        reveal_strlit("chrome108");
        assert("safari"@.len() != "firefox"@.len());
        assert("safari"@.len() != "chrome108"@.len());
        assert("firefox"@.len() != "chrome108"@.len());
    }
    match name {
        None => Fingerprint::Chrome112,
        Some(n) => {
            let low = text::fold(n.as_str());
            if text::str_eq(low.as_str(), "safari") {
                Fingerprint::Safari17
            } else if text::str_eq(low.as_str(), "firefox") {
                Fingerprint::Firefox105
            } else if text::str_eq(low.as_str(), "chrome108") {
                Fingerprint::Chrome108
            } else {
                Fingerprint::Chrome112
            }
        },
    }
}

/// How a TLS connector is set up.
#[derive(Debug)]
pub struct TlsConnector {
    /// The server's certificate is checked.
    pub verify: bool,
    /// The protocols to offer, in place of those of the browser.
    pub alpn: Option<Vec<String>>,
    pub fingerprint: Fingerprint,
}

/// How a TLS connector is set up.
#[verifier::ext_equal]
pub struct TlsConnectorModel {
    pub verify: bool,
    pub alpn: Option<Seq<Seq<char>>>,
    pub fingerprint: Fingerprint,
}

impl View for TlsConnector {
    type V = TlsConnectorModel;

    open spec fn view(&self) -> TlsConnectorModel {
        TlsConnectorModel {
            verify: self.verify,
            alpn: config::opt_list(self.alpn),
            fingerprint: self.fingerprint,
        }
    }
}

/// The connector that a TLS configuration asks for.
pub open spec fn tls_connector_of(c: Option<config::TlsModel>) -> TlsConnectorModel {
    match c {
        Some(t) => TlsConnectorModel {
            verify: !t.skip_cert_verify,
            alpn: t.alpn,
            fingerprint: fingerprint_of(t.fingerprint),
        },
        None => TlsConnectorModel {
            verify: true,
            alpn: None,
            fingerprint: Fingerprint::Chrome112,
        },
    }
}

/// The connector that a TLS configuration asks for.
pub fn build_tls_connector(tls: Option<&TlsConfig>) -> (r: TlsConnector)
    ensures
        r@ == tls_connector_of(config::tls_model(tls)),
{
    match tls {
        Some(t) => TlsConnector {
            verify: !t.skip_cert_verify,
            alpn: match &t.alpn {
                Some(l) => Some(config::copy_list(l)),
                None => None,
            },
            fingerprint: fingerprint(&t.fingerprint),
        },
        None => TlsConnector { verify: true, alpn: None, fingerprint: Fingerprint::Chrome112 },
    }
}

/// How a REALITY connector is set up.
#[derive(Debug)]
pub struct RealityConnector {
    pub public_key: [u8; 32],
    pub short_id: Vec<u8>,
    pub fingerprint: Fingerprint,
    /// Only the classic key share is offered; otherwise the hybrid one comes
    /// first and the classic one second.
    pub classic_only: bool,
}

/// How a REALITY connector is set up.
#[verifier::ext_equal]
pub struct RealityConnectorModel {
    pub public_key: Seq<u8>,
    pub short_id: Seq<u8>,
    pub fingerprint: Fingerprint,
    pub classic_only: bool,
}

impl View for RealityConnector {
    type V = RealityConnectorModel;

    open spec fn view(&self) -> RealityConnectorModel {
        RealityConnectorModel {
            public_key: self.public_key@,
            short_id: self.short_id@,
            fingerprint: self.fingerprint,
            classic_only: self.classic_only,
        }
    }
}

/// What is wrong with a REALITY configuration.
#[derive(Debug)]
pub enum RealityError {
    PublicKey,
    /// With what is wrong with the text.
    ShortId(String),
}

impl RealityError {
    /// The text that is shown for the error.
    pub open spec fn text(self) -> Seq<char> {
        match self {
            RealityError::PublicKey =>
            "invalid REALITY public key (expected base64 of 32 bytes)"@,
            RealityError::ShortId(e) => "invalid REALITY short id (expected hex): "@ + e@,
        }
    }

    /// The text that is shown for the error.
    pub fn message(&self) -> (r: String)
        ensures
            r@ == self.text(),
    {
        let mut out: Vec<char> = Vec::new();
        match self {
            RealityError::PublicKey => {
                text::append_str(
                    &mut out,
                    "invalid REALITY public key (expected base64 of 32 bytes)",
                );
            },
            RealityError::ShortId(e) => {
                text::append_str(&mut out, "invalid REALITY short id (expected hex): ");
                text::append_str(&mut out, e.as_str());
            },
        }
        assert(out@ =~= self.text());
        text::string_of(out.as_slice())
    }
}

/// The key that a text writes: Base64 of 32 bytes, in the unpadded URL-safe
/// alphabet or else in the standard one.
pub open spec fn reality_key_of(key: Seq<u8>) -> Option<Seq<u8>> {
    let bytes = match crypto::base64_url_bytes(key) {
        Some(b) => Some(b),
        None => crypto::base64_standard_bytes(key),
    };
    match bytes {
        Some(b) => if b.len() == 32 {
            Some(b)
        } else {
            None
        },
        None => None,
    }
}

/// The key that decoded texts make: the first that was decoded counts, and it
/// has to have 32 bytes.
pub fn reality_key(url_safe: Option<Vec<u8>>, standard: Option<Vec<u8>>) -> (r: Option<[u8; 32]>)
    ensures
        ({
            let bytes = match url_safe {
                Some(b) => Some(b@),
                None => match standard {
                    Some(b) => Some(b@),
                    None => None,
                },
            };
            &&& r is Some == (bytes is Some && bytes->0.len() == 32)
            &&& r matches Some(k) ==> k@ == bytes->0
        }),
{
    let bytes: Vec<u8> = match url_safe {
        Some(b) => b,
        None => match standard {
            Some(b) => b,
            None => {
                return None;
            },
        },
    };
    if bytes.len() == 32 {
        let key = bytes::array32(bytes.as_slice());
        assert(bytes@.take(32) =~= bytes@);
        Some(key)
    } else {
        None
    }
}

/// The connector that a REALITY configuration asks for, or what is wrong
/// with the configuration.
pub open spec fn reality_connector_of(
    reality: RealityConfig,
    tls: Option<config::TlsModel>,
    force_classic: bool,
) -> Result<RealityConnectorModel, Seq<char>> {
    let key = vstd::utf8::encode_utf8(reality.public_key@);
    let id = vstd::utf8::encode_utf8(reality.short_id@);
    match reality_key_of(key) {
        None => Err("invalid REALITY public key (expected base64 of 32 bytes)"@),
        Some(k) => if crypto::is_hex(id) {
            Ok(
                RealityConnectorModel {
                    public_key: k,
                    short_id: crypto::hex_bytes(id),
                    fingerprint: fingerprint_of(
                        match tls {
                            Some(t) => t.fingerprint,
                            None => None,
                        },
                    ),
                    classic_only: force_classic,
                },
            )
        } else {
            Err("invalid REALITY short id (expected hex): "@ + crypto::hex_complaint(id))
        },
    }
}

/// The connector that a REALITY configuration asks for. A configuration that
/// is not well formed is an error.
pub fn build_reality_tls_connector(
    reality: &RealityConfig,
    tls: Option<&TlsConfig>,
    force_classic: bool,
) -> (r: Result<RealityConnector, RealityError>)
    ensures
        match reality_connector_of(*reality, config::tls_model(tls), force_classic) {
            Ok(m) => r matches Ok(c) && c@ == m,
            Err(t) => r matches Err(e) && e.text() == t,
        },
{
    let key_text = text::utf8_bytes(text::chars_of(reality.public_key.as_str()).as_slice());
    let url_safe = crypto::base64_url_decode(key_text.as_slice());
    let standard = if url_safe.is_none() {
        crypto::base64_standard_decode(key_text.as_slice())
    } else {
        None
    };
    let public_key: [u8; 32] = match reality_key(url_safe, standard) {
        Some(k) => k,
        None => {
            return Err(RealityError::PublicKey);
        },
    };
    let id_text = text::utf8_bytes(text::chars_of(reality.short_id.as_str()).as_slice());
    let short_id = match crypto::hex_decode(id_text.as_slice()) {
        Ok(v) => v,
        Err(e) => {
            return Err(RealityError::ShortId(e));
        },
    };
    let profile = match tls {
        Some(t) => fingerprint(&t.fingerprint),
        None => Fingerprint::Chrome112,
    };
    Ok(RealityConnector { public_key, short_id, fingerprint: profile, classic_only: force_classic })
}

/// The TLS layer of a transport, and whether there is one. It is there where
/// the transport is TLS or REALITY, and where it carries a TLS block. REALITY
/// without such a block gets one from its own settings.
pub open spec fn resolved_tls(transport: Option<&TransportConfig>) -> (
    Option<config::TlsModel>,
    bool,
) {
    match transport {
        None => (None, false),
        Some(t) => (
            if t.transport_type == TransportType::Reality && t.tls is None && t.reality is Some {
                Some(
                    config::TlsModel {
                        sni: config::opt_text(t.reality->0.sni),
                        skip_cert_verify: true,
                        alpn: None,
                        fingerprint: None,
                    },
                )
            } else {
                config::opt_tls(t.tls)
            },
            t.transport_type == TransportType::Tls || t.transport_type == TransportType::Reality
                || t.tls is Some,
        ),
    }
}

/// The TLS layer of a transport, and whether there is one.
pub fn resolve_transport_tls(transport: Option<&TransportConfig>, _server: &str) -> (r: (
    Option<TlsConfig>,
    bool,
))
    ensures
        (config::opt_tls(r.0), r.1) == resolved_tls(transport),
{
    match transport {
        None => (None, false),
        Some(t) => {
            let use_tls = t.transport_type == TransportType::Tls || t.transport_type
                == TransportType::Reality || t.tls.is_some();
            let tls = match &t.tls {
                Some(c) => Some(c.duplicate()),
                None => match &t.reality {
                    Some(r) => if t.transport_type == TransportType::Reality {
                        Some(
                            TlsConfig {
                                sni: config::copy_text(&r.sni),
                                skip_cert_verify: true,
                                alpn: None,
                                fingerprint: None,
                            },
                        )
                    } else {
                        None
                    },
                    None => None,
                },
            };
            (tls, use_tls)
        },
    }
}

// ---------------------------------------------------------------------------
// The connection factory
// ---------------------------------------------------------------------------

/// How connections to a server are made.
#[derive(Debug)]
pub struct TlsConnFactory {
    pub server: String,
    pub port: u16,
    pub sni: String,
    pub use_tls: bool,
    pub connector: TlsConnector,
    /// The REALITY handshake that offers both key shares.
    pub reality_connector: Option<RealityConnector>,
    /// The REALITY handshake that offers the classic key share alone.
    pub reality_classic_connector: Option<RealityConnector>,
    /// What is wrong with the REALITY configuration.
    pub reality_error: Option<String>,
    /// The WebSocket layer on top of the others.
    pub ws: Option<WsConfig>,
}

/// How connections to a server are made.
#[verifier::ext_equal]
pub struct FactoryModel {
    pub server: Seq<char>,
    pub port: u16,
    pub sni: Seq<char>,
    pub use_tls: bool,
    pub connector: TlsConnectorModel,
    pub reality: Option<RealityConnectorModel>,
    pub reality_classic: Option<RealityConnectorModel>,
    pub reality_error: Option<Seq<char>>,
    pub ws: Option<config::WsModel>,
}

/// What an optional REALITY connector holds.
pub open spec fn opt_reality(c: Option<RealityConnector>) -> Option<RealityConnectorModel> {
    match c {
        Some(r) => Some(r@),
        None => None,
    }
}

/// What an optional WebSocket configuration holds.
pub open spec fn opt_ws(c: Option<WsConfig>) -> Option<config::WsModel> {
    match c {
        Some(w) => Some(w@),
        None => None,
    }
}

impl View for TlsConnFactory {
    type V = FactoryModel;

    open spec fn view(&self) -> FactoryModel {
        FactoryModel {
            server: self.server@,
            port: self.port,
            sni: self.sni@,
            use_tls: self.use_tls,
            connector: self.connector@,
            reality: opt_reality(self.reality_connector),
            reality_classic: opt_reality(self.reality_classic_connector),
            reality_error: config::opt_text(self.reality_error),
            ws: opt_ws(self.ws),
        }
    }
}

/// The TLS configuration under a WebSocket layer: where no protocols are
/// chosen, HTTP/1.1 alone is offered.
pub open spec fn ws_tls(tls: Option<config::TlsModel>, over_ws: bool) -> Option<config::TlsModel> {
    match tls {
        Some(c) => if over_ws && c.alpn is None {
            Some(config::TlsModel { alpn: Some(seq!["http/1.1"@]), ..c })
        } else {
            Some(c)
        },
        None => None,
    }
}

/// How connections are made, given the layers.
pub open spec fn factory_of(
    server: Seq<char>,
    port: u16,
    tls: Option<config::TlsModel>,
    use_tls: bool,
    reality: Option<RealityConfig>,
    ws: Option<config::WsModel>,
) -> FactoryModel {
    let tls2 = ws_tls(tls, ws is Some);
    FactoryModel {
        server,
        port,
        sni: match tls {
            Some(c) => match c.sni {
                Some(s) => s,
                None => server,
            },
            None => server,
        },
        use_tls,
        connector: tls_connector_of(tls2),
        reality: match reality {
            Some(r) => match reality_connector_of(r, tls2, false) {
                Ok(m) => Some(m),
                Err(_) => None,
            },
            None => None,
        },
        reality_classic: match reality {
            Some(r) => match reality_connector_of(r, tls2, true) {
                Ok(m) => Some(m),
                Err(_) => None,
            },
            None => None,
        },
        reality_error: match reality {
            Some(r) => match reality_connector_of(r, tls2, false) {
                Ok(_) => None,
                Err(e) => Some(e),
            },
            None => None,
        },
        ws,
    }
}

/// The WebSocket layer of a transport.
pub open spec fn ws_layer(transport: Option<&TransportConfig>) -> Option<config::WsModel> {
    match transport {
        Some(t) => if t.transport_type == TransportType::WebSocket {
            match t.ws {
                Some(w) => Some(w@),
                None => Some(config::WsModel { path: None, host: None, headers: None }),
            }
        } else {
            None
        },
        None => None,
    }
}

/// How connections are made over a transport.
pub open spec fn transport_factory(
    server: Seq<char>,
    port: u16,
    transport: Option<&TransportConfig>,
    force_tls: bool,
) -> FactoryModel {
    factory_of(
        server,
        port,
        resolved_tls(transport).0,
        force_tls || resolved_tls(transport).1,
        match transport {
            Some(t) => t.reality,
            None => None,
        },
        ws_layer(transport),
    )
}

impl TlsConnFactory {
    /// Connections with the given TLS layer and without a WebSocket layer.
    pub fn new(
        server: &str,
        port: u16,
        tls_config: Option<&TlsConfig>,
        use_tls: bool,
        reality: Option<&RealityConfig>,
    ) -> (r: Self)
        ensures
            r@ == factory_of(
                server@,
                port,
                config::tls_model(tls_config),
                use_tls,
                match reality {
                    Some(x) => Some(*x),
                    None => None,
                },
                None,
            ),
    {
        Self::build(server, port, tls_config, use_tls, reality, None)
    }

    /// Connections over a transport. `force_tls` is for protocols that are
    /// always wrapped in TLS.
    pub fn from_transport(
        server: &str,
        port: u16,
        transport: Option<&TransportConfig>,
        force_tls: bool,
    ) -> (r: Self)
        ensures
            r@ == transport_factory(server@, port, transport, force_tls),
    {
        let (tls_config, resolved) = resolve_transport_tls(transport, server);
        let ws = match transport {
            Some(t) => if t.transport_type == TransportType::WebSocket {
                match &t.ws {
                    Some(w) => Some(w.duplicate()),
                    None => Some(WsConfig { path: None, host: None, headers: None }),
                }
            } else {
                None
            },
            None => None,
        };
        let reality: Option<&RealityConfig> = match transport {
            Some(t) => match &t.reality {
                Some(r) => Some(r),
                None => None,
            },
            None => None,
        };
        Self::build(server, port, tls_config.as_ref(), force_tls || resolved, reality, ws)
    }

    fn build(
        server: &str,
        port: u16,
        tls_config: Option<&TlsConfig>,
        use_tls: bool,
        reality: Option<&RealityConfig>,
        ws: Option<WsConfig>,
    ) -> (r: Self)
        ensures
            r@ == factory_of(
                server@,
                port,
                config::tls_model(tls_config),
                use_tls,
                match reality {
                    Some(x) => Some(*x),
                    None => None,
                },
                opt_ws(ws),
            ),
    {
        let sni: String = match tls_config {
            Some(c) => match &c.sni {
                Some(s) => s.clone(),
                None => text::string_of(text::chars_of(server).as_slice()),
            },
            None => text::string_of(text::chars_of(server).as_slice()),
        };
        let over_ws = ws.is_some();
        let tls: Option<TlsConfig> = match tls_config {
            Some(c) => if over_ws && c.alpn.is_none() {
                let mut list: Vec<String> = Vec::new();
                list.push(text::string_of(text::chars_of("http/1.1").as_slice()));
                assert(config::text_list(list@) =~= seq!["http/1.1"@]);
                let mut over = c.duplicate();
                over.alpn = Some(list);
                Some(over)
            } else {
                Some(c.duplicate())
            },
            None => None,
        };
        let connector = build_tls_connector(tls.as_ref());
        let mut reality_connector: Option<RealityConnector> = None;
        let mut reality_classic_connector: Option<RealityConnector> = None;
        let mut reality_error: Option<String> = None;
        if let Some(r) = reality {
            match build_reality_tls_connector(r, tls.as_ref(), false) {
                Ok(c) => {
                    reality_connector = Some(c);
                    match build_reality_tls_connector(r, tls.as_ref(), true) {
                        Ok(c) => {
                            reality_classic_connector = Some(c);
                        },
                        Err(_) => {},
                    }
                },
                Err(e) => {
                    reality_error = Some(e.message());
                },
            }
        }
        TlsConnFactory {
            server: text::string_of(text::chars_of(server).as_slice()),
            port,
            sni,
            use_tls,
            connector,
            reality_connector,
            reality_classic_connector,
            reality_error,
            ws,
        }
    }
}

/// A key of 32 bytes is read from either way of writing it.
pub proof fn law_reality_key_is_read_back(key: Seq<u8>)
    requires
        key.len() == 32,
    ensures
        reality_key_of(crypto::base64_digits(key, true)) == Some(key),
        reality_key_of(crypto::base64_code(key)) == Some(key),
{
    crypto::lemma_base64_round_trip(key);
}

/// A REALITY configuration gives both handshakes or an error, never both and
/// never neither.
pub proof fn law_reality_is_all_or_error(
    server: Seq<char>,
    port: u16,
    tls: Option<config::TlsModel>,
    use_tls: bool,
    reality: RealityConfig,
    ws: Option<config::WsModel>,
)
    ensures
        ({
            let f = factory_of(server, port, tls, use_tls, Some(reality), ws);
            &&& f.reality is Some == f.reality_classic is Some
            &&& f.reality_error is Some == f.reality is None
        }),
{
}

proof fn lemma_split_port(host: Seq<char>, port: u16)
    ensures
        split_port(host + seq![':'] + text::decimal(port as nat)) == Some((host, port)),
{
    let d = text::decimal(port as nat);
    let addr = host + seq![':'] + d;
    text::lemma_decimal(port as nat);
    assert forall|k: int| host.len() < k < addr.len() implies addr[k] != ':' by {
        assert(addr[k] == d[k - host.len() - 1]);
    }
    text::lemma_last_index_unique(addr, ':', host.len() as int);
    assert(addr.take(host.len() as int) =~= host);
    assert(addr.skip(host.len() + 1 as int) =~= d);
}

/// A server that is written with its port is dialled as what it is: an address, with or without
/// brackets, as that address, and anything else by its name.
pub proof fn law_written_server_is_dialled(
    ip: IpAddr,
    name: Seq<char>,
    port: u16,
    a: DialTarget,
    b: DialTarget,
    c: DialTarget,
)
    requires
        dial_target_of(host_port_text(net::ip_text(ip), port), a),
        dial_target_of(host_port_text(seq!['['] + net::ip_text(ip) + seq![']'], port), b),
        net::ip_of(text::unbracketed(name)) is None,
        dial_target_of(host_port_text(name, port), c),
    ensures
        a == DialTarget::Literal(SocketAddr { ip, port }),
        b == DialTarget::Literal(SocketAddr { ip, port }),
        c matches DialTarget::Name { host, port: p } && host@ == name && p == port,
{
    let s = net::ip_text(ip);
    let t = seq!['['] + s + seq![']'];
    let d = text::decimal(port as nat);
    net::law_ip_text_is_read_back(ip);
    net::lemma_ip_of_address(s);
    if s.len() > 0 {
        assert(net::in_address(s[0]));
        assert(net::in_address(s[s.len() - 1]));
    }
    text::lemma_no_brackets(s);
    lemma_split_port(s, port);
    lemma_split_port(t, port);
    lemma_split_port(name, port);
    assert(seq!['['] + s + seq![']', ':'] + d =~= t + seq![':'] + d);
}

/// A literal needs no resolver; a name is looked up by itself, without brackets, through the
/// resolver that the tunnel does not touch unless the sockets are bound past the tunnel.
pub proof fn law_only_names_are_looked_up(
    entries: Map<Seq<char>, (Vec<IpAddr>, u64)>,
    ip: IpAddr,
    name: Seq<char>,
    now: u64,
    bound: bool,
    a: ServerLookup,
    b: ServerLookup,
)
    requires
        lookup_of(entries, net::ip_text(ip), now, bound, a),
        net::ip_of(name) is None,
        name.len() > 0 ==> !text::is_bracket(name[0]) && !text::is_bracket(name.last()),
        !entries.contains_key(name),
        lookup_of(entries, name, now, bound, b),
    ensures
        a is Literal,
        b matches ServerLookup::Ask { host, bootstrap } && host@ == name && bootstrap != bound,
{
    let s = net::ip_text(ip);
    net::law_ip_text_is_read_back(ip);
    net::lemma_ip_of_address(s);
    if s.len() > 0 {
        assert(net::in_address(s[0]));
        assert(net::in_address(s[s.len() - 1]));
    }
    text::lemma_no_brackets(s);
    text::lemma_no_brackets(name);
}

/// What was looked up is used for one minute, and for no longer.
pub proof fn law_addresses_last_a_minute(
    entries: Map<Seq<char>, (Vec<IpAddr>, u64)>,
    host: Seq<char>,
    ips: Vec<IpAddr>,
    at: u64,
    now: u64,
)
    ensures
        fresh(entries.insert(host, (ips, at)), host, now) == (if now - at < 60 * 1_000_000_000 {
            Some(ips@)
        } else {
            None
        }),
{
}

/// The addresses of both questions are kept, those of the first in front; there is no answer
/// only where neither question gave an address.
pub proof fn law_both_answers_count(a: Option<Seq<IpAddr>>, aaaa: Option<Seq<IpAddr>>)
    ensures
        match joined_answers(a, aaaa) {
            Some(all) => all.len() > 0 && match (a, aaaa) {
                (Some(x), Some(y)) => all.len() == x.len() + y.len() && all.take(x.len() as int) == x
                    && all.skip(x.len() as int) == y,
                (Some(x), None) => all == x,
                (None, Some(y)) => all == y,
                (None, None) => false,
            },
            None => (a matches Some(x) ==> x.len() == 0) && (aaaa matches Some(y) ==> y.len() == 0),
        },
{
    match (a, aaaa) {
        (Some(x), Some(y)) => {
            assert((x + y).take(x.len() as int) =~= x);
            assert((x + y).skip(x.len() as int) =~= y);
        },
        (Some(x), None) => {
            assert(x + Seq::<IpAddr>::empty() =~= x);
        },
        (None, Some(y)) => {
            assert(Seq::<IpAddr>::empty() + y =~= y);
        },
        (None, None) => {},
    }
}

/// TLS is on where the protocol asks for it, where the transport is TLS or REALITY, and wherever
/// there is a TLS block: a WebSocket with one is not sent in the clear.
pub proof fn law_tls_is_not_dropped(
    server: Seq<char>,
    port: u16,
    t: &TransportConfig,
    force: bool,
)
    ensures
        transport_factory(server, port, None, force).use_tls == force,
        force || t.tls is Some || t.transport_type is Tls || t.transport_type is Reality
            ==> transport_factory(server, port, Some(t), force).use_tls,
        !force && t.tls is None && (t.transport_type is Tcp || t.transport_type is WebSocket)
            ==> !transport_factory(server, port, Some(t), force).use_tls,
{
}

/// The server is dialled by its own name and port, and is asked for by the name that the TLS
/// block gives, else by its own; its certificate is checked unless the block says otherwise.
pub proof fn law_server_is_asked_for_by_its_name(
    server: Seq<char>,
    port: u16,
    t: &TransportConfig,
    force: bool,
)
    ensures
        ({
            let f = transport_factory(server, port, Some(t), force);
            let p = transport_factory(server, port, None, force);
            &&& f.server == server && f.port == port && p.server == server && p.port == port
            &&& p.sni == server && p.connector.verify && p.ws is None && p.reality is None
            &&& t.tls matches Some(c) ==> f.connector.verify == !c.skip_cert_verify && (
            match c.sni {
                Some(s) => f.sni == s@,
                None => f.sni == server,
            })
            &&& t.tls is None && (!(t.transport_type is Reality) || t.reality is None) ==> f.sni
                == server && f.connector.verify
            &&& t.tls is None && t.transport_type is Reality && t.reality is Some ==> (
            match t.reality->0.sni {
                Some(s) => f.sni == s@,
                None => f.sni == server,
            })
        }),
{
}

/// A WebSocket is spoken exactly where the transport is one, with the path, the host and the
/// headers of its block; over TLS it offers HTTP/1.1 unless the block names protocols.
pub proof fn law_websocket_is_set_up(
    server: Seq<char>,
    port: u16,
    t: &TransportConfig,
    force: bool,
)
    ensures
        ({
            let f = transport_factory(server, port, Some(t), force);
            &&& f.ws is Some == t.transport_type is WebSocket
            &&& t.transport_type is WebSocket && t.ws is Some ==> f.ws == Some(t.ws->0@)
            &&& t.transport_type is WebSocket && t.ws is None ==> f.ws->0.path is None
                && f.ws->0.host is None && f.ws->0.headers is None
            &&& t.transport_type is WebSocket && t.tls is Some && t.tls->0.alpn is None
                ==> f.connector.alpn == Some(seq!["http/1.1"@])
            &&& t.tls is Some && t.tls->0.alpn is Some ==> f.connector.alpn == Some(
                config::text_list(t.tls->0.alpn->0@),
            )
            &&& !(t.transport_type is WebSocket) && t.tls is Some && t.tls->0.alpn is None
                ==> f.connector.alpn is None
        }),
{
}

/// A REALITY block with a key of the right length and a short identifier in hexadecimal sets up
/// both handshakes with that key and identifier, the second for servers that know only the
/// classic exchange.
pub proof fn law_reality_uses_the_key(
    server: Seq<char>,
    port: u16,
    tls: Option<config::TlsModel>,
    use_tls: bool,
    reality: RealityConfig,
    ws: Option<config::WsModel>,
    key: Seq<u8>,
    id: Seq<u8>,
)
    requires
        key.len() == 32,
        vstd::utf8::encode_utf8(reality.public_key@) == crypto::base64_digits(key, true),
        vstd::utf8::encode_utf8(reality.short_id@) == id,
        crypto::is_hex(id),
    ensures
        ({
            let f = factory_of(server, port, tls, use_tls, Some(reality), ws);
            &&& f.reality matches Some(r) && r.public_key == key && r.short_id == crypto::hex_bytes(
                id,
            ) && !r.classic_only
            &&& f.reality_classic matches Some(r) && r.public_key == key && r.short_id
                == crypto::hex_bytes(id) && r.classic_only
            &&& f.reality_error is None
        }),
{
    law_reality_key_is_read_back(key);
}

/// The key of a server reads back as its name and its port.
pub proof fn lemma_server_key(server: Seq<char>, port: u16)
    ensures
        split_port(server_key_text(server, port)) == Some((server, port)),
{
    lemma_split_port(server, port);
}

/// Every address gets the port, in the order of the addresses.
pub proof fn law_addresses_get_the_port(ips: Seq<IpAddr>, port: u16)
    ensures
        with_port_of(ips, port).len() == ips.len(),
        forall|i: int|
            0 <= i < ips.len() ==> (#[trigger] with_port_of(ips, port)[i]).ip == ips[i]
                && with_port_of(ips, port)[i].port == port,
{
}

} // verus!
