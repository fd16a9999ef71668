//! The configuration model: nodes, protocols and transports.

use vstd::prelude::*;

verus! {

broadcast use {
    vstd::seq::group_seq_axioms,
    vstd::slice::group_slice_axioms,
    vstd::string::group_string_axioms,
    vstd::std_specs::vec::group_vec_axioms,
};

/// An optional text as characters.
pub open spec fn opt_text(s: Option<String>) -> Option<Seq<char>> {
    match s {
        Some(t) => Some(t@),
        None => None,
    }
}

/// Texts as characters.
pub open spec fn text_list(v: Seq<String>) -> Seq<Seq<char>> {
    v.map_values(|t: String| t@)
}

/// An optional list of texts as characters.
pub open spec fn opt_list(v: Option<Vec<String>>) -> Option<Seq<Seq<char>>> {
    match v {
        Some(l) => Some(text_list(l@)),
        None => None,
    }
}

/// Pairs of texts as characters.
pub open spec fn pair_list(v: Seq<(String, String)>) -> Seq<(Seq<char>, Seq<char>)> {
    v.map_values(|p: (String, String)| (p.0@, p.1@))
}

/// A copy of an optional text.
pub fn copy_text(s: &Option<String>) -> (r: Option<String>)
    ensures
        r == *s,
{
    match s {
        Some(t) => Some(t.clone()),
        None => None,
    }
}

/// A copy of texts.
pub fn copy_list(v: &Vec<String>) -> (r: Vec<String>)
    ensures
        r@ == v@,
{
    let mut out: Vec<String> = Vec::new();
    let mut i: usize = 0;
    while i < v.len()
        invariant
            i <= v@.len(),
            out@ == v@.take(i as int),
        decreases v@.len() - i,
    {
        out.push(v[i].clone());
        i = i + 1;
        assert(out@ =~= v@.take(i as int));
    }
    assert(v@.take(i as int) =~= v@);
    out
}

/// A copy of pairs of texts.
pub fn copy_pairs(v: &Vec<(String, String)>) -> (r: Vec<(String, String)>)
    ensures
        r@ == v@,
{
    let mut out: Vec<(String, String)> = Vec::new();
    let mut i: usize = 0;
    while i < v.len()
        invariant
            i <= v@.len(),
            out@ == v@.take(i as int),
        decreases v@.len() - i,
    {
        let p = &v[i];
        out.push((p.0.clone(), p.1.clone()));
        i = i + 1;
        assert(out@ =~= v@.take(i as int));
    }
    assert(v@.take(i as int) =~= v@);
    out
}

/// The TLS layer of a transport.
#[derive(Debug, Clone)]
pub struct TlsConfig {
    pub sni: Option<String>,
    pub skip_cert_verify: bool,
    pub alpn: Option<Vec<String>>,
    pub fingerprint: Option<String>,
}

/// What a TLS configuration holds.
#[verifier::ext_equal]
pub struct TlsModel {
    pub sni: Option<Seq<char>>,
    pub skip_cert_verify: bool,
    pub alpn: Option<Seq<Seq<char>>>,
    pub fingerprint: Option<Seq<char>>,
}

impl View for TlsConfig {
    type V = TlsModel;

    open spec fn view(&self) -> TlsModel {
        TlsModel {
            sni: opt_text(self.sni),
            skip_cert_verify: self.skip_cert_verify,
            alpn: opt_list(self.alpn),
            fingerprint: opt_text(self.fingerprint),
        }
    }
}

impl TlsConfig {
    /// A copy with the same contents.
    pub fn duplicate(&self) -> (r: TlsConfig)
        ensures
            r@ == self@,
    {
        TlsConfig {
            sni: copy_text(&self.sni),
            skip_cert_verify: self.skip_cert_verify,
            alpn: match &self.alpn {
                Some(l) => Some(copy_list(l)),
                None => None,
            },
            fingerprint: copy_text(&self.fingerprint),
        }
    }
}

/// What an optional TLS configuration holds.
pub open spec fn opt_tls(t: Option<TlsConfig>) -> Option<TlsModel> {
    match t {
        Some(c) => Some(c@),
        None => None,
    }
}

/// What a TLS configuration that is there or not holds.
pub open spec fn tls_model(t: Option<&TlsConfig>) -> Option<TlsModel> {
    match t {
        Some(c) => Some(c@),
        None => None,
    }
}

/// The WebSocket layer of a transport.
#[derive(Debug, Clone)]
pub struct WsConfig {
    pub path: Option<String>,
    pub host: Option<String>,
    /// Further request headers, in the order in which they are sent.
    pub headers: Option<Vec<(String, String)>>,
}

/// What a WebSocket configuration holds.
#[verifier::ext_equal]
pub struct WsModel {
    pub path: Option<Seq<char>>,
    pub host: Option<Seq<char>>,
    pub headers: Option<Seq<(Seq<char>, Seq<char>)>>,
}

impl View for WsConfig {
    type V = WsModel;

    open spec fn view(&self) -> WsModel {
        WsModel {
            path: opt_text(self.path),
            host: opt_text(self.host),
            headers: match self.headers {
                Some(h) => Some(pair_list(h@)),
                None => None,
            },
        }
    }
}

impl WsConfig {
    /// A copy with the same contents.
    pub fn duplicate(&self) -> (r: WsConfig)
        ensures
            r@ == self@,
    {
        WsConfig {
            path: copy_text(&self.path),
            host: copy_text(&self.host),
            headers: match &self.headers {
                Some(l) => Some(copy_pairs(l)),
                None => None,
            },
        }
    }
}

/// The REALITY layer of a transport.
#[derive(Debug, Clone)]
pub struct RealityConfig {
    /// The server's X25519 key in Base64.
    pub public_key: String,
    /// The short identifier in hexadecimal.
    pub short_id: String,
    pub sni: Option<String>,
    pub client_fingerprint: Option<String>,
    pub skip_cert_verify: bool,
}

/// What carries a protocol to its server.
#[derive(Debug, Clone, Copy, PartialEq, Eq, Structural)]
pub enum TransportType {
    Tcp,
    Tls,
    WebSocket,
    Reality,
}

/// The layers between the socket and the protocol.
#[derive(Debug, Clone)]
pub struct TransportConfig {
    pub transport_type: TransportType,
    pub tls: Option<TlsConfig>,
    pub ws: Option<WsConfig>,
    pub reality: Option<RealityConfig>,
}

/// The shadow-tls plugin of a Shadowsocks node.
#[derive(Debug, Clone)]
pub struct ShadowTlsConfig {
    pub host: String,
    pub password: String,
    pub skip_cert_verify: bool,
}

/// The protocol that a node speaks, with its credentials.
#[derive(Debug, Clone)]
pub enum ProxyProtocol {
    VLess { uuid: String, flow: Option<String>, udp: bool },
    VMess { uuid: String, cipher: String, alter_id: u32, udp: bool },
    Trojan { password: String, udp: bool },
    Shadowsocks { cipher: String, password: String, udp: bool, shadow_tls: Option<ShadowTlsConfig> },
    Tuic { uuid: String, password: String, congestion_control: String, udp: bool },
    Hysteria2 { password: String, udp: bool },
}

/// A proxy server.
#[derive(Debug, Clone)]
pub struct Node {
    pub name: String,
    pub server: String,
    pub port: u16,
    pub protocol: ProxyProtocol,
    pub transport: Option<TransportConfig>,
    pub latency_ms: Option<u32>,
    pub tags: Vec<String>,
    pub extra: Vec<(String, String)>,
}

/// A routing rule as it is written in the configuration.
#[derive(Debug, Clone)]
pub struct RoutingRule {
    pub rule_type: String,
    pub pattern: String,
    pub target: String,
    pub enabled: bool,
}

} // verus!
