//! From nodes to outbounds.

use std::sync::Arc;
use vstd::prelude::*;

use crate::config;
use crate::config::{Node, ProxyProtocol, TlsConfig, TransportConfig};
use crate::crypto;
use crate::proxy::connector;
use crate::proxy::connector::{OutboundKind, SharedOutbound, TuicOutbound};
use crate::proxy::hysteria2;
use crate::proxy::hysteria2::Hysteria2Outbound;
use crate::proxy::shadow_tls;
use crate::proxy::shadow_tls::ShadowTlsOutbound;
use crate::proxy::ss;
use crate::proxy::ss::{SsError, SsOutbound};
use crate::proxy::trojan;
use crate::proxy::trojan::TrojanOutbound;
use crate::proxy::vless;
use crate::proxy::vless::{VlessError, VlessOutbound};
use crate::proxy::vmess;
use crate::proxy::vmess::VMessOutbound;
use crate::text;

verus! {

broadcast use {
    vstd::seq::group_seq_axioms,
    vstd::slice::group_slice_axioms,
    vstd::string::group_string_axioms,
    vstd::std_specs::vec::group_vec_axioms,
};

/// Attempts on a connection over TCP.
pub const DEFAULT_RETRY_ATTEMPTS: u32 = 3;

/// Why a node has no outbound.
#[derive(Debug)]
pub enum FactoryError {
    Vless(VlessError),
    /// With what is wrong with the user's identifier.
    VMess(String),
    Shadowsocks(SsError),
    Hysteria2(String),
}

impl FactoryError {
    /// The text that is shown for the error.
    pub open spec fn text(self) -> Seq<char> {
        match self {
            FactoryError::Vless(e) => e.text(),
            FactoryError::VMess(e) => e@,
            FactoryError::Shadowsocks(e) => e.text(),
            FactoryError::Hysteria2(e) => e@,
        }
    }

    /// The text that is shown for the error.
    pub fn message(&self) -> (r: String)
        ensures
            r@ == self.text(),
    {
        match self {
            FactoryError::Vless(e) => e.message(),
            FactoryError::VMess(e) => e.clone(),
            FactoryError::Shadowsocks(e) => e.message(),
            FactoryError::Hysteria2(e) => e.clone(),
        }
    }
}

/// The transport of a node.
pub open spec fn transport_of(node: &Node) -> Option<&TransportConfig> {
    match node.transport {
        Some(t) => Some(&t),
        None => None,
    }
}

/// The TLS block of a node.
pub open spec fn tls_of(node: Node) -> Option<config::TlsModel> {
    match node.transport {
        Some(t) => config::opt_tls(t.tls),
        None => None,
    }
}

/// Why a node has no outbound, if it has none: an identifier that cannot be
/// read, or a cipher or password of Shadowsocks that does not do.
pub open spec fn node_error(node: Node) -> Option<Seq<char>> {
    match node.protocol {
        ProxyProtocol::VLess { uuid, flow, udp } => if crypto::uuid_of(
            vstd::utf8::encode_utf8(uuid@),
        ) is Some {
            None
        } else {
            Some(crypto::uuid_complaint(uuid@))
        },
        ProxyProtocol::VMess { uuid, cipher, alter_id, udp } => if crypto::uuid_of(
            vstd::utf8::encode_utf8(uuid@),
        ) is Some {
            None
        } else {
            Some(crypto::uuid_complaint(uuid@))
        },
        ProxyProtocol::Shadowsocks { cipher, password, udp, shadow_tls } => ss::config_error(
            ss::normal_cipher(cipher@),
            password@,
        ),
        ProxyProtocol::Trojan { password, udp } => None,
        ProxyProtocol::Tuic { uuid, password, congestion_control, udp } => None,
        ProxyProtocol::Hysteria2 { password, udp } => None,
    }
}

/// The outbound is the one that speaks a node's protocol with its settings.
pub open spec fn speaks(o: OutboundKind, node: Node, warm: bool) -> bool {
    match node.protocol {
        ProxyProtocol::VLess { uuid, flow, udp } => o matches OutboundKind::Vless(v)
            && vless::is_outbound_for(
            Ok(v),
            node.server@,
            node.port,
            uuid@,
            transport_of(&node),
            warm,
        ),
        ProxyProtocol::VMess { uuid, cipher, alter_id, udp } => o matches OutboundKind::VMess(v)
            && vmess::is_outbound_for(
            Ok(v),
            node.server@,
            node.port,
            uuid@,
            cipher@,
            transport_of(&node),
            warm,
        ),
        ProxyProtocol::Trojan { password, udp } => o matches OutboundKind::Trojan(t)
            && trojan::is_outbound_for(
            t,
            node.server@,
            node.port,
            password@,
            transport_of(&node),
            warm,
        ),
        ProxyProtocol::Shadowsocks { cipher, password, udp, shadow_tls: None } => o matches OutboundKind::Shadowsocks(
        s) && s.is_for(node.server@, node.port, ss::normal_cipher(cipher@), password@),
        ProxyProtocol::Shadowsocks { cipher, password, udp, shadow_tls: Some(st) } => o matches OutboundKind::ShadowTls(
        s) && s.inner.is_for(node.server@, node.port, ss::normal_cipher(cipher@), password@)
            && s.tls_host@ == st.host@ && s.tls_password@ == st.password@ && s.skip_cert_verify
            == st.skip_cert_verify && s.warm_pool == warm,
        ProxyProtocol::Tuic { uuid, password, congestion_control, udp } => o matches OutboundKind::Tuic(
        t) && t.server@ == node.server@ && t.port == node.port && t.uuid@ == uuid@ && t.password@
            == password@ && t.congestion_control@ == congestion_control@ && config::opt_tls(t.tls)
            == tls_of(node),
        ProxyProtocol::Hysteria2 { password, udp } => o matches OutboundKind::Hysteria2(h)
            && hysteria2::is_outbound_for(h, node.server@, node.port, password@, tls_of(node)),
    }
}

/// The protocol keeps one connection over QUIC and looks after it itself.
pub open spec fn over_quic(p: ProxyProtocol) -> bool {
    p is Tuic || p is Hysteria2
}

/// The outbound of a node: what speaks its protocol, tried three times over
/// TCP and once over QUIC.
pub open spec fn is_outbound(o: OutboundKind, node: Node, warm: bool) -> bool {
    if over_quic(node.protocol) {
        speaks(o, node, warm)
    } else {
        o matches OutboundKind::Retry(r) && speaks(*r.inner, node, warm) && r.max_attempts
            == DEFAULT_RETRY_ATTEMPTS && r.base_delay_ms == 200 && r.max_delay_ms == 2000
    }
}

/// The answer to the wish for a node's outbound.
pub open spec fn is_answer(r: Result<SharedOutbound, FactoryError>, node: Node, warm: bool) -> bool {
    match node_error(node) {
        None => r matches Ok(o) && is_outbound(*o.0, node, warm),
        Some(t) => r matches Err(e) && e.text() == t,
    }
}

/// The outbound of a node, whose connections are opened before they are
/// needed where the protocol has a pool.
pub fn create_outbound(node: &Node) -> (r: Result<SharedOutbound, FactoryError>)
    ensures
        is_answer(r, *node, true),
{
    create_outbound_inner(node, true)
}

/// The outbound of a node for a single probe: nothing is opened before it is
/// needed.
pub fn create_outbound_unwarmed(node: &Node) -> (r: Result<SharedOutbound, FactoryError>)
    ensures
        is_answer(r, *node, false),
{
    create_outbound_inner(node, false)
}

fn tls_block(node: &Node) -> (r: Option<&TlsConfig>)
    ensures
        config::tls_model(r) == tls_of(*node),
{
    match &node.transport {
        Some(t) => t.tls.as_ref(),
        None => None,
    }
}

fn over_tcp(kind: OutboundKind) -> (r: SharedOutbound)
    ensures
        *r.0 matches OutboundKind::Retry(x) && *x.inner == kind && x.max_attempts
            == DEFAULT_RETRY_ATTEMPTS && x.base_delay_ms == 200 && x.max_delay_ms == 2000,
{
    SharedOutbound(Arc::new(kind)).with_retry(DEFAULT_RETRY_ATTEMPTS)
}

fn create_outbound_inner(node: &Node, warm_pool: bool) -> (r: Result<SharedOutbound, FactoryError>)
    ensures
        is_answer(r, *node, warm_pool),
{
    let server = node.server.as_str();
    let transport = node.transport.as_ref();
    match &node.protocol {
        ProxyProtocol::VLess { uuid, flow: _, udp: _ } => {
            let out = if warm_pool {
                VlessOutbound::new(server, node.port, uuid.as_str(), transport)
            } else {
                VlessOutbound::new_unwarmed(server, node.port, uuid.as_str(), transport)
            };
            match out {
                Ok(o) => Ok(over_tcp(OutboundKind::Vless(o))),
                Err(e) => Err(FactoryError::Vless(e)),
            }
        },
        ProxyProtocol::VMess { uuid, cipher, alter_id: _, udp: _ } => {
            let out = if warm_pool {
                VMessOutbound::new(server, node.port, uuid.as_str(), cipher.as_str(), transport)
            } else {
                VMessOutbound::new_unwarmed(
                    server,
                    node.port,
                    uuid.as_str(),
                    cipher.as_str(),
                    transport,
                )
            };
            match out {
                Ok(o) => Ok(over_tcp(OutboundKind::VMess(o))),
                Err(e) => Err(FactoryError::VMess(e)),
            }
        },
        ProxyProtocol::Trojan { password, udp: _ } => {
            let out = if warm_pool {
                TrojanOutbound::new(server, node.port, password.as_str(), transport)
            } else {
                TrojanOutbound::new_unwarmed(server, node.port, password.as_str(), transport)
            };
            Ok(over_tcp(OutboundKind::Trojan(out)))
        },
        ProxyProtocol::Shadowsocks { cipher, password, udp: _, shadow_tls } => {
            let normal = ss::normalize_ss_cipher(cipher.as_str());
            match shadow_tls {
                Some(st) => {
                    let out = if warm_pool {
                        ShadowTlsOutbound::new(
                            server,
                            node.port,
                            normal,
                            password.as_str(),
                            st.host.as_str(),
                            st.password.as_str(),
                            st.skip_cert_verify,
                        )
                    } else {
                        ShadowTlsOutbound::new_unwarmed(
                            server,
                            node.port,
                            normal,
                            password.as_str(),
                            st.host.as_str(),
                            st.password.as_str(),
                            st.skip_cert_verify,
                        )
                    };
                    match out {
                        Ok(o) => Ok(over_tcp(OutboundKind::ShadowTls(o))),
                        Err(e) => Err(FactoryError::Shadowsocks(e)),
                    }
                },
                None => {
                    match SsOutbound::new(server, node.port, normal, password.as_str()) {
                        Ok(o) => Ok(over_tcp(OutboundKind::Shadowsocks(o))),
                        Err(e) => Err(FactoryError::Shadowsocks(e)),
                    }
                },
            }
        },
        ProxyProtocol::Tuic { uuid, password, congestion_control, udp: _ } => {
            let tls = match tls_block(node) {
                Some(t) => Some(t.duplicate()),
                None => None,
            };
            Ok(
                SharedOutbound(
                    Arc::new(
                        OutboundKind::Tuic(
                            TuicOutbound {
                                server: node.server.clone(),
                                port: node.port,
                                uuid: uuid.clone(),
                                password: password.clone(),
                                congestion_control: congestion_control.clone(),
                                tls,
                            },
                        ),
                    ),
                ),
            )
        },
        ProxyProtocol::Hysteria2 { password, udp: _ } => {
            match Hysteria2Outbound::new(server, node.port, password.as_str(), tls_block(node)) {
                Ok(o) => Ok(SharedOutbound(Arc::new(OutboundKind::Hysteria2(o)))),
                Err(e) => Err(FactoryError::Hysteria2(e)),
            }
        },
    }
}

/// A probe and a session differ in nothing but the warming of the pool: a
/// node has both outbounds or neither, and both have one name.
pub proof fn law_probe_speaks_the_same(
    node: Node,
    warm: Result<SharedOutbound, FactoryError>,
    cold: Result<SharedOutbound, FactoryError>,
)
    requires
        is_answer(warm, node, true),
        is_answer(cold, node, false),
    ensures
        warm is Ok == cold is Ok,
        warm is Ok ==> connector::outbound_name(*warm->Ok_0.0) == connector::outbound_name(
            *cold->Ok_0.0,
        ),
        warm is Err ==> warm->Err_0.text() == cold->Err_0.text(),
{
    reveal_with_fuel(connector::outbound_name, 3);
}

/// The outbound that does the work, without the attempts round it.
pub open spec fn within(o: OutboundKind) -> OutboundKind {
    match o {
        OutboundKind::Retry(r) => *r.inner,
        _ => o,
    }
}

/// Every node is reached by the outbound of its own protocol, at its own server and port.
pub proof fn law_node_is_reached_by_its_protocol(
    node: Node,
    warm: bool,
    r: Result<SharedOutbound, FactoryError>,
)
    requires
        is_answer(r, node, warm),
        r is Ok,
    ensures
        match (node.protocol, within(*r->Ok_0.0)) {
            (ProxyProtocol::VLess { uuid: _, flow: _, udp: _ }, OutboundKind::Vless(v)) =>
            v.server@ == node.server@ && v.port == node.port && v.factory@.server == node.server@
                && v.factory@.port == node.port && v.warm_pool == warm,
            (
                ProxyProtocol::VMess { uuid: _, cipher: _, alter_id: _, udp: _ },
                OutboundKind::VMess(v),
            ) => v.server@ == node.server@ && v.port == node.port && v.factory@.server
                == node.server@ && v.factory@.port == node.port && v.warm_pool == warm,
            (ProxyProtocol::Trojan { password: _, udp: _ }, OutboundKind::Trojan(t)) => t.server@
                == node.server@ && t.port == node.port && t.factory@.server == node.server@
                && t.factory@.port == node.port && t.warm_pool == warm,
            (
                ProxyProtocol::Shadowsocks { cipher: _, password, udp: _, shadow_tls },
                OutboundKind::Shadowsocks(s),
            ) => shadow_tls is None && s.server@ == node.server@ && s.port == node.port
                && s.password@ == password@,
            (
                ProxyProtocol::Shadowsocks { cipher: _, password, udp: _, shadow_tls },
                OutboundKind::ShadowTls(s),
            ) => shadow_tls matches Some(plugin) && s.inner.server@ == node.server@ && s.inner.port
                == node.port && s.inner.password@ == password@ && s.tls_host@ == plugin.host@
                && s.tls_password@ == plugin.password@ && s.skip_cert_verify
                == plugin.skip_cert_verify,
            (
                ProxyProtocol::Tuic { uuid, password, congestion_control: _, udp: _ },
                OutboundKind::Tuic(t),
            ) => t.server@ == node.server@ && t.port == node.port && t.uuid@ == uuid@ && t.password@
                == password@,
            (ProxyProtocol::Hysteria2 { password, udp: _ }, OutboundKind::Hysteria2(h)) => h.server@
                == node.server@ && h.port == node.port && h.password@ == password@,
            (_, _) => false,
        },
{
}

/// An identifier that was written is the one that is sent, and a Trojan server is always spoken
/// to over TLS, under the hexadecimal digest of the password.
pub proof fn law_credentials_are_those_of_the_node(
    node: Node,
    warm: bool,
    r: Result<SharedOutbound, FactoryError>,
)
    requires
        is_answer(r, node, warm),
        r is Ok,
    ensures
        match (node.protocol, within(*r->Ok_0.0)) {
            (ProxyProtocol::VLess { uuid, flow: _, udp: _ }, OutboundKind::Vless(v)) => Some(
                v.uuid@,
            ) == crypto::uuid_of(vstd::utf8::encode_utf8(uuid@)),
            (
                ProxyProtocol::VMess { uuid, cipher: _, alter_id: _, udp: _ },
                OutboundKind::VMess(v),
            ) => Some(v.uuid@) == crypto::uuid_of(vstd::utf8::encode_utf8(uuid@)),
            (ProxyProtocol::Trojan { password, udp: _ }, OutboundKind::Trojan(t)) =>
            t.factory@.use_tls && t.password_hash@ == crypto::hex_text(
                crypto::sha224_of(vstd::utf8::encode_utf8(password@)),
            ),
            (_, _) => true,
        },
{
}

/// A connection is tried three times in all, with pauses from 200 to 2000 milliseconds, but
/// over QUIC, which keeps its own connection, only once.
pub proof fn law_connections_over_tcp_are_tried_again(
    node: Node,
    warm: bool,
    r: Result<SharedOutbound, FactoryError>,
)
    requires
        is_answer(r, node, warm),
        r is Ok,
    ensures
        match *r->Ok_0.0 {
            OutboundKind::Retry(x) => !(node.protocol is Tuic) && !(node.protocol is Hysteria2)
                && x.max_attempts == 3 && x.base_delay_ms == 200 && x.max_delay_ms == 2000,
            _ => node.protocol is Tuic || node.protocol is Hysteria2,
        },
{
}

/// A node is refused only for an identifier that cannot be read, or for a cipher or a password
/// that does not fit.
pub proof fn law_only_unreadable_nodes_are_refused(
    node: Node,
    warm: bool,
    r: Result<SharedOutbound, FactoryError>,
)
    requires
        is_answer(r, node, warm),
    ensures
        match node.protocol {
            ProxyProtocol::VLess { uuid, flow: _, udp: _ } => r is Ok == crypto::uuid_of(
                vstd::utf8::encode_utf8(uuid@),
            ) is Some,
            ProxyProtocol::VMess { uuid, cipher: _, alter_id: _, udp: _ } => r is Ok
                == crypto::uuid_of(vstd::utf8::encode_utf8(uuid@)) is Some,
            ProxyProtocol::Shadowsocks { cipher, password, udp: _, shadow_tls: _ } => r is Ok
                == ss::config_error(ss::normal_cipher(cipher@), password@) is None,
            _ => r is Ok,
        },
{
}

} // verus!
