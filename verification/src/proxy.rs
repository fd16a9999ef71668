//! The proxy: protocols, transports, and the services built on them.

pub mod address;
pub mod connector;
pub mod factory;
pub mod health;
pub mod http;
pub mod hysteria2;
pub mod outbound_bind;
pub mod pool;
pub mod quic_conn;
pub mod race;
pub mod reality;
pub mod relay;
pub mod routing;
pub mod service;
pub mod shadow_tls;
pub mod socks5;
pub mod speedtest;
pub mod ss;
pub mod stats;
pub mod transport;
pub mod trojan;
pub mod tun;
pub mod vless;
pub mod vmess;
pub mod ws;
