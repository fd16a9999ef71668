//! Verified core of a multi-protocol proxy client: wire formats, routing,
//! and the decisions of its connection state machines.

pub mod bytes;
pub mod config;
pub mod crypto;
pub mod net;
pub mod platform;
pub mod proxy;
pub mod qr;
pub mod router;
pub mod share_server;
pub mod system_proxy;
pub mod table;
pub mod text;
