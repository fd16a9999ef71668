//! Routing: which connections go through the proxy.

pub mod engine;
pub mod geoip;
pub mod rule_mode;
