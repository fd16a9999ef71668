//! The tunnel that takes all traffic of the system.

pub mod commands;
pub mod environment;
pub mod gateway;
pub mod icmp;
pub mod plan;
pub mod routes;
pub mod stream;
