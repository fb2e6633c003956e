//! Framing for a SOCKS5 proxy that tunnels its connections through one
//! pipe between a SOCKS front end and a gateway: the pipe's wire format,
//! the SOCKS5 request grammar, and the decisions that both ends take on
//! each message.

pub mod codec;
pub mod text;
pub mod wire;
pub mod socks;
pub mod registry;
pub mod relay;
