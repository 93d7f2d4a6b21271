//! A small HTTP/1.1 engine: request parsing, body framing, routing, the
//! signature gate for webhook deliveries, and client request framing.

pub mod method;
pub mod text;
pub mod request;
pub mod signature;
pub mod server;
pub mod client;
pub mod interaction;
pub mod config;
