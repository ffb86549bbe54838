//! A small HTTP/1.1 protocol layer: header model, request parsing,
//! response framing and a routing table, with machine-checked contracts.

pub mod common;
pub mod framing;
pub mod handlers;
pub mod listing;
pub mod mime_types;
pub mod number;
pub mod request;
pub mod response;
pub mod server;
pub mod text;
