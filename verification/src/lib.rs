//! HTTP response caching middleware core with integrated content encoding.
//!
//! The crate models the decision logic of a caching middleware: cache keys,
//! multi-encoding cached bodies, cached responses, request and upstream
//! response classification, and the per-request state machine. Compression
//! codecs and date/duration parsing are reached through small trusted
//! wrappers around outside crates.

pub mod accept;
pub mod ascii;
pub mod body;
pub mod codec;
pub mod conditional;
pub mod config;
pub mod encoding;
pub mod headers;
pub mod key;
pub mod request;
pub mod response;
pub mod service;
pub mod tiered;
pub mod time;
pub mod upstream;
pub mod weight;
