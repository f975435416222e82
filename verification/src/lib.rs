//! An authenticated streaming HTTP reverse proxy library.
//!
//! The crate provides the verified core of the proxy: the encrypted token
//! envelope carrying a [`encryption::ProxyData`] descriptor, the pattern
//! router selecting a forward proxy per destination, the authorizer deciding
//! whether a request may pass, the header and framing rules of the relay,
//! and the signed-URL generator. All I/O (the HTTP server and the upstream
//! client) lives outside this crate and consumes these functions.

pub mod auth;
pub mod cipher;
pub mod clock;
pub mod config;
pub mod encryption;
pub mod error;
pub mod headers;
pub mod json;
pub mod models;
pub mod query;
pub mod router;
pub mod stream;
pub mod token;
pub mod urlgen;

pub use error::AppError;
