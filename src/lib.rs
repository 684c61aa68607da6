//! A small HTTP/1.1 server engine: request parsing, path-template routing,
//! response building and serialisation, and the per-connection decisions.
pub mod text;
pub mod str_map;
pub mod request;
pub mod response;
pub mod router;
pub mod compress;
pub mod server;
pub mod handlers;
pub mod config;
