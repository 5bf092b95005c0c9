//! Helpers for single-page-application servers: a request filter that can answer
//! a request itself, HTTP Basic and Digest authentication, cookie sessions and the
//! configuration of a server that embeds its frontend files.
pub mod text;
pub mod digest;
pub mod nonce;
pub mod auth;
pub mod session;
pub mod filter;
pub mod server;
