//! The core of a forwarding HTTP/1.1 proxy: wire-exact message framing,
//! chunked-transfer decoding, destination resolution, and the forwarding
//! state machine that maps every failure to one client-visible response.
//!
//! - [`url`] parses `scheme://host[:port][/path]` destination strings.
//! - [`headers`] keeps the header mapping: lower-cased, unique keys.
//! - [`message`] is the shared framing contract: any message serializes the
//!   same way, never re-emitting `transfer-encoding` and supplying
//!   `Content-Length` when a body is present without one.
//! - [`request`] reads a request head and rewrites it for upstream delivery.
//! - [`response`] reads an upstream response, decoding chunked bodies.
//! - [`proxy`] sequences one exchange and synthesizes error responses.
//! - [`config`], [`size`], [`error`] carry the configuration value, the byte
//!   count formatting for the log line, and the failure taxonomy.
//! - [`text`], [`raw`], [`num`] are the character-, byte- and number-level
//!   helpers the readers are specified and proved with.

pub mod config;
pub mod error;
pub mod size;
pub mod headers;
pub mod message;
pub mod num;
pub mod proxy;
pub mod raw;
pub mod request;
pub mod response;
pub mod text;
pub mod url;
