//! Verified core of an HTTP request engine: URL resolution, protocol
//! selection over ALPN, fixed request headers, response accounting, and the
//! base64 body encoding, each with a proved contract. Network I/O and the
//! TLS handshake themselves live outside the library; the library makes every
//! decision and computes every value that the request path needs.

pub mod base64;
pub mod body;
pub mod errors;
pub mod headers;
pub mod method;
pub mod proto;
pub mod request;
pub mod response;
pub mod tls;
pub mod url;
