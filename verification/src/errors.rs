//! The error taxonomy of the request engine. Every failure surfaces as one
//! of these kinds; none is silently mapped to success.

use vstd::prelude::*;

verus! {

/// One kind per failure site: method validation, URL resolution, TCP
/// establishment, TLS handshake, protocol handshake, request dispatch, and
/// response-frame reads (the last carries a diagnostic cause).
#[derive(Debug, Clone, PartialEq, Eq)]
pub enum Error {
    InvalidMethod,
    InvalidUrl,
    Dns,
    ConnectionFailed,
    Client,
    RequestFailed,
    ResponseFrame(String),
}

impl Error {
    /// Human-readable rendering of the kind, used by callers that report
    /// the failure to a user.
    pub fn describe(&self) -> (r: &'static str)
        ensures
            self is InvalidMethod ==> r@ == "Invalid method"@,
            self is InvalidUrl ==> r@ == "Invalid url"@,
            self is Dns ==> r@ == "DNS error, check the url"@,
            self is ConnectionFailed ==> r@ == "TLS connection failed"@,
            self is Client ==> r@ == "HTTP handshake failed"@,
            self is RequestFailed ==> r@ == "Request failed"@,
            self is ResponseFrame ==> r@ == "Response frame error"@,
    {
        match self {
            Error::InvalidMethod => "Invalid method",
            Error::InvalidUrl => "Invalid url",
            Error::Dns => "DNS error, check the url",
            Error::ConnectionFailed => "TLS connection failed",
            Error::Client => "HTTP handshake failed",
            Error::RequestFailed => "Request failed",
            Error::ResponseFrame(_) => "Response frame error",
        }
    }
}

} // verus!
