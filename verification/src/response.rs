//! Assembling the structured result of a request: status, collected
//! headers, base64 body, the echoed method and URL, the elapsed time and
//! the two size fields.

use vstd::prelude::*;
use crate::base64::{b64_encode, spec_b64_encode};
use crate::headers::{collect_headers, headers_size, pairs_view, spec_collect, spec_headers_size};

verus! {

/// The result handed back to the caller of the engine. `time_taken` is
/// in milliseconds, measured around the wait for the response head only;
/// being unsigned it is never negative. `body` holds the base64 bytes of
/// the raw body; `body_size_bytes` counts the raw bytes themselves.
#[derive(Debug)]
pub struct Response {
    pub status: u16,
    pub body: Vec<u8>,
    pub headers: Vec<(Vec<u8>, Vec<u8>)>,
    pub url: String,
    pub method: String,
    pub time_taken: u128,
    pub body_size_bytes: u128,
    pub headers_size_bytes: u128,
}

/// Build the result from what the transport observed: the status, the
/// header pairs in delivered order, the raw body bytes, the echoed URL
/// and method, and the measured milliseconds.
pub fn assemble_response(
    status: u16,
    delivered: &Vec<(Vec<u8>, Vec<u8>)>,
    raw_body: &Vec<u8>,
    url: &String,
    method: &String,
    time_taken: u128,
) -> (r: Response)
    ensures
        r.status == status,
        r.body@ == spec_b64_encode(raw_body@),
        pairs_view(r.headers@) == spec_collect(pairs_view(delivered@)),
        r.url@ == url@,
        r.method@ == method@,
        r.time_taken == time_taken,
        r.body_size_bytes == raw_body@.len(),
        spec_headers_size(pairs_view(delivered@)) <= u128::MAX ==> r.headers_size_bytes
            == spec_headers_size(pairs_view(delivered@)),
        r.headers_size_bytes <= spec_headers_size(pairs_view(delivered@)),
{
    let body = b64_encode(raw_body);
    let headers = collect_headers(delivered);
    let headers_size_bytes = headers_size(delivered);
    Response {
        status,
        body,
        headers,
        url: url.clone(),
        method: method.clone(),
        time_taken,
        body_size_bytes: raw_body.len() as u128,
        headers_size_bytes,
    }
}

} // verus!
