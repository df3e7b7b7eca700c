//! Building a request plan: method validation first, then URL
//! resolution, then the fixed header list. The plan carries everything
//! the transport needs to issue the request.

use vstd::prelude::*;
use vstd::string::StringSliceAdditionalSpecFns;
use vstd::string::StringExecFns;
use crate::errors::Error;
use crate::method::{method_ok, method_valid};
use crate::url::{resolve, spec_host, spec_path, spec_port, spec_scheme_of, spec_url_ok, UrlParts};

verus! {

/// The bytes of the header name `Host`.
pub open spec fn host_header_name() -> Seq<u8> {
    seq![72u8, 111u8, 115u8, 116u8]
}

/// The bytes of the header name `User-Agent`.
pub open spec fn user_agent_name() -> Seq<u8> {
    seq![85u8, 115u8, 101u8, 114u8, 45u8, 65u8, 103u8, 101u8, 110u8, 116u8]
}

/// The bytes of the fixed `User-Agent` value, `Quickie/1.0`.
pub open spec fn user_agent_value() -> Seq<u8> {
    seq![81u8, 117u8, 105u8, 99u8, 107u8, 105u8, 101u8, 47u8, 49u8, 46u8, 48u8]
}

/// The fixed header list of every outbound request: `Host`, then
/// `User-Agent`.
pub open spec fn spec_request_headers(host: Seq<u8>) -> Seq<(Seq<u8>, Seq<u8>)> {
    seq![(host_header_name(), host), (user_agent_name(), user_agent_value())]
}

/// How many headers of the list carry this name.
pub open spec fn count_name(hs: Seq<(Seq<u8>, Seq<u8>)>, name: Seq<u8>) -> int
    decreases hs.len(),
{
    if hs.len() == 0 {
        0
    } else {
        count_name(hs.drop_last(), name) + if hs.last().0 == name {
            1int
        } else {
            0int
        }
    }
}

/// Fixed-header law: the outbound header list carries exactly one
/// `User-Agent` header, with the value `Quickie/1.0`, and exactly one
/// `Host` header, whose value is the URL host.
pub proof fn lemma_fixed_headers(host: Seq<u8>)
    ensures
        count_name(spec_request_headers(host), user_agent_name()) == 1,
        count_name(spec_request_headers(host), host_header_name()) == 1,
        spec_request_headers(host)[0] == (host_header_name(), host),
        spec_request_headers(host)[1] == (user_agent_name(), user_agent_value()),
{
    let hs = spec_request_headers(host);
    let first = seq![(host_header_name(), host)];
    assert(hs.drop_last() =~= first);
    assert(first.drop_last() =~= Seq::<(Seq<u8>, Seq<u8>)>::empty());
    assert(host_header_name().len() != user_agent_name().len());
    assert(count_name(Seq::<(Seq<u8>, Seq<u8>)>::empty(), user_agent_name()) == 0);
    assert(count_name(first, user_agent_name()) == 0);
    assert(count_name(hs, user_agent_name()) == 1);
    assert(count_name(Seq::<(Seq<u8>, Seq<u8>)>::empty(), host_header_name()) == 0);
    assert(count_name(first, host_header_name()) == 1);
    assert(count_name(hs, host_header_name()) == 1);
}

/// Build the fixed header list for this host.
pub fn request_headers(host: &Vec<u8>) -> (r: Vec<(Vec<u8>, Vec<u8>)>)
    ensures
        r@.len() == 2,
        r@[0].0@ == host_header_name(),
        r@[0].1@ == host@,
        r@[1].0@ == user_agent_name(),
        r@[1].1@ == user_agent_value(),
{
    let mut hn: Vec<u8> = Vec::new();
    hn.push(72);
    hn.push(111);
    hn.push(115);
    hn.push(116);
    assert(hn@ =~= host_header_name());
    let mut uan: Vec<u8> = Vec::new();
    uan.push(85);
    uan.push(115);
    uan.push(101);
    uan.push(114);
    uan.push(45);
    uan.push(65);
    uan.push(103);
    uan.push(101);
    uan.push(110);
    uan.push(116);
    assert(uan@ =~= user_agent_name());
    let mut uav: Vec<u8> = Vec::new();
    uav.push(81);
    uav.push(117);
    uav.push(105);
    uav.push(99);
    uav.push(107);
    uav.push(105);
    uav.push(101);
    uav.push(47);
    uav.push(49);
    uav.push(46);
    uav.push(48);
    assert(uav@ =~= user_agent_value());
    let hv: Vec<u8> = vstd::slice::slice_to_vec(host.as_slice());
    let mut r: Vec<(Vec<u8>, Vec<u8>)> = Vec::new();
    r.push((hn, hv));
    r.push((uan, uav));
    r
}

/// Everything the transport needs to issue one request: the validated
/// method, the URL as given (echoed in the result), its resolved parts,
/// and the fixed headers.
#[derive(Debug)]
pub struct RequestPlan {
    pub method: String,
    pub url: String,
    pub parts: UrlParts,
    pub headers: Vec<(Vec<u8>, Vec<u8>)>,
}

/// Validate the method, resolve the URL and fix the headers. The method
/// is checked first: an invalid method is reported even when the URL is
/// bad too. `Ok` comes exactly on a valid method and an in-grammar URL.
pub fn prepare(method: &str, url: &str) -> (r: Result<RequestPlan, Error>)
    ensures
        r is Ok <==> method_valid(method@) && spec_url_ok(url.spec_bytes()),
        ((r matches Err(e) && e is InvalidMethod)) <==> !method_valid(method@),
        (r matches Err(e) && e is InvalidUrl) <==> method_valid(method@) && !spec_url_ok(
            url.spec_bytes(),
        ),
        r matches Ok(p) ==> {
            &&& p.method@ == method@
            &&& p.url@ == url@
            &&& p.parts.scheme == spec_scheme_of(url.spec_bytes())->Some_0
            &&& p.parts.host@ == spec_host(url.spec_bytes())
            &&& p.parts.port == spec_port(url.spec_bytes())
            &&& p.parts.path@ == spec_path(url.spec_bytes())
            &&& p.parts.wf()
            &&& p.headers@.len() == 2
            &&& p.headers@[0].0@ == host_header_name()
            &&& p.headers@[0].1@ == spec_host(url.spec_bytes())
            &&& p.headers@[1].0@ == user_agent_name()
            &&& p.headers@[1].1@ == user_agent_value()
        },
{
    if !method_ok(method) {
        return Err(Error::InvalidMethod);
    }
    let parts = match resolve(url) {
        Ok(p) => p,
        Err(e) => {
            return Err(e);
        },
    };
    let headers = request_headers(&parts.host);
    Ok(RequestPlan { method: String::from_str(method), url: String::from_str(url), parts, headers })
}

} // verus!
