//! The decisions around the TLS layer: which server name may be offered
//! for SNI, and which ALPN identifiers are put on the wire. The handshake
//! itself is I/O and stays outside the library.

use vstd::prelude::*;
use crate::errors::Error;

verus! {

/// Whether the certificate library accepts these bytes as a server name:
/// a well-formed DNS name or an IP-address literal. The answer depends on
/// the bytes alone.
pub uninterp spec fn server_name_valid(h: Seq<u8>) -> bool;

/// Relies on `rustls_pki_types::ServerName::try_from` for `&[u8]`: it
/// accepts exactly the well-formed DNS names and IP-address literals,
/// rejects the empty input, and its answer is a function of the bytes
/// alone.
#[verifier::external_body]
fn server_name_ok(host: &[u8]) -> (r: bool)
    ensures
        r == server_name_valid(host@),
        host@.len() == 0 ==> r == false,
{
    rustls_pki_types::ServerName::try_from(host).is_ok()
}

/// Gate before the TLS handshake: `Ok` exactly when the host will be
/// accepted as an SNI server name; otherwise the URL is reported invalid.
pub fn check_server_name(host: &Vec<u8>) -> (r: Result<(), Error>)
    ensures
        r is Ok <==> server_name_valid(host@),
        r is Err ==> r->Err_0 is InvalidUrl,
{
    if server_name_ok(host.as_slice()) {
        Ok(())
    } else {
        Err(Error::InvalidUrl)
    }
}

/// The bytes of the ALPN identifier `h2`.
pub open spec fn spec_alpn_h2() -> Seq<u8> {
    seq![104u8, 50u8]
}

/// The bytes of the ALPN identifier `http/1.1`.
pub open spec fn spec_alpn_http11() -> Seq<u8> {
    seq![104u8, 116u8, 116u8, 112u8, 47u8, 49u8, 46u8, 49u8]
}

/// The ALPN identifiers offered during the handshake, most preferred
/// first: `h2`, then `http/1.1`.
pub fn alpn_offers() -> (r: Vec<Vec<u8>>)
    ensures
        r@.len() == 2,
        r@[0]@ == spec_alpn_h2(),
        r@[1]@ == spec_alpn_http11(),
{
    let mut h2: Vec<u8> = Vec::new();
    h2.push(104);
    h2.push(50);
    assert(h2@ =~= spec_alpn_h2());
    let mut h11: Vec<u8> = Vec::new();
    h11.push(104);
    h11.push(116);
    h11.push(116);
    h11.push(112);
    h11.push(47);
    h11.push(49);
    h11.push(46);
    h11.push(49);
    assert(h11@ =~= spec_alpn_http11());
    let mut r: Vec<Vec<u8>> = Vec::new();
    r.push(h2);
    r.push(h11);
    r
}

} // verus!
