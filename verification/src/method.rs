//! HTTP method validation. A request is issued only with a method the
//! HTTP stack recognises; everything else is rejected up front with
//! `Error::InvalidMethod`, before any connection is attempted.

use vstd::prelude::*;
use std::str::FromStr;

verus! {

/// Whether the HTTP stack accepts `m` as a request method: a non-empty
/// token in the method grammar. The answer depends on the characters of
/// `m` alone.
pub uninterp spec fn method_valid(m: Seq<char>) -> bool;

/// Relies on `http::Method::from_str`: it accepts exactly the non-empty
/// method tokens (the standard methods and extension tokens), rejecting
/// the empty string and any string with a byte outside the token
/// alphabet, and its answer is a function of the string alone.
#[verifier::external_body]
pub(crate) fn method_ok(m: &str) -> (r: bool)
    ensures
        r == method_valid(m@),
        m@.len() == 0 ==> r == false,
{
    http::Method::from_str(m).is_ok()
}

} // verus!
