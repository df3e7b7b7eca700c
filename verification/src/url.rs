//! URL resolution: splitting an absolute URL into scheme, host, port and
//! path, with the default port supplied when none is written.
//!
//! The accepted shape is `http://<host>(:<port>)?(/<path>)?` or the same
//! with `https`. The host is a non-empty run of letters, digits, `-`, `.`
//! or `_`; the port, when present, is a digit run whose value lies in
//! `1 ..= 65535`; whatever follows is the path and must begin with `/`.
//! Every other input is rejected with `Error::InvalidUrl`.

use vstd::prelude::*;
use vstd::string::StringSliceAdditionalSpecFns;
use crate::errors::Error;

verus! {

// The ASCII bytes the grammar speaks of.
pub const B_H: u8 = 104;

pub const B_T: u8 = 116;

pub const B_P: u8 = 112;

pub const B_S: u8 = 115;

pub const B_COLON: u8 = 58;

pub const B_SLASH: u8 = 47;

pub const B_LA: u8 = 97;

pub const B_LZ: u8 = 122;

pub const B_UA: u8 = 65;

pub const B_UZ: u8 = 90;

pub const B_D0: u8 = 48;

pub const B_D9: u8 = 57;

pub const B_DASH: u8 = 45;

pub const B_DOT: u8 = 46;

pub const B_UNDER: u8 = 95;

/// The two supported transport schemes.
#[derive(Debug, Clone, Copy, PartialEq, Eq, Structural)]
pub enum Scheme {
    Http,
    Https,
}

/// The TCP port used when the URL names none: 80 for http, 443 for https.
pub open spec fn spec_default_port(scheme: Scheme) -> u16 {
    match scheme {
        Scheme::Http => 80,
        Scheme::Https => 443,
    }
}

pub fn default_port(scheme: Scheme) -> (r: u16)
    ensures
        r == spec_default_port(scheme),
{
    match scheme {
        Scheme::Http => 80,
        Scheme::Https => 443,
    }
}

/// The bytes of `http://`.
pub open spec fn http_prefix() -> Seq<u8> {
    seq![B_H, B_T, B_T, B_P, B_COLON, B_SLASH, B_SLASH]
}

/// The bytes of `https://`.
pub open spec fn https_prefix() -> Seq<u8> {
    seq![B_H, B_T, B_T, B_P, B_S, B_COLON, B_SLASH, B_SLASH]
}

/// Which scheme prefix, if either, the URL bytes begin with.
pub open spec fn spec_scheme_of(s: Seq<u8>) -> Option<Scheme> {
    if s.len() >= 8 && s.take(8) == https_prefix() {
        Some(Scheme::Https)
    } else if s.len() >= 7 && s.take(7) == http_prefix() {
        Some(Scheme::Http)
    } else {
        None
    }
}

/// Length of the scheme prefix, `://` included.
pub open spec fn spec_prefix_len(scheme: Scheme) -> int {
    match scheme {
        Scheme::Http => 7,
        Scheme::Https => 8,
    }
}

/// A byte the grammar accepts inside a host name.
pub open spec fn is_host_byte(c: u8) -> bool {
    (B_LA <= c && c <= B_LZ) || (B_UA <= c && c <= B_UZ) || (B_D0 <= c && c <= B_D9) || c == B_DASH
        || c == B_DOT || c == B_UNDER
}

/// An ASCII decimal digit.
pub open spec fn is_digit(c: u8) -> bool {
    B_D0 <= c && c <= B_D9
}

/// A byte that ends the host: the start of a port or of a path.
pub open spec fn is_sep(c: u8) -> bool {
    c == B_COLON || c == B_SLASH
}

pub open spec fn all_host_bytes(s: Seq<u8>) -> bool {
    forall|i: int| 0 <= i < s.len() ==> is_host_byte(#[trigger] s[i])
}

pub open spec fn all_digits(s: Seq<u8>) -> bool {
    forall|i: int| 0 <= i < s.len() ==> is_digit(#[trigger] s[i])
}

/// Length of the prefix of `s` that stands before the first separator.
pub open spec fn host_len(s: Seq<u8>) -> int
    decreases s.len(),
{
    if s.len() == 0 {
        0
    } else if is_sep(s[0]) {
        0
    } else {
        1 + host_len(s.skip(1))
    }
}

/// Length of the prefix of `s` that stands before the first `/`.
pub open spec fn port_len(s: Seq<u8>) -> int
    decreases s.len(),
{
    if s.len() == 0 {
        0
    } else if s[0] == B_SLASH {
        0
    } else {
        1 + port_len(s.skip(1))
    }
}

/// Any position with no separator before it and one at it is `host_len`.
pub proof fn lemma_host_len_unique(s: Seq<u8>, i: int)
    requires
        0 <= i <= s.len(),
        forall|j: int| 0 <= j < i ==> !is_sep(#[trigger] s[j]),
        i < s.len() ==> is_sep(s[i]),
    ensures
        host_len(s) == i,
    decreases s.len(),
{
    if s.len() == 0 {
    } else if is_sep(s[0]) {
        assert(i == 0);
    } else {
        assert(i >= 1);
        assert forall|j: int| 0 <= j < i - 1 implies !is_sep(#[trigger] s.skip(1)[j]) by {
            assert(s.skip(1)[j] == s[j + 1]);
        }
        if i - 1 < s.len() - 1 {
            assert(s.skip(1)[i - 1] == s[i]);
        }
        lemma_host_len_unique(s.skip(1), i - 1);
    }
}

/// The counterpart of `lemma_host_len` for `port_len`.
pub proof fn lemma_port_len(s: Seq<u8>)
    ensures
        0 <= port_len(s) <= s.len(),
        forall|i: int| 0 <= i < port_len(s) ==> #[trigger] s[i] != B_SLASH,
        port_len(s) < s.len() ==> s[port_len(s)] == B_SLASH,
    decreases s.len(),
{
    if s.len() == 0 || s[0] == B_SLASH {
    } else {
        lemma_port_len(s.skip(1));
        assert forall|i: int| 0 <= i < port_len(s) implies #[trigger] s[i] != B_SLASH by {
            if i > 0 {
                assert(s.skip(1)[i - 1] == s[i]);
            }
        }
        if port_len(s) < s.len() {
            assert(s.skip(1)[port_len(s) - 1] == s[port_len(s)]);
        }
    }
}

/// The counterpart of `lemma_host_len_unique` for `port_len`.
pub proof fn lemma_port_len_unique(s: Seq<u8>, i: int)
    requires
        0 <= i <= s.len(),
        forall|j: int| 0 <= j < i ==> #[trigger] s[j] != B_SLASH,
        i < s.len() ==> s[i] == B_SLASH,
    ensures
        port_len(s) == i,
    decreases s.len(),
{
    if s.len() == 0 {
    } else if s[0] == B_SLASH {
        assert(i == 0);
    } else {
        assert(i >= 1);
        assert forall|j: int| 0 <= j < i - 1 implies #[trigger] s.skip(1)[j] != B_SLASH by {
            assert(s.skip(1)[j] == s[j + 1]);
        }
        if i - 1 < s.len() - 1 {
            assert(s.skip(1)[i - 1] == s[i]);
        }
        lemma_port_len_unique(s.skip(1), i - 1);
    }
}

/// The number a digit run denotes, most significant digit first.
pub open spec fn digits_val(s: Seq<u8>) -> int
    decreases s.len(),
{
    if s.len() == 0 {
        0
    } else {
        10 * digits_val(s.drop_last()) + (s.last() - B_D0)
    }
}

pub proof fn lemma_digits_val_nonneg(s: Seq<u8>)
    requires
        all_digits(s),
    ensures
        digits_val(s) >= 0,
    decreases s.len(),
{
    if s.len() > 0 {
        assert(all_digits(s.drop_last()));
        lemma_digits_val_nonneg(s.drop_last());
    }
}

/// Appending digits never lowers the value: the value of a prefix bounds
/// the value of the whole run from below.
pub proof fn lemma_digits_val_prefix(s: Seq<u8>, i: int)
    requires
        0 <= i <= s.len(),
        all_digits(s),
    ensures
        digits_val(s.take(i)) <= digits_val(s),
    decreases s.len() - i,
{
    if i == s.len() {
        assert(s.take(i) =~= s);
    } else {
        assert(s.take(i + 1).drop_last() =~= s.take(i));
        assert(s.take(i + 1).last() == s[i]);
        assert(all_digits(s.take(i)));
        lemma_digits_val_nonneg(s.take(i));
        lemma_digits_val_prefix(s, i + 1);
    }
}

/// The bytes after the scheme prefix.
pub open spec fn spec_rest(s: Seq<u8>) -> Seq<u8> {
    s.skip(spec_prefix_len(spec_scheme_of(s)->Some_0))
}

/// The host bytes of the URL (meaningful when a scheme prefix is present).
pub open spec fn spec_host(s: Seq<u8>) -> Seq<u8> {
    spec_rest(s).take(host_len(spec_rest(s)))
}

/// What follows the host: empty, a path, or `:port` then a path.
pub open spec fn spec_after_host(s: Seq<u8>) -> Seq<u8> {
    spec_rest(s).skip(host_len(spec_rest(s)))
}

/// The digit run of an explicit port, when one is written.
pub open spec fn spec_port_digits(s: Seq<u8>) -> Seq<u8> {
    let t = spec_after_host(s).skip(1);
    t.take(port_len(t))
}

/// Whether the URL writes a port of its own.
pub open spec fn spec_has_explicit_port(s: Seq<u8>) -> bool {
    spec_after_host(s).len() > 0 && spec_after_host(s)[0] == B_COLON
}

/// The URL grammar: scheme prefix, non-empty well-formed host, an optional
/// in-range port, and a path that (when present) begins with `/`.
pub open spec fn spec_url_ok(s: Seq<u8>) -> bool {
    &&& spec_scheme_of(s) is Some
    &&& spec_host(s).len() > 0
    &&& all_host_bytes(spec_host(s))
    &&& (spec_has_explicit_port(s) ==> {
        &&& spec_port_digits(s).len() > 0
        &&& all_digits(spec_port_digits(s))
        &&& 1 <= digits_val(spec_port_digits(s)) <= 65535
    })
    &&& (!spec_has_explicit_port(s) ==> spec_after_host(s).len() == 0 || spec_after_host(s)[0]
        == B_SLASH)
}

/// The TCP target port: the explicit one when written, else the default
/// of the scheme.
pub open spec fn spec_port(s: Seq<u8>) -> u16 {
    if spec_has_explicit_port(s) {
        digits_val(spec_port_digits(s)) as u16
    } else {
        spec_default_port(spec_scheme_of(s)->Some_0)
    }
}

/// The path bytes: everything after host and port.
pub open spec fn spec_path(s: Seq<u8>) -> Seq<u8> {
    if spec_has_explicit_port(s) {
        spec_after_host(s).skip(1 + port_len(spec_after_host(s).skip(1)))
    } else {
        spec_after_host(s)
    }
}

/// A resolved URL: the values every later stage of a request works from.
#[derive(Debug, Clone, PartialEq, Eq)]
pub struct UrlParts {
    pub scheme: Scheme,
    pub host: Vec<u8>,
    pub port: u16,
    pub path: Vec<u8>,
}

impl UrlParts {
    /// The invariant every resolved URL satisfies.
    pub open spec fn wf(self) -> bool {
        &&& self.host@.len() > 0
        &&& all_host_bytes(self.host@)
        &&& self.port >= 1
        &&& self.path@.len() == 0 || self.path@[0] == B_SLASH
    }

    /// The request target: the path as written, or `/` when the URL has
    /// none.
    pub fn target(&self) -> (r: Vec<u8>)
        ensures
            self.path@.len() == 0 ==> r@ =~= seq![B_SLASH],
            self.path@.len() > 0 ==> r@ == self.path@,
    {
        if self.path.len() == 0 {
            let mut v: Vec<u8> = Vec::new();
            v.push(B_SLASH);
            v
        } else {
            let mut v: Vec<u8> = Vec::new();
            let mut i: usize = 0;
            while i < self.path.len()
                invariant
                    i <= self.path@.len(),
                    v@ =~= self.path@.take(i as int),
                decreases self.path@.len() - i,
            {
                v.push(self.path[i]);
                i = i + 1;
            }
            assert(v@ =~= self.path@);
            v
        }
    }
}

fn host_byte(c: u8) -> (r: bool)
    ensures
        r == is_host_byte(c),
{
    (B_LA <= c && c <= B_LZ) || (B_UA <= c && c <= B_UZ) || (B_D0 <= c && c <= B_D9) || c == B_DASH
        || c == B_DOT || c == B_UNDER
}

/// Split a URL into scheme, host, port and path. Returns `InvalidUrl`
/// exactly on the inputs outside the grammar; on every accepted input the
/// four parts equal the ones the grammar names, the default port filled in
/// where the URL writes none.
#[verifier::loop_isolation(false)]
#[verifier::rlimit(100)]
pub fn resolve(url: &str) -> (r: Result<UrlParts, Error>)
    ensures
        r is Ok <==> spec_url_ok(url.spec_bytes()),
        r is Err ==> r->Err_0 is InvalidUrl,
        r is Ok ==> {
            let u = r->Ok_0;
            &&& u.scheme == spec_scheme_of(url.spec_bytes())->Some_0
            &&& u.host@ == spec_host(url.spec_bytes())
            &&& u.port == spec_port(url.spec_bytes())
            &&& u.path@ == spec_path(url.spec_bytes())
            &&& u.wf()
        },
{
    let b: &[u8] = url.as_bytes();
    let n: usize = b.len();
    let ghost s = url.spec_bytes();

    // Scheme prefix.
    let https = n >= 8 && b[0] == B_H && b[1] == B_T && b[2] == B_T && b[3] == B_P && b[4]
        == B_S && b[5] == B_COLON && b[6] == B_SLASH && b[7] == B_SLASH;
    let http = !https && n >= 7 && b[0] == B_H && b[1] == B_T && b[2] == B_T && b[3] == B_P
        && b[4] == B_COLON && b[5] == B_SLASH && b[6] == B_SLASH;
    let (scheme, plen): (Scheme, usize) = if https {
        proof {
            assert(s.take(8) =~= https_prefix());
        }
        (Scheme::Https, 8)
    } else if http {
        proof {
            assert(s.take(7) =~= http_prefix());
            if s.len() >= 8 && s.take(8) == https_prefix() {
                assert(s.take(8)[4] == s[4]);
                assert(https_prefix()[4] == B_S);
                assert(false);
            }
        }
        (Scheme::Http, 7)
    } else {
        proof {
            if s.len() >= 8 && s.take(8) == https_prefix() {
                assert(forall|i: int| 0 <= i < 8 ==> #[trigger] s.take(8)[i] == s[i]);
                assert(s[0] == B_H && s[1] == B_T && s[2] == B_T && s[3] == B_P && s[4]
                    == B_S && s[5] == B_COLON && s[6] == B_SLASH && s[7] == B_SLASH);
                assert(false);
            }
            if s.len() >= 7 && s.take(7) == http_prefix() {
                assert(forall|i: int| 0 <= i < 7 ==> #[trigger] s.take(7)[i] == s[i]);
                assert(s[0] == B_H && s[1] == B_T && s[2] == B_T && s[3] == B_P && s[4]
                    == B_COLON && s[5] == B_SLASH && s[6] == B_SLASH);
                assert(false);
            }
            assert(spec_scheme_of(s) is None);
        }
        return Err(Error::InvalidUrl);
    };
    proof {
        assert(spec_scheme_of(s) == Some(scheme));
        assert(spec_prefix_len(scheme) == plen as int);
    }
    let ghost rest = s.skip(plen as int);

    // Host: scan to the first `:` or `/`.
    let mut i: usize = plen;
    while i < n && b[i] != B_COLON && b[i] != B_SLASH
        invariant
            plen <= i <= n,
            n == s.len(),
            b@ == s,
            forall|j: int| plen <= j < i ==> !is_sep(#[trigger] s[j]),
        decreases n - i,
    {
        i = i + 1;
    }
    proof {
        assert forall|j: int| 0 <= j < i - plen implies !is_sep(#[trigger] rest[j]) by {
            assert(rest[j] == s[j + plen]);
        }
        if i < n {
            assert(rest[i - plen] == s[i as int]);
        }
        lemma_host_len_unique(rest, i - plen);
        assert(spec_host(s) =~= s.subrange(plen as int, i as int));
    }
    if i == plen {
        return Err(Error::InvalidUrl);
    }
    // Every host byte must be in the host alphabet.
    let mut j: usize = plen;
    while j < i
        invariant
            plen <= j <= i <= n,
            n == s.len(),
            b@ == s,
            forall|k: int| plen <= k < j ==> is_host_byte(#[trigger] s[k]),
        decreases i - j,
    {
        if !host_byte(b[j]) {
            proof {
                assert(spec_host(s)[j - plen] == s[j as int]);
            }
            return Err(Error::InvalidUrl);
        }
        j = j + 1;
    }
    proof {
        assert forall|k: int| 0 <= k < spec_host(s).len() implies is_host_byte(
            #[trigger] spec_host(s)[k],
        ) by {
            assert(spec_host(s)[k] == s[k + plen]);
        }
    }
    let host: Vec<u8> = vstd::slice::slice_to_vec(&b[plen..i]);
    let ghost after = rest.skip(host_len(rest));
    proof {
        assert(after =~= s.skip(i as int));
        assert(after == spec_after_host(s));
    }

    if i == n {
        // No port, no path.
        let port = default_port(scheme);
        let parts = UrlParts { scheme, host, port, path: Vec::new() };
        proof {
            assert(spec_path(s) =~= Seq::<u8>::empty());
        }
        return Ok(parts);
    }
    if b[i] == B_SLASH {
        // Default port; the rest is the path.
        let port = default_port(scheme);
        let path: Vec<u8> = vstd::slice::slice_to_vec(&b[i..n]);
        let parts = UrlParts { scheme, host, port, path };
        proof {
            assert(spec_path(s) =~= s.subrange(i as int, n as int));
            assert(spec_path(s)[0] == s[i as int]);
        }
        return Ok(parts);
    }
    // Explicit port: digits up to the first `/`.
    proof {
        assert(after[0] == s[i as int]);
        assert(spec_has_explicit_port(s));
    }
    let ghost pt = after.skip(1);
    let mut k: usize = i + 1;
    let mut val: u32 = 0;
    while k < n && b[k] != B_SLASH
        invariant
            i + 1 <= k <= n,
            n == s.len(),
            b@ == s,
            i < n,
            pt == s.skip(i + 1),
            forall|j: int| i + 1 <= j < k ==> #[trigger] s[j] != B_SLASH,
            forall|j: int| i + 1 <= j < k ==> is_digit(#[trigger] s[j]),
            val <= 65535,
            val as int == digits_val(s.subrange(i + 1, k as int)),
        decreases n - k,
    {
        let c = b[k];
        if !(B_D0 <= c && c <= B_D9) {
            // The byte sits inside the port run, so the run is not all
            // digits and the URL is outside the grammar.
            proof {
                lemma_port_len(pt);
                if port_len(pt) <= k - (i + 1) {
                    if port_len(pt) < pt.len() {
                        assert(pt[port_len(pt)] == s[port_len(pt) + i + 1]);
                        assert(false);
                    } else {
                        assert(false);
                    }
                }
                assert(spec_port_digits(s)[k - (i + 1)] == pt[k - (i + 1)]);
                assert(pt[k - (i + 1)] == s[k as int]);
                assert(!all_digits(spec_port_digits(s)));
            }
            return Err(Error::InvalidUrl);
        }
        let d: u32 = (c - B_D0) as u32;
        let next: u32 = val * 10 + d;
        proof {
            assert(s.subrange(i + 1, k + 1).drop_last() =~= s.subrange(i + 1, k as int));
            assert(s.subrange(i + 1, k + 1).last() == s[k as int]);
        }
        if next > 65535 {
            // Whatever follows, the port value can only grow: reject.
            proof {
                let pd = spec_port_digits(s);
                lemma_port_len(pt);
                if all_digits(pd) {
                    if pd.len() < k + 1 - (i + 1) {
                        // The port run would have ended before `k`, yet no
                        // byte up to `k` is a `/`.
                        assert(port_len(pt) < pt.len() ==> pt[port_len(pt)] == s[port_len(pt) + i
                            + 1]);
                        assert(false);
                    }
                    assert forall|m: int| 0 <= m < k + 1 - (i + 1) implies #[trigger] pd[m] == s[m
                        + i + 1] by {
                        assert(pd[m] == pt[m]);
                    }
                    assert(pd.take(k + 1 - (i + 1)) =~= s.subrange(i + 1, k + 1));
                    lemma_digits_val_prefix(pd, k + 1 - (i + 1));
                    assert(digits_val(pd) > 65535);
                }
                assert(!spec_url_ok(s));
            }
            return Err(Error::InvalidUrl);
        }
        val = next;
        k = k + 1;
    }
    proof {
        assert forall|j: int| 0 <= j < k - (i + 1) implies #[trigger] pt[j] != B_SLASH by {
            assert(pt[j] == s[j + i + 1]);
        }
        if k < n {
            assert(pt[k - (i + 1)] == s[k as int]);
        }
        lemma_port_len_unique(pt, k - (i + 1));
        assert(spec_port_digits(s) =~= s.subrange(i + 1, k as int));
        assert forall|m: int| 0 <= m < spec_port_digits(s).len() implies is_digit(
            #[trigger] spec_port_digits(s)[m],
        ) by {
            assert(spec_port_digits(s)[m] == s[m + i + 1]);
        }
    }
    if k == i + 1 {
        // `:` with no digits after it.
        return Err(Error::InvalidUrl);
    }
    if val == 0 {
        // Port 0 is outside the accepted range.
        return Err(Error::InvalidUrl);
    }
    let port: u16 = val as u16;
    let path: Vec<u8> = vstd::slice::slice_to_vec(&b[k..n]);
    let parts = UrlParts { scheme, host, port, path };
    proof {
        assert(spec_path(s) =~= s.subrange(k as int, n as int));
        lemma_port_len(pt);
        if spec_path(s).len() > 0 {
            assert(spec_path(s)[0] == s[k as int]);
        }
    }
    Ok(parts)
}

/// Default-port law: an accepted URL that writes no port of its own
/// resolves to port 443 under https and port 80 under http.
pub proof fn lemma_default_port(s: Seq<u8>)
    requires
        spec_url_ok(s),
        !spec_has_explicit_port(s),
    ensures
        spec_scheme_of(s) == Some(Scheme::Https) ==> spec_port(s) == 443,
        spec_scheme_of(s) == Some(Scheme::Http) ==> spec_port(s) == 80,
{
}

} // verus!
