//! Protocol selection and the connection-handle lifecycle. The selection
//! honours ALPN: over https, a peer that selected `h2` is spoken to in
//! HTTP/2 and every other outcome falls back to HTTP/1.1; over plain http
//! only HTTP/1.1 is spoken.

use vstd::prelude::*;
use crate::errors::Error;
use crate::tls::spec_alpn_h2;
use crate::url::Scheme;

verus! {

/// The protocol a connection speaks after the handshake.
#[derive(Debug, Clone, Copy, PartialEq, Eq, Structural)]
pub enum Protocol {
    H1,
    H2,
}

/// The view of an optional ALPN answer as the bytes the peer selected.
pub open spec fn spec_alpn_view(alpn: Option<&Vec<u8>>) -> Option<Seq<u8>> {
    match alpn {
        Some(v) => Some(v@),
        None => None,
    }
}

/// The decision table: HTTP/2 exactly when the scheme is https and the
/// peer selected `h2`; HTTP/1.1 in every other case (plain http, another
/// selection, or no selection at all).
pub open spec fn spec_select_protocol(scheme: Scheme, alpn: Option<Seq<u8>>) -> Protocol {
    if scheme == Scheme::Https && alpn == Some(spec_alpn_h2()) {
        Protocol::H2
    } else {
        Protocol::H1
    }
}

/// Pick the protocol from the scheme and the ALPN answer of the peer.
pub fn select_protocol(scheme: Scheme, alpn: Option<&Vec<u8>>) -> (r: Protocol)
    ensures
        r == spec_select_protocol(scheme, spec_alpn_view(alpn)),
{
    if scheme == Scheme::Https {
        match alpn {
            Some(v) => {
                if v.len() == 2 && v[0] == 104 && v[1] == 50 {
                    proof {
                        assert(v@ =~= spec_alpn_h2());
                    }
                    Protocol::H2
                } else {
                    proof {
                        if v@ == spec_alpn_h2() {
                            assert(v@.len() == 2 && v@[0] == 104 && v@[1] == 50);
                        }
                    }
                    Protocol::H1
                }
            },
            None => Protocol::H1,
        }
    } else {
        Protocol::H1
    }
}

/// ALPN law: over https, a peer that selected `h2` is spoken to in
/// HTTP/2 and every other answer in HTTP/1.1; over plain http the
/// protocol is HTTP/1.1 whatever the answer.
pub proof fn lemma_alpn_honored(alpn: Option<Seq<u8>>)
    ensures
        alpn == Some(spec_alpn_h2()) ==> spec_select_protocol(Scheme::Https, alpn)
            == Protocol::H2,
        alpn != Some(spec_alpn_h2()) ==> spec_select_protocol(Scheme::Https, alpn)
            == Protocol::H1,
        spec_select_protocol(Scheme::Http, alpn) == Protocol::H1,
{
}

/// The lifecycle of a connection handle, from handshake to teardown.
#[derive(Debug, Clone, Copy, PartialEq, Eq, Structural)]
pub enum ConnState {
    Opening,
    Ready,
    InUse,
    Closed,
    Broken,
}

/// What the code driving a connection observes about it.
#[derive(Debug, Clone, Copy, PartialEq, Eq, Structural)]
pub enum ConnEvent {
    HandshakeDone,
    BodyDrained,
    DriverFailed,
}

/// The transition table of the handle: a successful handshake readies it;
/// draining the body returns an HTTP/2 handle to `Ready` and closes an
/// HTTP/1.1 handle; a driver failure breaks a live handle; nothing else
/// moves it.
pub open spec fn spec_step(st: ConnState, ev: ConnEvent, proto: Protocol) -> ConnState {
    match ev {
        ConnEvent::HandshakeDone => if st == ConnState::Opening {
            ConnState::Ready
        } else {
            st
        },
        ConnEvent::BodyDrained => if st == ConnState::InUse {
            if proto == Protocol::H2 {
                ConnState::Ready
            } else {
                ConnState::Closed
            }
        } else {
            st
        },
        ConnEvent::DriverFailed => if st == ConnState::Ready || st == ConnState::InUse {
            ConnState::Broken
        } else {
            st
        },
    }
}

/// Advance the handle state by one observed event.
pub fn step(st: ConnState, ev: ConnEvent, proto: Protocol) -> (r: ConnState)
    ensures
        r == spec_step(st, ev, proto),
{
    match ev {
        ConnEvent::HandshakeDone => if st == ConnState::Opening {
            ConnState::Ready
        } else {
            st
        },
        ConnEvent::BodyDrained => if st == ConnState::InUse {
            if proto == Protocol::H2 {
                ConnState::Ready
            } else {
                ConnState::Closed
            }
        } else {
            st
        },
        ConnEvent::DriverFailed => if st == ConnState::Ready || st == ConnState::InUse {
            ConnState::Broken
        } else {
            st
        },
    }
}

/// Begin a send: only a `Ready` handle may dispatch a request; every
/// other state reports `RequestFailed` to the caller.
pub fn begin_send(st: ConnState) -> (r: Result<ConnState, Error>)
    ensures
        st is Ready ==> r == Ok::<ConnState, Error>(ConnState::InUse),
        !(st is Ready) ==> (r matches Err(e) && e is RequestFailed),
{
    if st == ConnState::Ready {
        Ok(ConnState::InUse)
    } else {
        Err(Error::RequestFailed)
    }
}

} // verus!
