//! The `:protocol` of an extended CONNECT request.
use vstd::prelude::*;
use vstd::string::StrSliceExecFns;
use crate::text;

verus! {

/// A protocol token: the two that have names, or any other.
#[derive(Debug, Clone, PartialEq, Eq)]
pub enum Protocol {
    WebTransport,
    ConnectUdp,
    Other(String),
}

/// The empty token is no protocol.
#[derive(Debug, Clone, Copy, PartialEq, Eq, Structural)]
pub struct InvalidProtocol;

pub const WEB_TRANSPORT: &'static str = "webtransport";

pub const CONNECT_UDP: &'static str = "connect-udp";

impl Protocol {
    /// The token on the wire.
    pub open spec fn token(self) -> Seq<char> {
        match self {
            Protocol::WebTransport => WEB_TRANSPORT@,
            Protocol::ConnectUdp => CONNECT_UDP@,
            Protocol::Other(s) => s@,
        }
    }

    /// Whether a token with a name is held by that name.
    pub open spec fn wf(self) -> bool {
        self matches Protocol::Other(s) ==> s@.len() > 0 && s@ != WEB_TRANSPORT@ && s@
            != CONNECT_UDP@
    }

    /// The token on the wire.
    pub fn as_str(&self) -> (r: &str)
        ensures
            r@ == self.token(),
    {
        match self {
            Protocol::WebTransport => WEB_TRANSPORT,
            Protocol::ConnectUdp => CONNECT_UDP,
            Protocol::Other(s) => s.as_str(),
        }
    }

    /// Reads a token; every token but the empty one is accepted.
    pub fn from_str(s: &str) -> (r: Result<Protocol, InvalidProtocol>)
        ensures
            match r {
                Ok(p) => s@.len() > 0 && p.token() == s@ && p.wf(),
                Err(_) => s@.len() == 0,
            },
    {
        proof {
            lemma_named_tokens();
        }
        if text::str_equal(s, WEB_TRANSPORT) {
            Ok(Protocol::WebTransport)
        } else if text::str_equal(s, CONNECT_UDP) {
            Ok(Protocol::ConnectUdp)
        } else if s.unicode_len() > 0 {
            Ok(Protocol::Other(s.to_string()))
        } else {
            Err(InvalidProtocol)
        }
    }
}

/// The tokens with names differ and are not empty.
pub proof fn lemma_named_tokens()
    ensures
        WEB_TRANSPORT@ != CONNECT_UDP@,
        WEB_TRANSPORT@.len() > 0,
        CONNECT_UDP@.len() > 0,
{
    reveal_strlit("webtransport");
    reveal_strlit("connect-udp");
    assert(WEB_TRANSPORT@.len() == 12);
    assert(CONNECT_UDP@.len() == 11);
}

/// A token is held in one way only: protocols with the same token are of the
/// same variant and hold the same text.
pub proof fn lemma_token_unique(a: Protocol, b: Protocol)
    requires
        a.wf(),
        b.wf(),
        a.token() == b.token(),
    ensures
        a is ConnectUdp <==> b is ConnectUdp,
        a is WebTransport <==> b is WebTransport,
        a matches Protocol::Other(s) ==> (b matches Protocol::Other(t) && s@ == t@),
{
    lemma_named_tokens();
}

/// The two tokens with names, as they stand on the wire; every other token is
/// held as it is.
pub proof fn lemma_tokens(p: Protocol)
    requires
        p.wf(),
    ensures
        p.token() == "webtransport"@ <==> p is WebTransport,
        p.token() == "connect-udp"@ <==> p is ConnectUdp,
        p matches Protocol::Other(s) ==> p.token() == s@ && s@.len() > 0,
{
    lemma_named_tokens();
}

} // verus!
