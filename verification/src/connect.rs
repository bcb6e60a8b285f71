//! From a destination to a TCP tunnel: which destinations are dialled, and what
//! the client is told.
use vstd::prelude::*;
use vstd::utf8::*;
use crate::addr;
use crate::addr::{IpAddr, SocketAddr};
use crate::be;
use crate::http_connect;
use crate::server;
use crate::server::{Host, HostView, Protocol, Resolution};
use crate::socks4;
use crate::socks5;

verus! {

/// Whether a destination is dialled.
#[derive(Debug)]
pub enum Admission {
    Dial(SocketAddr),
    /// Send the reply and give up.
    Refuse(Vec<u8>),
}

/// Whether a destination is refused.
pub open spec fn blocked(block_special: bool, target: SocketAddr) -> bool {
    block_special && server::special(target.ip)
}

/// What the client is told of a destination that is refused.
pub open spec fn refusal(protocol: Protocol) -> Seq<u8> {
    match protocol {
        Protocol::Socks4 => socks4::reply_bytes(socks4::REFUSED),
        Protocol::Socks5 => socks5::reply_bytes(2, socks5::unspecified()),
        Protocol::HttpConnect => encode_utf8(http_connect::FORBIDDEN@),
    }
}

/// Decides whether a destination is dialled: with `block_special`, a
/// special-purpose address is not.
pub fn screen(protocol: Protocol, block_special: bool, target: SocketAddr) -> (r: Admission)
    ensures
        if blocked(block_special, target) {
            r matches Admission::Refuse(reply) && reply@ == refusal(protocol)
        } else {
            r matches Admission::Dial(a) && a == target
        },
{
    if block_special && server::is_rfc6890_special(target.ip) {
        let reply = match protocol {
            Protocol::Socks4 => socks4::reply(socks4::REFUSED),
            Protocol::Socks5 => socks5::failure(2),
            Protocol::HttpConnect => http_connect::text_bytes(http_connect::FORBIDDEN),
        };
        Admission::Refuse(reply)
    } else {
        Admission::Dial(target)
    }
}

/// How a connection attempt ended.
#[derive(Debug, Clone, Copy, PartialEq, Eq, Structural)]
pub enum Dialled {
    /// Connected from this local address.
    Connected(SocketAddr),
    Failed,
    TimedOut,
}

/// What the client is told of a connection attempt. A timeout is not answered.
pub open spec fn answer_of(protocol: Protocol, outcome: Dialled) -> Seq<u8> {
    match (protocol, outcome) {
        (_, Dialled::TimedOut) => Seq::empty(),
        (Protocol::Socks4, Dialled::Connected(_)) => socks4::reply_bytes(socks4::GRANTED),
        (Protocol::Socks4, Dialled::Failed) => socks4::reply_bytes(socks4::REFUSED),
        (Protocol::Socks5, Dialled::Connected(local)) => socks5::reply_bytes(0, local),
        (Protocol::Socks5, Dialled::Failed) => socks5::reply_bytes(5, socks5::unspecified()),
        (Protocol::HttpConnect, Dialled::Connected(_)) => encode_utf8(http_connect::ESTABLISHED@),
        (Protocol::HttpConnect, Dialled::Failed) => encode_utf8(http_connect::BAD_GATEWAY@),
    }
}

/// Tells the client of a connection attempt: the bytes to send, and whether
/// the tunnel is open.
pub fn answer(protocol: Protocol, outcome: Dialled) -> (r: (Vec<u8>, bool))
    ensures
        r.0@ == answer_of(protocol, outcome),
        r.1 == (outcome is Connected),
{
    match outcome {
        Dialled::TimedOut => (Vec::new(), false),
        Dialled::Connected(local) => {
            let reply = match protocol {
                Protocol::Socks4 => socks4::reply(socks4::GRANTED),
                Protocol::Socks5 => socks5::reply(0, local),
                Protocol::HttpConnect => http_connect::text_bytes(http_connect::ESTABLISHED),
            };
            (reply, true)
        },
        Dialled::Failed => {
            let reply = match protocol {
                Protocol::Socks4 => socks4::reply(socks4::REFUSED),
                Protocol::Socks5 => socks5::failure(5),
                Protocol::HttpConnect => http_connect::text_bytes(http_connect::BAD_GATEWAY),
            };
            (reply, false)
        },
    }
}

// ---------------------------------------------------------------------------
// The connection
// ---------------------------------------------------------------------------

/// Where a client stands that has asked for a connection.
#[derive(Debug)]
pub enum Connection {
    /// The destination is being looked up.
    Resolving { protocol: Protocol, host: Host, port: u16, pending: Vec<u8> },
    /// The destination is being dialled.
    Dialling { protocol: Protocol, target: SocketAddr, pending: Vec<u8> },
    /// Bytes are copied both ways.
    Open,
    Closed,
}

/// What a [`Connection`] denotes.
#[verifier::ext_equal]
pub enum ConnectionView {
    Resolving { protocol: Protocol, host: HostView, port: u16, pending: Seq<u8> },
    Dialling { protocol: Protocol, target: SocketAddr, pending: Seq<u8> },
    Open,
    Closed,
}

impl View for Connection {
    type V = ConnectionView;

    open spec fn view(&self) -> ConnectionView {
        match self {
            Connection::Resolving { protocol, host, port, pending } => ConnectionView::Resolving {
                protocol: *protocol,
                host: host@,
                port: *port,
                pending: pending@,
            },
            Connection::Dialling { protocol, target, pending } => ConnectionView::Dialling {
                protocol: *protocol,
                target: *target,
                pending: pending@,
            },
            Connection::Open => ConnectionView::Open,
            Connection::Closed => ConnectionView::Closed,
        }
    }
}

/// What happens on the way to a connection.
#[derive(Debug, Clone, Copy, PartialEq, Eq, Structural)]
pub enum ConnectEvent {
    Resolved(SocketAddr),
    ResolveFailed,
    Dialled(Dialled),
}

/// What is done on the way to a connection.
#[derive(Debug)]
pub enum ConnectAction {
    /// Look the destination up.
    Resolve,
    Dial(SocketAddr),
    /// Send `reply` to the client and `pending` to the destination, then copy
    /// bytes both ways.
    Open { reply: Vec<u8>, pending: Vec<u8> },
    /// Send the bytes, if there are any, and close.
    Close(Vec<u8>),
    Nothing,
}

/// What a [`ConnectAction`] denotes.
#[verifier::ext_equal]
pub enum ConnectActionView {
    Resolve,
    Dial(SocketAddr),
    Open { reply: Seq<u8>, pending: Seq<u8> },
    Close(Seq<u8>),
    Nothing,
}

impl View for ConnectAction {
    type V = ConnectActionView;

    open spec fn view(&self) -> ConnectActionView {
        match self {
            ConnectAction::Resolve => ConnectActionView::Resolve,
            ConnectAction::Dial(a) => ConnectActionView::Dial(*a),
            ConnectAction::Open { reply, pending } => ConnectActionView::Open {
                reply: reply@,
                pending: pending@,
            },
            ConnectAction::Close(reply) => ConnectActionView::Close(reply@),
            ConnectAction::Nothing => ConnectActionView::Nothing,
        }
    }
}

impl ConnectionView {
    /// The way to a destination: an address is screened at once, a name is looked
    /// up first.
    pub open spec fn begin(
        protocol: Protocol,
        block_special: bool,
        host: HostView,
        port: u16,
        pending: Seq<u8>,
    ) -> (ConnectionView, ConnectActionView) {
        match Host::literal(host) {
            Some(ip) => Self::dial(protocol, block_special, SocketAddr { ip, port }, pending),
            None => (
                ConnectionView::Resolving { protocol, host, port, pending },
                ConnectActionView::Resolve,
            ),
        }
    }

    /// The destination is dialled, unless it is refused.
    pub open spec fn dial(
        protocol: Protocol,
        block_special: bool,
        target: SocketAddr,
        pending: Seq<u8>,
    ) -> (ConnectionView, ConnectActionView) {
        if blocked(block_special, target) {
            (ConnectionView::Closed, ConnectActionView::Close(refusal(protocol)))
        } else {
            (
                ConnectionView::Dialling { protocol, target, pending },
                ConnectActionView::Dial(target),
            )
        }
    }

    /// How it goes on. An event that does not belong to the state changes nothing.
    pub open spec fn next(self, block_special: bool, event: ConnectEvent) -> (
        ConnectionView,
        ConnectActionView,
    ) {
        match (self, event) {
            (
                ConnectionView::Resolving { protocol, pending, .. },
                ConnectEvent::Resolved(target),
            ) => Self::dial(protocol, block_special, target, pending),
            (ConnectionView::Resolving { .. }, ConnectEvent::ResolveFailed) => (
                ConnectionView::Closed,
                ConnectActionView::Close(Seq::empty()),
            ),
            (
                ConnectionView::Dialling { protocol, pending, .. },
                ConnectEvent::Dialled(outcome),
            ) => if outcome is Connected {
                (
                    ConnectionView::Open,
                    ConnectActionView::Open { reply: answer_of(protocol, outcome), pending },
                )
            } else {
                (ConnectionView::Closed, ConnectActionView::Close(answer_of(protocol, outcome)))
            },
            _ => (self, ConnectActionView::Nothing),
        }
    }
}

/// Dials a destination, unless it is refused.
fn dial(protocol: Protocol, block_special: bool, target: SocketAddr, pending: Vec<u8>) -> (r: (
    Connection,
    ConnectAction,
))
    ensures
        (r.0@, r.1@) == ConnectionView::dial(protocol, block_special, target, pending@),
{
    match screen(protocol, block_special, target) {
        Admission::Dial(target) => (
            Connection::Dialling { protocol, target, pending },
            ConnectAction::Dial(target),
        ),
        Admission::Refuse(reply) => (Connection::Closed, ConnectAction::Close(reply)),
    }
}

impl Connection {
    /// Begins the way to a destination. `pending` is what the client has already
    /// sent for it.
    pub fn start(
        protocol: Protocol,
        block_special: bool,
        host: Host,
        port: u16,
        pending: Vec<u8>,
    ) -> (r: (Connection, ConnectAction))
        ensures
            (r.0@, r.1@) == ConnectionView::begin(
                protocol,
                block_special,
                host@,
                port,
                pending@,
            ),
    {
        let known = match host.resolve(port) {
            Resolution::Known(target) => Some(target),
            Resolution::Lookup(_) => None,
        };
        match known {
            Some(target) => dial(protocol, block_special, target, pending),
            None => (
                Connection::Resolving { protocol, host, port, pending },
                ConnectAction::Resolve,
            ),
        }
    }

    /// Takes an event and tells what is to be done.
    pub fn step(&mut self, block_special: bool, event: ConnectEvent) -> (r: ConnectAction)
        ensures
            (final(self)@, r@) == old(self)@.next(block_special, event),
    {
        let mut now = Connection::Closed;
        core::mem::swap(self, &mut now);
        let (next, action) = match now {
            Connection::Resolving { protocol, host, port, pending } => match event {
                ConnectEvent::Resolved(target) => dial(protocol, block_special, target, pending),
                ConnectEvent::ResolveFailed => (
                    Connection::Closed,
                    ConnectAction::Close(Vec::new()),
                ),
                ConnectEvent::Dialled(_) => (
                    Connection::Resolving { protocol, host, port, pending },
                    ConnectAction::Nothing,
                ),
            },
            Connection::Dialling { protocol, target, pending } => match event {
                ConnectEvent::Dialled(outcome) => {
                    let (reply, open) = answer(protocol, outcome);
                    if open {
                        (Connection::Open, ConnectAction::Open { reply, pending })
                    } else {
                        (Connection::Closed, ConnectAction::Close(reply))
                    }
                },
                _ => (
                    Connection::Dialling { protocol, target, pending },
                    ConnectAction::Nothing,
                ),
            },
            Connection::Open => (Connection::Open, ConnectAction::Nothing),
            Connection::Closed => (Connection::Closed, ConnectAction::Nothing),
        };
        *self = next;
        action
    }
}

/// A destination that is refused is never dialled, however it was named; a
/// client is only connected after its destination was dialled, and a connection
/// that is closed stays closed.
pub proof fn lemma_never_blocked(state: ConnectionView, block_special: bool, event: ConnectEvent)
    ensures
        state.next(block_special, event).1 matches ConnectActionView::Dial(target) ==> !blocked(
            block_special,
            target,
        ),
        state.next(block_special, event).1 is Open ==> state is Dialling,
        state is Closed ==> state.next(block_special, event) == (
            ConnectionView::Closed,
            ConnectActionView::Nothing,
        ),
        forall|protocol: Protocol, host: HostView, port: u16, pending: Seq<u8>|
            (#[trigger] ConnectionView::begin(protocol, block_special, host, port, pending)).1
                matches ConnectActionView::Dial(target) ==> !blocked(block_special, target),
{
}

/// What the client has sent early and the destination has not got yet.
pub open spec fn early(state: ConnectionView) -> Option<Seq<u8>> {
    match state {
        ConnectionView::Resolving { pending, .. } => Some(pending),
        ConnectionView::Dialling { pending, .. } => Some(pending),
        _ => None,
    }
}

/// Nothing that the client sent early is lost: it is kept until the connection
/// is open, and then it is what the destination gets first.
pub proof fn lemma_pending_kept(
    protocol: Protocol,
    block_special: bool,
    host: HostView,
    port: u16,
    pending: Seq<u8>,
    state: ConnectionView,
    event: ConnectEvent,
)
    ensures
        ({
            let (first, _) = ConnectionView::begin(protocol, block_special, host, port, pending);
            first is Closed || early(first) == Some(pending)
        }),
        early(state) == Some(pending) ==> {
            let (then, action) = state.next(block_special, event);
            ||| then is Closed
            ||| early(then) == Some(pending)
            ||| (action matches ConnectActionView::Open { pending: sent, .. } && sent == pending)
        },
{
}

// ---------------------------------------------------------------------------
// Laws
// ---------------------------------------------------------------------------

/// A destination is refused exactly when special-purpose addresses are blocked
/// and it is one; with the blocking off, everything is dialled.
pub proof fn lemma_blocked(target: SocketAddr, port: u16)
    ensures
        !blocked(false, target),
        blocked(true, target) <==> server::special(target.ip),
        blocked(true, target) == blocked(true, SocketAddr { ip: target.ip, port }),
{
}

/// What a client is told of a destination that is refused, byte by byte: 91 in
/// SOCKS4, code 2 in SOCKS5, and 403 in HTTP.
pub proof fn lemma_refusal_bytes()
    ensures
        refusal(Protocol::Socks4) == seq![0u8, 91, 0, 0, 0, 0, 0, 0],
        refusal(Protocol::Socks5) == seq![5u8, 2, 0, 1, 0, 0, 0, 0, 0, 0],
        refusal(Protocol::HttpConnect) == encode_utf8(
            "HTTP/1.1 403 Forbidden\r\nConnection: close\r\n\r\n"@,
        ),
{
    socks5::lemma_reply_layout(2, 0, 0, 0);
}

/// What a client is told of a connection, byte by byte: 90 or 91 in SOCKS4; in
/// SOCKS5 code 0 with the local address, or code 5; 200 or 502 in HTTP; and
/// nothing at all when the time ran out.
pub proof fn lemma_answer_bytes(protocol: Protocol, n4: u32, n6: u128, port: u16)
    ensures
        ({
            let v4 = SocketAddr { ip: IpAddr::V4(n4), port };
            let v6 = SocketAddr { ip: IpAddr::V6(n6), port };
            let ports = seq![(port / 256) as u8, (port % 256) as u8];
            &&& answer_of(Protocol::Socks4, Dialled::Connected(v4)) == seq![0u8, 90, 0, 0, 0, 0, 0, 0]
            &&& answer_of(Protocol::Socks4, Dialled::Connected(v6)) == seq![0u8, 90, 0, 0, 0, 0, 0, 0]
            &&& answer_of(Protocol::Socks4, Dialled::Failed) == seq![0u8, 91, 0, 0, 0, 0, 0, 0]
            &&& answer_of(Protocol::Socks5, Dialled::Connected(v4)) == seq![5u8, 0, 0, 1]
                + be::bytes(n4 as nat, 4) + ports
            &&& answer_of(Protocol::Socks5, Dialled::Connected(v6)) == seq![5u8, 0, 0, 4]
                + be::bytes(n6 as nat, 16) + ports
            &&& answer_of(Protocol::Socks5, Dialled::Failed) == seq![5u8, 5, 0, 1, 0, 0, 0, 0, 0, 0]
            &&& answer_of(Protocol::HttpConnect, Dialled::Connected(v4)) == encode_utf8(
                "HTTP/1.1 200 Connection Established\r\n\r\n"@,
            )
            &&& answer_of(Protocol::HttpConnect, Dialled::Connected(v6)) == encode_utf8(
                "HTTP/1.1 200 Connection Established\r\n\r\n"@,
            )
            &&& answer_of(Protocol::HttpConnect, Dialled::Failed) == encode_utf8(
                "HTTP/1.1 502 Bad Gateway\r\nConnection: close\r\n\r\n"@,
            )
            &&& answer_of(protocol, Dialled::TimedOut).len() == 0
        }),
{
    socks5::lemma_reply_layout(0, n4, n6, port);
    socks5::lemma_reply_layout(5, 0, 0, 0);
}

/// An address is dialled at once, at the port that was asked for, and a name is
/// looked up first; only what is refused is neither.
pub proof fn lemma_begin(
    protocol: Protocol,
    block_special: bool,
    ip: IpAddr,
    name: Seq<char>,
    port: u16,
    pending: Seq<u8>,
)
    ensures
        ({
            let r = ConnectionView::begin(protocol, block_special, HostView::Ip(ip), port, pending);
            let target = SocketAddr { ip, port };
            &&& !block_special || !server::special(ip) ==> r == (
                (ConnectionView::Dialling { protocol, target, pending }),
                ConnectActionView::Dial(target),
            )
            &&& block_special && server::special(ip) ==> r == (
                ConnectionView::Closed,
                ConnectActionView::Close(refusal(protocol)),
            )
        }),
        addr::ip_of(name) is None ==> ConnectionView::begin(
            protocol,
            block_special,
            HostView::Name(name),
            port,
            pending,
        ) == (
            (ConnectionView::Resolving { protocol, host: HostView::Name(name), port, pending }),
            ConnectActionView::Resolve,
        ),
        addr::ip_of(name) == Some(ip) ==> ConnectionView::begin(
            protocol,
            block_special,
            HostView::Name(name),
            port,
            pending,
        ) == ConnectionView::begin(protocol, block_special, HostView::Ip(ip), port, pending),
{
}

/// The address that a lookup gives is the one that is dialled, unless it is
/// refused; a lookup that fails closes the connection without a reply.
pub proof fn lemma_resolved(
    protocol: Protocol,
    block_special: bool,
    host: HostView,
    port: u16,
    pending: Seq<u8>,
    target: SocketAddr,
)
    ensures
        ({
            let state = ConnectionView::Resolving { protocol, host, port, pending };
            let r = state.next(block_special, ConnectEvent::Resolved(target));
            &&& !block_special || !server::special(target.ip) ==> r == (
                (ConnectionView::Dialling { protocol, target, pending }),
                ConnectActionView::Dial(target),
            )
            &&& block_special && server::special(target.ip) ==> r == (
                ConnectionView::Closed,
                ConnectActionView::Close(refusal(protocol)),
            )
            &&& state.next(block_special, ConnectEvent::ResolveFailed) == (
                ConnectionView::Closed,
                ConnectActionView::Close(Seq::empty()),
            )
        }),
{
}

/// A connection that was dialled is open exactly when it is connected; else it is
/// closed, with the answer for its protocol, or without any when the time ran
/// out.
pub proof fn lemma_dialled(
    protocol: Protocol,
    block_special: bool,
    target: SocketAddr,
    pending: Seq<u8>,
    local: SocketAddr,
)
    ensures
        ({
            let state = ConnectionView::Dialling { protocol, target, pending };
            &&& state.next(block_special, ConnectEvent::Dialled(Dialled::Connected(local))) == (
                ConnectionView::Open,
                (ConnectActionView::Open {
                    reply: answer_of(protocol, Dialled::Connected(local)),
                    pending,
                }),
            )
            &&& state.next(block_special, ConnectEvent::Dialled(Dialled::Failed)) == (
                ConnectionView::Closed,
                ConnectActionView::Close(answer_of(protocol, Dialled::Failed)),
            )
            &&& state.next(block_special, ConnectEvent::Dialled(Dialled::TimedOut)) == (
                ConnectionView::Closed,
                ConnectActionView::Close(Seq::empty()),
            )
        }),
{
}

} // verus!
