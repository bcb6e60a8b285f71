//! The SOCKS5 UDP relay.
//!
//! One socket serves the client and every destination. What a datagram is, is
//! told by its content and not by where it comes from: a SOCKS5 UDP request is
//! the client's, anything else is an answer for the client. So the client may
//! change its address at any time. A name is looked up once.
use vstd::prelude::*;
use crate::addr;
use crate::addr::{IpAddr, SocketAddr};
use crate::be;
use crate::connect;
use crate::server;
use crate::server::{Host, HostView, Resolution};
use crate::socks5;
use crate::text;

verus! {

/// The socket address of any interface of the same family, on any port.
pub open spec fn any_of(ip: IpAddr) -> SocketAddr {
    match ip {
        IpAddr::V4(_) => SocketAddr { ip: IpAddr::V4(0), port: 0 },
        IpAddr::V6(_) => SocketAddr { ip: IpAddr::V6(0), port: 0 },
    }
}

/// Where a UDP socket is bound that serves addresses of the family of `ip`.
pub fn bind_address(ip: IpAddr) -> (r: SocketAddr)
    ensures
        r == any_of(ip),
{
    match ip {
        IpAddr::V4(_) => SocketAddr { ip: IpAddr::V4(0), port: 0 },
        IpAddr::V6(_) => SocketAddr { ip: IpAddr::V6(0), port: 0 },
    }
}

/// The reply to the request for a relay: the client reaches it at the address
/// that it has reached already, on the port of the relay.
pub open spec fn associate_bytes(control: SocketAddr, relay: SocketAddr) -> Seq<u8> {
    socks5::reply_bytes(0, SocketAddr { ip: control.ip, port: relay.port })
}

/// Builds the reply to the request for a relay.
pub fn associate_reply(control: SocketAddr, relay: SocketAddr) -> (r: Vec<u8>)
    ensures
        r@ == associate_bytes(control, relay),
{
    socks5::reply(0, SocketAddr { ip: control.ip, port: relay.port })
}

/// A destination that was looked up.
#[derive(Debug)]
pub struct Resolved {
    pub host: Host,
    pub port: u16,
    pub target: SocketAddr,
}

/// The lookups as a map from destinations to addresses; a later one counts.
pub open spec fn lookups(entries: Seq<Resolved>) -> Map<(HostView, u16), SocketAddr>
    decreases entries.len(),
{
    if entries.len() == 0 {
        Map::empty()
    } else {
        let e = entries.last();
        lookups(entries.drop_last()).insert((e.host@, e.port), e.target)
    }
}

/// The state of a relay.
#[derive(Debug)]
pub struct UdpRelay {
    client: Option<SocketAddr>,
    block_special: bool,
    cache: Vec<Resolved>,
}

/// What a [`UdpRelay`] denotes.
#[verifier::ext_equal]
pub struct UdpRelayView {
    /// Where the client was last heard from, or said it would be.
    pub client: Option<SocketAddr>,
    /// Whether special-purpose destinations are refused.
    pub block_special: bool,
    /// The names that were looked up.
    pub cache: Map<(HostView, u16), SocketAddr>,
}

impl View for UdpRelay {
    type V = UdpRelayView;

    closed spec fn view(&self) -> UdpRelayView {
        UdpRelayView {
            client: self.client,
            block_special: self.block_special,
            cache: lookups(self.cache@),
        }
    }
}

/// What is done with a datagram.
#[derive(Debug)]
pub enum RelayAction {
    /// Send `payload` to `target`.
    Forward { target: SocketAddr, payload: Vec<u8> },
    /// Look `host` up, then hand the answer and the rest back.
    Resolve { host: Host, port: u16, payload: Vec<u8> },
    /// Send `packet` to the client.
    ToClient { client: SocketAddr, packet: Vec<u8> },
    Drop,
    /// End the association.
    Close,
}

/// What a [`RelayAction`] denotes.
#[verifier::ext_equal]
pub enum RelayActionView {
    Forward { target: SocketAddr, payload: Seq<u8> },
    Resolve { host: HostView, port: u16, payload: Seq<u8> },
    ToClient { client: SocketAddr, packet: Seq<u8> },
    Drop,
    Close,
}

impl View for RelayAction {
    type V = RelayActionView;

    open spec fn view(&self) -> RelayActionView {
        match self {
            RelayAction::Forward { target, payload } => RelayActionView::Forward {
                target: *target,
                payload: payload@,
            },
            RelayAction::Resolve { host, port, payload } => RelayActionView::Resolve {
                host: host@,
                port: *port,
                payload: payload@,
            },
            RelayAction::ToClient { client, packet } => RelayActionView::ToClient {
                client: *client,
                packet: packet@,
            },
            RelayAction::Drop => RelayActionView::Drop,
            RelayAction::Close => RelayActionView::Close,
        }
    }
}

impl UdpRelayView {
    /// A relay for a client that announced `host` and `port` as its address.
    pub open spec fn begin(host: HostView, port: u16, block_special: bool) -> UdpRelayView {
        UdpRelayView {
            client: match host {
                HostView::Ip(ip) => if port != 0 {
                    Some(SocketAddr { ip, port })
                } else {
                    None
                },
                HostView::Name(_) => None,
            },
            block_special,
            cache: Map::empty(),
        }
    }

    /// What bytes on the control connection lead to, if there are any.
    pub open spec fn on_control(received: usize) -> RelayActionView {
        if received == 0 {
            RelayActionView::Close
        } else {
            RelayActionView::Drop
        }
    }

    /// Where a destination is, as far as it is known.
    pub open spec fn known(self, host: HostView, port: u16) -> Option<SocketAddr> {
        match Host::literal(host) {
            Some(ip) => Some(SocketAddr { ip, port }),
            None => if self.cache.contains_key((host, port)) {
                Some(self.cache[(host, port)])
            } else {
                None
            },
        }
    }

    /// Forwards a payload, unless the destination is refused.
    pub open spec fn deliver(self, target: SocketAddr, payload: Seq<u8>) -> RelayActionView {
        if connect::blocked(self.block_special, target) {
            RelayActionView::Drop
        } else {
            RelayActionView::Forward { target, payload }
        }
    }

    /// The relay after a datagram.
    pub open spec fn after(self, source: SocketAddr, packet: Seq<u8>) -> UdpRelayView {
        if server::udp_request_of(packet) is Ok {
            UdpRelayView { client: Some(source), ..self }
        } else {
            self
        }
    }

    /// What is done with a datagram.
    pub open spec fn action(self, source: SocketAddr, packet: Seq<u8>) -> RelayActionView {
        match server::udp_request_of(packet) {
            Ok((host, port, payload)) => match self.known(host, port) {
                Some(target) => self.deliver(target, payload),
                None => RelayActionView::Resolve { host, port, payload },
            },
            Err(_) => match self.client {
                Some(client) => RelayActionView::ToClient {
                    client,
                    packet: server::udp_response_bytes(source, packet),
                },
                None => RelayActionView::Drop,
            },
        }
    }

    /// The relay after a lookup.
    pub open spec fn learned(self, host: HostView, port: u16, target: SocketAddr) -> UdpRelayView {
        UdpRelayView { cache: self.cache.insert((host, port), target), ..self }
    }
}

impl UdpRelay {
    /// A relay for a client that announced `host` and `port` as its address;
    /// that counts only when it is an address and a port.
    pub fn new(host: &Host, port: u16, block_special: bool) -> (r: UdpRelay)
        ensures
            r@ == UdpRelayView::begin(host@, port, block_special),
    {
        let client = match host {
            Host::Ip(ip) => if port != 0 {
                Some(SocketAddr { ip: *ip, port })
            } else {
                None
            },
            Host::Name(_) => None,
        };
        UdpRelay { client, block_special, cache: Vec::new() }
    }

    /// Where a destination is, as far as it was looked up.
    fn cached(&self, host: &Host, port: u16) -> (r: Option<SocketAddr>)
        ensures
            r == (if self@.cache.contains_key((host@, port)) {
                Some(self@.cache[(host@, port)])
            } else {
                None
            }),
    {
        let mut i: usize = self.cache.len();
        assert(self.cache@.take(i as int) == self.cache@);
        while i > 0
            invariant
                i <= self.cache@.len(),
                self@.cache == lookups(self.cache@),
                self@.cache.contains_key((host@, port)) <==> lookups(
                    self.cache@.take(i as int),
                ).contains_key((host@, port)),
                self@.cache.contains_key((host@, port)) ==> self@.cache[(host@, port)] == lookups(
                    self.cache@.take(i as int),
                )[(host@, port)],
            decreases i,
        {
            let ghost front = self.cache@.take(i as int);
            assert(front.drop_last() == self.cache@.take(i - 1));
            assert(front.last() == self.cache@[i - 1]);
            i = i - 1;
            let e = &self.cache[i];
            if e.port == port && e.host.same(host) {
                return Some(e.target);
            }
        }
        None
    }

    /// Forwards a payload, unless the destination is refused.
    fn deliver(&self, target: SocketAddr, payload: Vec<u8>) -> (r: RelayAction)
        ensures
            r@ == self@.deliver(target, payload@),
    {
        if self.block_special && server::is_rfc6890_special(target.ip) {
            RelayAction::Drop
        } else {
            RelayAction::Forward { target, payload }
        }
    }

    /// Takes a datagram that came in from `source`.
    pub fn on_datagram(&mut self, source: SocketAddr, packet: &[u8]) -> (r: RelayAction)
        ensures
            final(self)@ == old(self)@.after(source, packet@),
            r@ == old(self)@.action(source, packet@),
    {
        match server::parse_socks5_udp_request(packet) {
            Ok((host, port, payload)) => {
                self.client = Some(source);
                let payload = text::bytes_vec(payload);
                let target = match host.resolve(port) {
                    Resolution::Known(target) => Some(target),
                    Resolution::Lookup(_) => self.cached(&host, port),
                };
                match target {
                    Some(target) => self.deliver(target, payload),
                    None => RelayAction::Resolve { host, port, payload },
                }
            },
            Err(_) => match self.client {
                Some(client) => {
                    let packet = server::build_socks5_udp_response(source, packet);
                    RelayAction::ToClient { client, packet }
                },
                None => RelayAction::Drop,
            },
        }
    }

    /// Takes the answer to a lookup: keeps it, and delivers what waited for it.
    pub fn on_resolved(
        &mut self,
        host: Host,
        port: u16,
        target: SocketAddr,
        payload: Vec<u8>,
    ) -> (r: RelayAction)
        ensures
            final(self)@ == old(self)@.learned(host@, port, target),
            r@ == old(self)@.deliver(target, payload@),
    {
        let ghost before = self.cache@;
        let ghost key = host@;
        self.cache.push(Resolved { host, port, target });
        assert(self.cache@.drop_last() == before);
        self.deliver(target, payload)
    }

    /// Takes note that a datagram could not be sent: that datagram is lost, and
    /// nothing else.
    pub fn on_send_failed(&mut self) -> (r: RelayAction)
        ensures
            final(self)@ == old(self)@,
            r@ is Drop,
    {
        RelayAction::Drop
    }

    /// Takes note that a destination could not be looked up: that ends the
    /// association.
    pub fn on_lookup_failed(&mut self) -> (r: RelayAction)
        ensures
            final(self)@ == old(self)@,
            r@ is Close,
    {
        RelayAction::Close
    }

    /// Takes note that `received` bytes came in on the control connection. They
    /// mean nothing; that there are none means that the client has closed it,
    /// which ends the association.
    pub fn on_control(&mut self, received: usize) -> (r: RelayAction)
        ensures
            final(self)@ == old(self)@,
            r@ == UdpRelayView::on_control(received),
    {
        if received == 0 {
            RelayAction::Close
        } else {
            RelayAction::Drop
        }
    }
}

// ---------------------------------------------------------------------------
// Laws
// ---------------------------------------------------------------------------

/// A request is the client's wherever it comes from: after one from `moved`,
/// answers go to `moved`.
pub proof fn lemma_migration(
    relay: UdpRelayView,
    moved: SocketAddr,
    request: Seq<u8>,
    upstream: SocketAddr,
    answer: Seq<u8>,
)
    requires
        server::udp_request_of(request) is Ok,
        server::udp_request_of(answer) is Err,
    ensures
        relay.after(moved, request).action(upstream, answer) == (RelayActionView::ToClient {
            client: moved,
            packet: server::udp_response_bytes(upstream, answer),
        }),
{
}

/// A name that was looked up is not looked up again, whatever has come in
/// since: datagrams and lookups of other destinations keep the answer.
pub proof fn lemma_lookup_once(
    relay: UdpRelayView,
    host: HostView,
    port: u16,
    target: SocketAddr,
    source: SocketAddr,
    packet: Seq<u8>,
    other: (HostView, u16),
    elsewhere: SocketAddr,
)
    requires
        relay.known(host, port) == Some(target),
    ensures
        relay.after(source, packet).known(host, port) == Some(target),
        other != (host, port) ==> relay.learned(other.0, other.1, elsewhere).known(host, port)
            == Some(target),
        server::udp_request_of(packet) matches Ok((h, p, payload)) ==> (h == host && p == port
            ==> relay.action(source, packet) == relay.deliver(target, payload)),
{
}

/// The answer to a lookup is where the destination is from then on.
pub proof fn lemma_learned(relay: UdpRelayView, host: HostView, port: u16, target: SocketAddr)
    requires
        Host::literal(host) is None,
    ensures
        relay.learned(host, port, target).known(host, port) == Some(target),
{
}

/// Nothing is ever sent to a destination that is refused.
pub proof fn lemma_never_blocked(
    relay: UdpRelayView,
    source: SocketAddr,
    packet: Seq<u8>,
    target: SocketAddr,
    payload: Seq<u8>,
)
    ensures
        relay.action(source, packet) matches RelayActionView::Forward { target: t, .. }
            ==> !connect::blocked(relay.block_special, t),
        relay.deliver(target, payload) matches RelayActionView::Forward { target: t, .. }
            ==> !connect::blocked(relay.block_special, t),
{
}

/// One datagram in, one datagram out: a request is forwarded as exactly its
/// payload, and an answer reaches the client as exactly what was sent, with its
/// source in front.
pub proof fn lemma_boundaries(relay: UdpRelayView, source: SocketAddr, packet: Seq<u8>)
    ensures
        relay.action(source, packet) matches RelayActionView::Forward { payload, .. }
            ==> (server::udp_request_of(packet) matches Ok((_, _, p)) && p == payload),
        relay.action(source, packet) matches RelayActionView::ToClient { packet: sent, .. }
            ==> server::udp_request_of(sent) == Ok::<
            (HostView, u16, Seq<u8>),
            server::UdpRequestError,
        >((HostView::Ip(source.ip), source.port, packet)),
{
    server::lemma_udp_response_round_trip(source, packet);
}

/// The socket of a relay, and of every UDP tunnel, is bound to the all-zero
/// address of the family that it serves, at a port of the system's choice.
pub proof fn lemma_any(n4: u32, n6: u128)
    ensures
        any_of(IpAddr::V4(n4)) == (SocketAddr { ip: IpAddr::V4(0), port: 0 }),
        any_of(IpAddr::V6(n6)) == (SocketAddr { ip: IpAddr::V6(0), port: 0 }),
{
}

/// The reply names the address of the control connection, at the port of the
/// relay, with code 0.
pub proof fn lemma_associate_bytes(n4: u32, n6: u128, control_port: u16, relay: SocketAddr)
    ensures
        ({
            let ports = seq![(relay.port / 256) as u8, (relay.port % 256) as u8];
            &&& associate_bytes(SocketAddr { ip: IpAddr::V4(n4), port: control_port }, relay)
                == seq![5u8, 0, 0, 1] + be::bytes(n4 as nat, 4) + ports
            &&& associate_bytes(SocketAddr { ip: IpAddr::V6(n6), port: control_port }, relay)
                == seq![5u8, 0, 0, 4] + be::bytes(n6 as nat, 16) + ports
        }),
{
    socks5::lemma_reply_layout(0, n4, n6, relay.port);
}

/// What a client announces as its address counts when it is an address and a
/// port; a name, and port zero, do not. Nothing is known of any name yet.
pub proof fn lemma_announced(ip: IpAddr, name: Seq<char>, port: u16, block_special: bool)
    ensures
        port > 0 ==> UdpRelayView::begin(HostView::Ip(ip), port, block_special).client == Some(
            SocketAddr { ip, port },
        ),
        UdpRelayView::begin(HostView::Ip(ip), 0, block_special).client is None,
        UdpRelayView::begin(HostView::Name(name), port, block_special).client is None,
        UdpRelayView::begin(HostView::Ip(ip), port, block_special).block_special == block_special,
        UdpRelayView::begin(HostView::Name(name), port, block_special).block_special
            == block_special,
        UdpRelayView::begin(HostView::Ip(ip), port, block_special).cache == Map::<
            (HostView, u16),
            SocketAddr,
        >::empty(),
        UdpRelayView::begin(HostView::Name(name), port, block_special).cache == Map::<
            (HostView, u16),
            SocketAddr,
        >::empty(),
{
}

/// The association ends with the control connection, and bytes on it mean
/// nothing.
pub proof fn lemma_control(received: usize)
    ensures
        UdpRelayView::on_control(received) is Close <==> received == 0,
        UdpRelayView::on_control(received) is Drop <==> received > 0,
{
}

/// A request to an address is sent to exactly that address and port, with exactly
/// its payload, whoever sends it; to a name that is not known it waits for the
/// lookup; to an address that is refused it is dropped.
pub proof fn lemma_requests(
    relay: UdpRelayView,
    source: SocketAddr,
    packet: Seq<u8>,
    host: HostView,
    port: u16,
    payload: Seq<u8>,
)
    requires
        server::udp_request_of(packet) == Ok::<
            (HostView, u16, Seq<u8>),
            server::UdpRequestError,
        >((host, port, payload)),
    ensures
        host matches HostView::Ip(ip) ==> {
            &&& !relay.block_special || !server::special(ip) ==> relay.action(source, packet) == (
            RelayActionView::Forward { target: SocketAddr { ip, port }, payload })
            &&& relay.block_special && server::special(ip) ==> relay.action(source, packet) is Drop
        },
        host matches HostView::Name(name) ==> (addr::ip_of(name) matches Some(ip) ==> (
        !relay.block_special || !server::special(ip) ==> relay.action(source, packet) == (
        RelayActionView::Forward { target: SocketAddr { ip, port }, payload }))),
        host matches HostView::Name(name) ==> (addr::ip_of(name) is None
            && !relay.cache.contains_key((host, port)) ==> relay.action(source, packet) == (
        RelayActionView::Resolve { host, port, payload })),
        relay.after(source, packet).client == Some(source),
        relay.after(source, packet).cache == relay.cache,
        relay.after(source, packet).block_special == relay.block_special,
{
}

/// The wire form of a request to an IPv4 address reaches that address: every
/// octet and both bytes of the port count.
pub proof fn lemma_request_wire(
    relay: UdpRelayView,
    source: SocketAddr,
    a: u8,
    b: u8,
    c: u8,
    d: u8,
    high: u8,
    low: u8,
    payload: Seq<u8>,
)
    requires
        !relay.block_special,
    ensures
        relay.action(source, seq![0u8, 0, 0, 1] + seq![a, b, c, d] + seq![high, low] + payload) == (
        RelayActionView::Forward {
            target: SocketAddr {
                ip: IpAddr::V4((a * 0x100_0000 + b * 0x1_0000 + c * 0x100 + d) as u32),
                port: (high * 256 + low) as u16,
            },
            payload,
        }),
{
    server::lemma_udp_read(seq![a, b, c, d], high, low, payload);
    be::lemma_be_weights(a, b, c, d);
}

/// What is no request is an answer: it goes to the client with its source in
/// front, and is dropped as long as no client is known. It changes nothing.
pub proof fn lemma_answers(relay: UdpRelayView, source: SocketAddr, packet: Seq<u8>)
    requires
        server::udp_request_of(packet) is Err,
    ensures
        relay.client matches Some(client) ==> relay.action(source, packet) == (
        RelayActionView::ToClient { client, packet: server::udp_response_bytes(source, packet) }),
        relay.client is None ==> relay.action(source, packet) is Drop,
        relay.after(source, packet) == relay,
{
}

/// What waited for a lookup goes to the address that was found, unless that is
/// refused; the client and the blocking stay as they were.
pub proof fn lemma_waited(
    relay: UdpRelayView,
    host: HostView,
    port: u16,
    target: SocketAddr,
    payload: Seq<u8>,
)
    ensures
        !relay.block_special || !server::special(target.ip) ==> relay.deliver(target, payload) == (
        RelayActionView::Forward { target, payload }),
        relay.block_special && server::special(target.ip) ==> relay.deliver(target, payload) is Drop,
        relay.learned(host, port, target).client == relay.client,
        relay.learned(host, port, target).block_special == relay.block_special,
{
}

} // verus!
