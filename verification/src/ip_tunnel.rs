//! IP tunnels: the session of a client, its signalling on the request stream
//! and its packets in datagrams.
use bytes::Bytes;
use vstd::prelude::*;
use vstd::slice::slice_subrange;
use crate::addr;
use crate::addr::IpAddr;
use crate::auth;
use crate::be;
use crate::capsule;
use crate::capsule::{AssignedAddress, IpRange};
use crate::masque;
use crate::masque::{ConnectRequest, Reply, StatusCode};
use crate::text;
use crate::tun;
use crate::tun::IpPool;
use crate::tunnel;
use crate::wire;

verus! {

/// What the headers of a tunnelled packet take, beside the datagram's own.
pub const IP_HEADROOM: usize = 40;

/// The MTU of the device: what a datagram holds without its overhead and the
/// packet's headers, if that leaves anything.
pub open spec fn mtu_of(max_datagram: Option<usize>) -> Option<usize> {
    match max_datagram {
        Some(max) => if max > masque::DATAGRAM_OVERHEAD + IP_HEADROOM {
            Some((max - (masque::DATAGRAM_OVERHEAD + IP_HEADROOM)) as usize)
        } else {
            None
        },
        None => None,
    }
}

/// Chooses the MTU of the device.
pub fn choose_mtu(max_datagram: Option<usize>) -> (r: Option<usize>)
    ensures
        r == mtu_of(max_datagram),
{
    match max_datagram {
        Some(max) => if max > masque::DATAGRAM_OVERHEAD + IP_HEADROOM {
            Some(max - (masque::DATAGRAM_OVERHEAD + IP_HEADROOM))
        } else {
            None
        },
        None => None,
    }
}

/// The all-zero address of a family.
pub open spec fn zero_of(ip: IpAddr) -> IpAddr {
    match ip {
        IpAddr::V4(_) => IpAddr::V4(0),
        IpAddr::V6(_) => IpAddr::V6(0),
    }
}

/// The all-zero address of the family of `ip`.
pub fn default_route_for(ip: IpAddr) -> (r: IpAddr)
    ensures
        r == zero_of(ip),
{
    match ip {
        IpAddr::V4(_) => IpAddr::V4(0),
        IpAddr::V6(_) => IpAddr::V6(0),
    }
}

/// The range of all addresses of a family, for all protocols.
pub open spec fn everything(ip: IpAddr) -> IpRange {
    IpRange {
        start: zero_of(ip),
        end: match ip {
            IpAddr::V4(_) => IpAddr::V4(u32::MAX),
            IpAddr::V6(_) => IpAddr::V6(u128::MAX),
        },
        ip_protocol: 0,
    }
}

/// The session of a client.
pub struct IpSession {
    pub proxy: IpAddr,
    pub client: IpAddr,
    pub prefix: u8,
    pub mtu: Option<usize>,
    /// What has come in on the request stream and is not a whole capsule yet.
    pub buffer: Vec<u8>,
}

/// The capsule that tells a client its address, in answer to the request with
/// this number; zero when there was none.
pub open spec fn assign_bytes(client: IpAddr, prefix: u8, request_id: u64) -> Seq<u8> {
    capsule::capsule_bytes(
        capsule::CAPSULE_ADDRESS_ASSIGN,
        capsule::address_bytes(
            seq![AssignedAddress { request_id, address: client, prefix_len: prefix }],
        ),
    )
}

/// The capsule that tells a client to send everything through the tunnel.
pub open spec fn route_bytes(client: IpAddr) -> Seq<u8> {
    capsule::capsule_bytes(
        capsule::CAPSULE_ROUTE_ADVERTISEMENT,
        capsule::route_bytes(seq![everything(client)]),
    )
}

/// How a request for a session is answered, given the next block of the pool:
/// the status, or the ends of the link.
pub open spec fn session_verdict(
    req: ConnectRequest,
    token: Option<Seq<char>>,
    pool: tun::PoolView,
) -> Result<(IpAddr, IpAddr, u8), StatusCode> {
    match masque::ip_verdict(req, token) {
        Err(status) => Err(status),
        Ok(_) => if pool.allocated < pool.capacity() {
            Ok(pool.assignment(pool.allocated))
        } else {
            Err(StatusCode::ServiceUnavailable)
        },
    }
}

impl IpSession {
    /// Opens a session for a request: validates it, and takes the next block of
    /// the pool. A request that is refused takes nothing.
    pub fn open(
        req: &ConnectRequest,
        token: Option<&str>,
        pool: &mut IpPool,
        max_datagram: Option<usize>,
    ) -> (r: Result<IpSession, StatusCode>)
        requires
            old(pool)@.wf(),
        ensures
            final(pool)@.wf(),
            match session_verdict(*req, auth::text_view(token), old(pool)@) {
                Ok((proxy, client, prefix)) => {
                    &&& r matches Ok(s)
                    &&& s.proxy == proxy && s.client == client && s.prefix == prefix
                    &&& s.mtu == mtu_of(max_datagram)
                    &&& s.buffer@ == Seq::<u8>::empty()
                    &&& final(pool)@ == (tun::PoolView {
                        allocated: old(pool)@.allocated + 1,
                        ..old(pool)@
                    })
                },
                Err(status) => r matches Err(e) && e == status && final(pool)@ == old(pool)@,
            },
    {
        if let Err(status) = masque::validate_connect_ip(req, token) {
            return Err(status);
        }
        match pool.allocate() {
            Ok((proxy, client, prefix)) => Ok(
                IpSession {
                    proxy,
                    client,
                    prefix,
                    mtu: choose_mtu(max_datagram),
                    buffer: Vec::new(),
                },
            ),
            Err(_) => Err(StatusCode::ServiceUnavailable),
        }
    }

    /// The capsule that tells the client its address.
    pub fn assign(&self, request_id: u64) -> (r: Bytes)
        ensures
            wire::held(r) == assign_bytes(self.client, self.prefix, request_id),
    {
        let entry = AssignedAddress {
            request_id,
            address: self.client,
            prefix_len: self.prefix,
        };
        let entries: [AssignedAddress; 1] = [entry];
        proof {
            let s = seq![entry];
            assert(entries@ == s);
            reveal_with_fuel(capsule::address_bytes, 2);
            assert(s.drop_first() == Seq::<AssignedAddress>::empty());
            addr::lemma_octets_round_trip(entry.address);
            capsule::lemma_varint_shape(request_id);
            capsule::lemma_varint_shape(capsule::CAPSULE_ADDRESS_ASSIGN);
            capsule::lemma_varint_shape(capsule::address_bytes(s).len() as u64);
            assert(capsule::address_bytes(s).len() <= 26);
        }
        capsule::encode_address_assign(entries.as_slice())
    }

    /// The capsule that tells the client to send everything through the tunnel.
    pub fn advertise(&self) -> (r: Bytes)
        ensures
            wire::held(r) == route_bytes(self.client),
    {
        let start = default_route_for(self.client);
        let end = match self.client {
            IpAddr::V4(_) => IpAddr::V4(u32::MAX),
            IpAddr::V6(_) => IpAddr::V6(u128::MAX),
        };
        let range = IpRange { start, end, ip_protocol: 0 };
        let ranges: [IpRange; 1] = [range];
        proof {
            let s = seq![range];
            assert(ranges@ == s);
            assert(range == everything(self.client));
            reveal_with_fuel(capsule::route_bytes, 2);
            assert(s.drop_first() == Seq::<IpRange>::empty());
            addr::lemma_octets_round_trip(range.start);
            addr::lemma_octets_round_trip(range.end);
            capsule::lemma_varint_shape(capsule::CAPSULE_ROUTE_ADVERTISEMENT);
            capsule::lemma_varint_shape(capsule::route_bytes(s).len() as u64);
            assert(capsule::route_bytes(s).len() <= 34);
        }
        capsule::encode_route_advertisement(ranges.as_slice())
    }
}

/// A client reads its own address and prefix out of the first capsule, and the
/// route for everything out of the second.
pub proof fn lemma_client_learns(client: IpAddr, prefix: u8, request_id: u64)
    requires
        request_id < capsule::VARINT_LIMIT,
        prefix <= capsule::max_prefix(client),
    ensures
        capsule::assignment_of(assign_bytes(client, prefix, request_id)) == Some(
            seq![AssignedAddress { request_id, address: client, prefix_len: prefix }],
        ),
        capsule::advertisement_of(route_bytes(client)) == Some(seq![everything(client)]),
{
    let entries = seq![AssignedAddress { request_id, address: client, prefix_len: prefix }];
    let ranges = seq![everything(client)];
    let nothing = Seq::<u8>::empty();
    reveal_with_fuel(capsule::address_bytes, 2);
    reveal_with_fuel(capsule::route_bytes, 2);
    assert(entries.drop_first() == Seq::<AssignedAddress>::empty());
    assert(ranges.drop_first() == Seq::<IpRange>::empty());
    addr::lemma_octets_round_trip(client);
    addr::lemma_octets_round_trip(ranges[0].start);
    addr::lemma_octets_round_trip(ranges[0].end);
    capsule::lemma_varint_shape(request_id);
    capsule::lemma_assignment_round_trip(entries, nothing);
    capsule::lemma_advertisement_round_trip(ranges, nothing);
    let s = assign_bytes(client, prefix, request_id);
    let t = route_bytes(client);
    assert(s + nothing == s);
    assert(t + nothing == t);
}

// ---------------------------------------------------------------------------
// Packets
// ---------------------------------------------------------------------------

/// The datagram that carries a packet: context zero and the packet.
pub open spec fn packet_datagram(packet: Seq<u8>) -> Seq<u8> {
    seq![0u8] + packet
}

/// What is sent to the client for a packet of the device: nothing for an empty
/// read and for a packet that is too large.
pub open spec fn downlink_of(packet: Seq<u8>, max_datagram: Option<usize>) -> Option<Seq<u8>> {
    if packet.len() > 0 && masque::sendable(packet.len() + 1, max_datagram) {
        Some(packet_datagram(packet))
    } else {
        None
    }
}

/// Wraps a packet of the device for the client.
pub fn downlink(packet: &[u8], max_datagram: Option<usize>) -> (r: Option<Bytes>)
    requires
        wire::fits(packet@.len() + 1),
    ensures
        match downlink_of(packet@, max_datagram) {
            Some(datagram) => r matches Some(b) && wire::held(b) == datagram,
            None => r is None,
        },
{
    let n: usize = packet.len();
    if n == 0 || !masque::fits_datagram(n + 1, max_datagram) {
        return None;
    }
    let mut buf = wire::new_buf();
    wire::put_u8(&mut buf, 0);
    wire::put_slice(&mut buf, packet);
    assert(wire::written(buf) == packet_datagram(packet@));
    Some(wire::freeze(buf))
}

/// What is written to the device for a datagram of the client: its packet, when
/// the context is zero and there is one.
pub open spec fn uplink_of(datagram: Seq<u8>) -> Option<Seq<u8>> {
    match capsule::context_zero(datagram) {
        Some(packet) => if packet.len() > 0 {
            Some(packet)
        } else {
            None
        },
        None => None,
    }
}

/// Unwraps a packet of the client.
pub fn uplink(datagram: &[u8]) -> (r: Option<&[u8]>)
    ensures
        match uplink_of(datagram@) {
            Some(packet) => r matches Some(p) && p@ == packet,
            None => r is None,
        },
{
    let packet = capsule::strip_context_id(datagram)?;
    if packet.len() > 0 {
        Some(packet)
    } else {
        None
    }
}

/// A packet passes unchanged in both directions: what one side wraps, the other
/// unwraps.
pub proof fn lemma_packet_round_trip(packet: Seq<u8>, max_datagram: Option<usize>)
    requires
        packet.len() > 0,
    ensures
        uplink_of(packet_datagram(packet)) == Some(packet),
        downlink_of(packet, max_datagram) matches Some(d) ==> uplink_of(d) == Some(packet),
{
    let d = packet_datagram(packet);
    let front = d.take(1);
    assert(front.update(0, d[0] % 64).drop_last() == Seq::<u8>::empty());
    reveal_with_fuel(crate::be::value, 2);
    assert(capsule::varint_at(d) == Some((0u64, 1nat)));
    assert(d.skip(1) == packet);
}

// ---------------------------------------------------------------------------
// Signalling
// ---------------------------------------------------------------------------

/// The whole capsules at the front of a stream, and what is left.
pub open spec fn capsules_of(s: Seq<u8>) -> (Seq<(u64, Seq<u8>)>, Seq<u8>)
    decreases s.len(),
{
    match capsule::capsule_at(s) {
        Some((typ, value, n)) => if 0 < n <= s.len() {
            let (more, rest) = capsules_of(s.skip(n as int));
            (seq![(typ, value)] + more, rest)
        } else {
            (Seq::empty(), s)
        },
        None => (Seq::empty(), s),
    }
}

/// The number that an answer to an ADDRESS_REQUEST echoes: that of the first
/// address asked for; zero when the request names none.
pub open spec fn echoed(value: Seq<u8>) -> u64 {
    match capsule::addresses_of(value) {
        Some(entries) => if entries.len() > 0 {
            entries[0].request_id
        } else {
            0
        },
        None => 0,
    }
}

/// The answers to capsules of the client: every ADDRESS_REQUEST is answered
/// with the address that the client already has; everything else is ignored.
pub open spec fn answers(client: IpAddr, prefix: u8, capsules: Seq<(u64, Seq<u8>)>) -> Seq<Seq<u8>>
    decreases capsules.len(),
{
    if capsules.len() == 0 {
        Seq::empty()
    } else {
        let rest = answers(client, prefix, capsules.drop_last());
        let (typ, value) = capsules.last();
        if typ == capsule::CAPSULE_ADDRESS_REQUEST {
            rest.push(assign_bytes(client, prefix, echoed(value)))
        } else {
            rest
        }
    }
}

/// What a list of buffers holds.
pub open spec fn held_all(v: Seq<Bytes>) -> Seq<Seq<u8>> {
    v.map_values(|b: Bytes| wire::held(b))
}

/// The number that an answer to an ADDRESS_REQUEST echoes.
pub fn echo_id(value: &[u8]) -> (r: u64)
    ensures
        r == echoed(value@),
{
    match capsule::decode_address_value(value) {
        Some(entries) => if entries.len() > 0 {
            entries[0].request_id
        } else {
            0
        },
        None => 0,
    }
}

impl IpSession {
    /// Takes bytes of the request stream: the answers to the capsules that are
    /// complete now. What is left waits for more bytes.
    pub fn on_stream(&mut self, data: &[u8]) -> (r: Vec<Bytes>)
        ensures
            ({
                let (capsules, rest) = capsules_of(old(self).buffer@ + data@);
                &&& held_all(r@) == answers(old(self).client, old(self).prefix, capsules)
                &&& final(self).buffer@ == rest
            }),
            final(self).proxy == old(self).proxy,
            final(self).client == old(self).client,
            final(self).prefix == old(self).prefix,
            final(self).mtu == old(self).mtu,
    {
        let mut all: Vec<u8> = Vec::new();
        text::push_bytes(&mut all, self.buffer.as_slice());
        text::push_bytes(&mut all, data);
        let ghost stream = self.buffer@ + data@;
        assert(all@ == stream);
        let mut out: Vec<Bytes> = Vec::new();
        let mut rest: &[u8] = all.as_slice();
        let ghost mut done: Seq<(u64, Seq<u8>)> = Seq::empty();
        proof {
            assert(held_all(out@) == Seq::<Seq<u8>>::empty());
            assert(done + capsules_of(stream).0 == capsules_of(stream).0);
        }
        loop
            invariant_except_break
                capsules_of(stream).0 == done + capsules_of(rest@).0,
                capsules_of(stream).1 == capsules_of(rest@).1,
                held_all(out@) == answers(self.client, self.prefix, done),
            invariant
                self.client == old(self).client,
                self.prefix == old(self).prefix,
                self.proxy == old(self).proxy,
                self.mtu == old(self).mtu,
            ensures
                held_all(out@) == answers(self.client, self.prefix, capsules_of(stream).0),
                rest@ == capsules_of(stream).1,
            decreases rest@.len(),
        {
            match capsule::split_capsule(rest) {
                Some((typ, value, used)) => {
                    proof {
                        capsule::lemma_capsule_extend(rest@, Seq::empty());
                        let then = capsules_of(rest@.skip(used as int));
                        assert(capsules_of(rest@).0 == seq![(typ, value@)] + then.0);
                        let before = done;
                        done = before.push((typ, value@));
                        assert(before + (seq![(typ, value@)] + then.0) == done + then.0);
                        assert(done.drop_last() == before);
                    }
                    if typ == capsule::CAPSULE_ADDRESS_REQUEST {
                        let ghost sent = out@;
                        let answer = self.assign(echo_id(value));
                        out.push(answer);
                        assert(held_all(out@) == held_all(sent).push(wire::held(answer)));
                    }
                    rest = slice_subrange(rest, used, rest.len());
                },
                None => {
                    proof {
                        assert(capsules_of(rest@) == (Seq::<(u64, Seq<u8>)>::empty(), rest@));
                        assert(done + Seq::<(u64, Seq<u8>)>::empty() == done);
                    }
                    break;
                },
            }
        }
        self.buffer = text::bytes_vec(rest);
        out
    }
}

/// It does not matter in what pieces the stream comes in: the capsules of the
/// first piece, then those of what was left together with the second, are the
/// capsules of the whole.
pub proof fn lemma_pieces(a: Seq<u8>, b: Seq<u8>)
    ensures
        ({
            let (first, left) = capsules_of(a);
            let (second, rest) = capsules_of(left + b);
            capsules_of(a + b) == (first + second, rest)
        }),
    decreases a.len(),
{
    let (first, left) = capsules_of(a);
    let (second, rest) = capsules_of(left + b);
    match capsule::capsule_at(a) {
        Some((typ, value, n)) => {
            capsule::lemma_capsule_extend(a, b);
            let tail = a.skip(n as int);
            lemma_pieces(tail, b);
            assert((a + b).skip(n as int) == tail + b);
            let (more, _) = capsules_of(tail);
            assert(seq![(typ, value)] + more + second == seq![(typ, value)] + (more + second));
        },
        None => {
            assert(first + second == second);
        },
    }
}

// ---------------------------------------------------------------------------
// The tunnel
// ---------------------------------------------------------------------------

/// What an [`IpSession`] denotes.
#[verifier::ext_equal]
pub struct IpSessionView {
    pub proxy: IpAddr,
    pub client: IpAddr,
    pub prefix: u8,
    pub mtu: Option<usize>,
    pub buffer: Seq<u8>,
}

impl View for IpSession {
    type V = IpSessionView;

    open spec fn view(&self) -> IpSessionView {
        IpSessionView {
            proxy: self.proxy,
            client: self.client,
            prefix: self.prefix,
            mtu: self.mtu,
            buffer: self.buffer@,
        }
    }
}

/// Where an IP tunnel stands.
pub enum IpTunnel {
    /// The device of the session is being made.
    Creating(IpSession),
    /// Packets are relayed.
    Relaying(IpSession),
    Closed,
}

/// What an [`IpTunnel`] denotes.
#[verifier::ext_equal]
pub enum IpTunnelView {
    Creating(IpSessionView),
    Relaying(IpSessionView),
    Closed,
}

impl View for IpTunnel {
    type V = IpTunnelView;

    open spec fn view(&self) -> IpTunnelView {
        match self {
            IpTunnel::Creating(s) => IpTunnelView::Creating(s@),
            IpTunnel::Relaying(s) => IpTunnelView::Relaying(s@),
            IpTunnel::Closed => IpTunnelView::Closed,
        }
    }
}

/// What happens to an IP tunnel.
#[derive(Debug)]
pub enum IpEvent<'a> {
    /// The device is up, with its addresses and firewall rules.
    Created,
    CreateFailed,
    /// A packet of the device, and the largest datagram that the connection
    /// takes now.
    FromDevice { packet: &'a [u8], max_datagram: Option<usize> },
    DeviceFailed,
    /// A datagram of the client.
    FromClient(&'a [u8]),
    /// Bytes of the client on the request stream.
    FromStream(&'a [u8]),
    /// The client has finished the request stream, or is not there any more.
    ClientGone,
    /// A packet, or what opens the tunnel, could not be sent to the client.
    SendFailed,
    /// An answer on the request stream could not be sent.
    AnswerFailed,
}

/// What an [`IpEvent`] denotes.
#[verifier::ext_equal]
pub enum IpEventView {
    Created,
    CreateFailed,
    FromDevice { packet: Seq<u8>, max_datagram: Option<usize> },
    DeviceFailed,
    FromClient(Seq<u8>),
    FromStream(Seq<u8>),
    ClientGone,
    SendFailed,
    AnswerFailed,
}

impl<'a> View for IpEvent<'a> {
    type V = IpEventView;

    open spec fn view(&self) -> IpEventView {
        match self {
            IpEvent::Created => IpEventView::Created,
            IpEvent::CreateFailed => IpEventView::CreateFailed,
            IpEvent::FromDevice { packet, max_datagram } => IpEventView::FromDevice {
                packet: packet@,
                max_datagram: *max_datagram,
            },
            IpEvent::DeviceFailed => IpEventView::DeviceFailed,
            IpEvent::FromClient(d) => IpEventView::FromClient(d@),
            IpEvent::FromStream(d) => IpEventView::FromStream(d@),
            IpEvent::ClientGone => IpEventView::ClientGone,
            IpEvent::SendFailed => IpEventView::SendFailed,
            IpEvent::AnswerFailed => IpEventView::AnswerFailed,
        }
    }
}

/// What is done for an IP tunnel.
pub enum IpAction {
    /// Make the device, with these ends of the link.
    Create { proxy: IpAddr, client: IpAddr, prefix: u8, mtu: Option<usize> },
    Reply(Reply),
    /// Send the reply, then the capsules on the request stream.
    Open { reply: Reply, capsules: Vec<Bytes> },
    /// Send a datagram to the client.
    ToClient(Bytes),
    /// Write a packet to the device.
    ToDevice(Vec<u8>),
    /// Send capsules on the request stream.
    ToStream(Vec<Bytes>),
    /// Nothing; a packet is dropped.
    Nothing,
    /// Remove the device and finish the request stream.
    Finish,
}

/// What an [`IpAction`] denotes.
#[verifier::ext_equal]
pub enum IpActionView {
    Create { proxy: IpAddr, client: IpAddr, prefix: u8, mtu: Option<usize> },
    Reply(Reply),
    Open { reply: Reply, capsules: Seq<Seq<u8>> },
    ToClient(Seq<u8>),
    ToDevice(Seq<u8>),
    ToStream(Seq<Seq<u8>>),
    Nothing,
    Finish,
}

impl View for IpAction {
    type V = IpActionView;

    open spec fn view(&self) -> IpActionView {
        match self {
            IpAction::Create { proxy, client, prefix, mtu } => IpActionView::Create {
                proxy: *proxy,
                client: *client,
                prefix: *prefix,
                mtu: *mtu,
            },
            IpAction::Reply(r) => IpActionView::Reply(*r),
            IpAction::Open { reply, capsules } => IpActionView::Open {
                reply: *reply,
                capsules: held_all(capsules@),
            },
            IpAction::ToClient(b) => IpActionView::ToClient(wire::held(*b)),
            IpAction::ToDevice(p) => IpActionView::ToDevice(p@),
            IpAction::ToStream(c) => IpActionView::ToStream(held_all(c@)),
            IpAction::Nothing => IpActionView::Nothing,
            IpAction::Finish => IpActionView::Finish,
        }
    }
}

impl IpTunnelView {
    /// How a tunnel begins, and what it leaves of the pool.
    pub open spec fn begin(
        req: ConnectRequest,
        token: Option<Seq<char>>,
        pool: tun::PoolView,
        max_datagram: Option<usize>,
    ) -> (IpTunnelView, IpActionView, tun::PoolView) {
        match session_verdict(req, token, pool) {
            Ok((proxy, client, prefix)) => {
                let mtu = mtu_of(max_datagram);
                (
                    IpTunnelView::Creating(
                        IpSessionView { proxy, client, prefix, mtu, buffer: Seq::empty() },
                    ),
                    IpActionView::Create { proxy, client, prefix, mtu },
                    tun::PoolView { allocated: pool.allocated + 1, ..pool },
                )
            },
            Err(status) => (
                IpTunnelView::Closed,
                IpActionView::Reply(masque::status_reply(status)),
                pool,
            ),
        }
    }

    /// How a tunnel goes on. An answer that is lost changes nothing, nor does an
    /// event that does not belong to the state.
    pub open spec fn next(self, event: IpEventView) -> (IpTunnelView, IpActionView) {
        match (self, event) {
            (IpTunnelView::Creating(s), IpEventView::Created) => (
                IpTunnelView::Relaying(s),
                IpActionView::Open {
                    reply: masque::tunnel_reply(true),
                    capsules: seq![assign_bytes(s.client, s.prefix, 0), route_bytes(s.client)],
                },
            ),
            (IpTunnelView::Creating(_), IpEventView::CreateFailed) => (
                IpTunnelView::Closed,
                IpActionView::Reply(masque::status_reply(StatusCode::InternalServerError)),
            ),
            (IpTunnelView::Relaying(_), IpEventView::FromDevice { packet, max_datagram }) =>
                match downlink_of(packet, max_datagram) {
                Some(datagram) => (self, IpActionView::ToClient(datagram)),
                None => (self, IpActionView::Nothing),
            },
            (IpTunnelView::Relaying(_), IpEventView::FromClient(datagram)) =>
                match uplink_of(datagram) {
                Some(packet) => (self, IpActionView::ToDevice(packet)),
                None => (self, IpActionView::Nothing),
            },
            (IpTunnelView::Relaying(s), IpEventView::FromStream(data)) => {
                let (capsules, rest) = capsules_of(s.buffer + data);
                (
                    IpTunnelView::Relaying(IpSessionView { buffer: rest, ..s }),
                    IpActionView::ToStream(answers(s.client, s.prefix, capsules)),
                )
            },
            (IpTunnelView::Relaying(_), IpEventView::DeviceFailed)
            | (IpTunnelView::Relaying(_), IpEventView::ClientGone)
            | (IpTunnelView::Relaying(_), IpEventView::SendFailed) => (
                IpTunnelView::Closed,
                IpActionView::Finish,
            ),
            _ => (self, IpActionView::Nothing),
        }
    }
}

impl IpTunnel {
    /// Begins a tunnel for a request: validates it, and takes the next block of
    /// the pool.
    pub fn start(
        req: &ConnectRequest,
        token: Option<&str>,
        pool: &mut IpPool,
        max_datagram: Option<usize>,
    ) -> (r: (IpTunnel, IpAction))
        requires
            old(pool)@.wf(),
        ensures
            final(pool)@.wf(),
            (r.0@, r.1@, final(pool)@) == IpTunnelView::begin(
                *req,
                auth::text_view(token),
                old(pool)@,
                max_datagram,
            ),
    {
        match IpSession::open(req, token, pool, max_datagram) {
            Ok(s) => {
                let action = IpAction::Create {
                    proxy: s.proxy,
                    client: s.client,
                    prefix: s.prefix,
                    mtu: s.mtu,
                };
                (IpTunnel::Creating(s), action)
            },
            Err(status) => (IpTunnel::Closed, IpAction::Reply(masque::send_status(status))),
        }
    }

    /// Takes an event and tells what is to be done.
    pub fn step(&mut self, event: IpEvent<'_>) -> (r: IpAction)
        requires
            event@ matches IpEventView::FromDevice { packet, .. } ==> wire::fits(packet.len() + 1),
        ensures
            (final(self)@, r@) == old(self)@.next(event@),
    {
        let mut now = IpTunnel::Closed;
        core::mem::swap(self, &mut now);
        match now {
            IpTunnel::Creating(s) => match event {
                IpEvent::Created => {
                    let mut capsules: Vec<Bytes> = Vec::new();
                    capsules.push(s.assign(0));
                    capsules.push(s.advertise());
                    assert(held_all(capsules@) == seq![
                        assign_bytes(s.client, s.prefix, 0),
                        route_bytes(s.client),
                    ]);
                    *self = IpTunnel::Relaying(s);
                    IpAction::Open { reply: tunnel::accept(true), capsules }
                },
                IpEvent::CreateFailed => IpAction::Reply(
                    masque::send_status(StatusCode::InternalServerError),
                ),
                _ => {
                    *self = IpTunnel::Creating(s);
                    IpAction::Nothing
                },
            },
            IpTunnel::Relaying(s) => {
                let mut s = s;
                let action = match event {
                    IpEvent::FromDevice { packet, max_datagram } => match downlink(
                        packet,
                        max_datagram,
                    ) {
                        Some(datagram) => IpAction::ToClient(datagram),
                        None => IpAction::Nothing,
                    },
                    IpEvent::FromClient(datagram) => match uplink(datagram) {
                        Some(packet) => IpAction::ToDevice(text::bytes_vec(packet)),
                        None => IpAction::Nothing,
                    },
                    IpEvent::FromStream(data) => IpAction::ToStream(s.on_stream(data)),
                    IpEvent::DeviceFailed | IpEvent::ClientGone | IpEvent::SendFailed => {
                        return IpAction::Finish;
                    },
                    IpEvent::Created | IpEvent::CreateFailed | IpEvent::AnswerFailed =>
                        IpAction::Nothing,
                };
                *self = IpTunnel::Relaying(s);
                action
            },
            IpTunnel::Closed => IpAction::Nothing,
        }
    }
}

/// Nothing is relayed before the tunnel is open: it is opened once its device is
/// there, by a successful reply that tells the client its address and the route,
/// and it carries nothing more once it is closed.
pub proof fn lemma_opens_first(tunnel: IpTunnelView, event: IpEventView)
    ensures
        tunnel.next(event).1 is ToClient || tunnel.next(event).1 is ToDevice || tunnel.next(
            event,
        ).1 is ToStream ==> tunnel is Relaying,
        tunnel.next(event).0 is Relaying && !(tunnel is Relaying) ==> {
            &&& tunnel matches IpTunnelView::Creating(s)
            &&& event is Created
            &&& tunnel.next(event).1 == (IpActionView::Open {
                reply: masque::tunnel_reply(true),
                capsules: seq![assign_bytes(s.client, s.prefix, 0), route_bytes(s.client)],
            })
        },
        tunnel is Closed ==> tunnel.next(event) == (IpTunnelView::Closed, IpActionView::Nothing),
{
}

/// The ends of the link are those of the block that was taken, for as long as
/// the tunnel lasts.
pub proof fn lemma_session_kept(session: IpSessionView, event: IpEventView)
    ensures
        IpTunnelView::Relaying(session).next(event).0 matches IpTunnelView::Relaying(s) ==> s
            == (IpSessionView { buffer: s.buffer, ..session }),
        IpTunnelView::Creating(session).next(event).0 matches IpTunnelView::Relaying(s) ==> s
            == session,
{
}

// ---------------------------------------------------------------------------
// Laws
// ---------------------------------------------------------------------------

/// A client is told to send everything: what it reads out of the advertisement
/// is one range, for all protocols, and every address of its family lies in it,
/// from zero to the largest there is.
pub proof fn lemma_everything_routed(c4: u32, c6: u128, a4: u32, a6: u128)
    ensures
        capsule::advertisement_of(route_bytes(IpAddr::V4(c4))) matches Some(ranges) && {
            &&& ranges.len() == 1
            &&& ranges[0].ip_protocol == 0
            &&& ranges[0].start == IpAddr::V4(0)
            &&& ranges[0].end == IpAddr::V4(0xffff_ffff)
            &&& ranges[0].start matches IpAddr::V4(start) && start <= a4
            &&& ranges[0].end matches IpAddr::V4(end) && a4 <= end
        },
        capsule::advertisement_of(route_bytes(IpAddr::V6(c6))) matches Some(ranges) && {
            &&& ranges.len() == 1
            &&& ranges[0].ip_protocol == 0
            &&& ranges[0].start == IpAddr::V6(0)
            &&& ranges[0].end == IpAddr::V6(0xffff_ffff_ffff_ffff_ffff_ffff_ffff_ffff)
            &&& ranges[0].start matches IpAddr::V6(start) && start <= a6
            &&& ranges[0].end matches IpAddr::V6(end) && a6 <= end
        },
{
    lemma_client_learns(IpAddr::V4(c4), 0, 0);
    lemma_client_learns(IpAddr::V6(c6), 0, 0);
}

/// The advertisement on the wire, byte by byte: type 3, the length, the family,
/// as many zeros as an address has octets, as many 255s, and protocol zero.
pub proof fn lemma_route_wire(c4: u32, c6: u128)
    ensures
        route_bytes(IpAddr::V4(c4)) == seq![3u8, 10, 4, 0, 0, 0, 0, 255, 255, 255, 255, 0],
        route_bytes(IpAddr::V6(c6)).len() == 36,
        route_bytes(IpAddr::V6(c6))[2] == 6,
        forall|i: int| 3 <= i < 19 ==> route_bytes(IpAddr::V6(c6))[i] == 0,
        forall|i: int| 19 <= i < 35 ==> route_bytes(IpAddr::V6(c6))[i] == 255,
        route_bytes(IpAddr::V6(c6))[35] == 0,
{
    capsule::lemma_route_layout(
        0,
        0xffff_ffff,
        0,
        0xffff_ffff_ffff_ffff_ffff_ffff_ffff_ffff,
        0,
    );
    be::lemma_be_four(0);
    be::lemma_be_four(0xffff_ffff);
    let zeros = be::bytes(0, 16);
    let ones = be::bytes(0xffff_ffff_ffff_ffff_ffff_ffff_ffff_ffff, 16);
    reveal_with_fuel(be::bytes, 17);
    assert(zeros == Seq::new(16, |i: int| 0u8));
    assert(ones == Seq::new(16, |i: int| 255u8));
    let e4 = seq![everything(IpAddr::V4(c4))];
    let e6 = seq![everything(IpAddr::V6(c6))];
    reveal_with_fuel(capsule::route_bytes, 2);
    assert(e4.drop_last() == Seq::<IpRange>::empty());
    assert(e6.drop_last() == Seq::<IpRange>::empty());
    assert(e4.drop_first() == Seq::<IpRange>::empty());
    assert(e6.drop_first() == Seq::<IpRange>::empty());
    capsule::lemma_short_capsule(3, capsule::route_bytes(e4));
    capsule::lemma_short_capsule(3, capsule::route_bytes(e6));
}

/// The all-zero address is of the family that it was asked for.
pub proof fn lemma_zero(ip: IpAddr)
    ensures
        ip is V4 ==> zero_of(ip) == IpAddr::V4(0),
        ip is V6 ==> zero_of(ip) == IpAddr::V6(0),
{
}

/// The MTU leaves 48 bytes of a datagram, and there is one exactly when that
/// leaves anything. Every packet within the MTU can be sent to the client.
pub proof fn lemma_mtu(max: usize, mtu: usize, packet: Seq<u8>)
    ensures
        mtu_of(Some(max)) == Some(mtu) <==> 0 < mtu && mtu + 48 == max,
        max <= 48 ==> mtu_of(Some(max)) is None,
        mtu_of(None) is None,
        mtu_of(Some(max)) == Some(mtu) && 0 < packet.len() <= mtu ==> downlink_of(
            packet,
            Some(max),
        ) is Some,
{
}

/// A packet of the device goes to the client behind a zero when it and nine bytes
/// more are within the largest datagram; an empty one, and one that is larger, is
/// dropped.
pub proof fn lemma_downlink(packet: Seq<u8>, max: usize)
    ensures
        0 < packet.len() && packet.len() + 9 <= max ==> downlink_of(packet, Some(max)) == Some(
            seq![0u8] + packet,
        ),
        packet.len() == 0 || packet.len() + 9 > max ==> downlink_of(packet, Some(max)) is None,
        downlink_of(packet, None) is None,
{
}

/// A datagram of the client carries a packet behind context zero; another
/// context, an empty packet and an empty datagram carry none.
pub proof fn lemma_uplink(context: u64, packet: Seq<u8>)
    requires
        0 < context < capsule::VARINT_LIMIT,
    ensures
        packet.len() > 0 ==> uplink_of(seq![0u8] + packet) == Some(packet),
        uplink_of(seq![0u8]) is None,
        uplink_of(Seq::<u8>::empty()) is None,
        uplink_of(capsule::varint(context) + packet) is None,
{
    capsule::lemma_contexts(context, packet);
    capsule::lemma_contexts(context, Seq::empty());
    assert(seq![0u8] + Seq::<u8>::empty() == seq![0u8]);
}

/// Each ADDRESS_REQUEST, type 2, is answered once and in its turn; a capsule of
/// another type is not answered. What the client reads out of the answer is its
/// own address and prefix, under the number that was asked with.
pub proof fn lemma_answered(
    client: IpAddr,
    prefix: u8,
    capsules: Seq<(u64, Seq<u8>)>,
    typ: u64,
    value: Seq<u8>,
)
    requires
        prefix <= capsule::max_prefix(client),
    ensures
        ({
            let before = answers(client, prefix, capsules);
            let after = answers(client, prefix, capsules.push((typ, value)));
            &&& typ != 2 ==> after == before
            &&& typ == 2 ==> after.len() == before.len() + 1 && after.drop_last() == before
            &&& typ == 2 ==> (capsule::addresses_of(value) matches Some(entries) ==> (
            entries.len() > 0 && entries[0].request_id < capsule::VARINT_LIMIT
                ==> capsule::assignment_of(after.last()) == Some(
                seq![
                    AssignedAddress {
                        request_id: entries[0].request_id,
                        address: client,
                        prefix_len: prefix,
                    },
                ],
            )))
            &&& typ == 2 && (capsule::addresses_of(value) is None || (capsule::addresses_of(
                value,
            ) matches Some(entries) && entries.len() == 0)) ==> capsule::assignment_of(
                after.last(),
            ) == Some(
                seq![AssignedAddress { request_id: 0, address: client, prefix_len: prefix }],
            )
        }),
        answers(client, prefix, Seq::empty()).len() == 0,
{
    let all = capsules.push((typ, value));
    assert(all.drop_last() == capsules);
    let before = answers(client, prefix, capsules);
    let after = answers(client, prefix, all);
    if typ == 2 {
        assert(after.drop_last() == before);
        if echoed(value) < capsule::VARINT_LIMIT {
            lemma_client_learns(client, prefix, echoed(value));
        }
    }
}

/// A whole capsule at the front of the stream is taken, and only what comes
/// behind it is looked at next; a stream without a whole capsule waits as it is.
pub proof fn lemma_stream(typ: u64, value: Seq<u8>, rest: Seq<u8>)
    requires
        typ < capsule::VARINT_LIMIT,
        value.len() < capsule::VARINT_LIMIT,
    ensures
        capsules_of(capsule::capsule_bytes(typ, value) + rest).0 == seq![(typ, value)]
            + capsules_of(rest).0,
        capsules_of(capsule::capsule_bytes(typ, value) + rest).1 == capsules_of(rest).1,
        capsule::capsule_at(rest) is None ==> capsules_of(rest) == (
            Seq::<(u64, Seq<u8>)>::empty(),
            rest,
        ),
{
    let front = capsule::capsule_bytes(typ, value);
    capsule::lemma_capsule_round_trip(typ, value, rest);
    capsule::lemma_varint_shape(typ);
    capsule::lemma_varint_shape(value.len() as u64);
    assert((front + rest).skip(front.len() as int) == rest);
}

/// A request that is accepted takes the next block of the pool, and one block
/// only; one that is refused, or that finds the pool empty, takes none and is
/// answered with its own status or with 503.
pub proof fn lemma_begin(
    req: ConnectRequest,
    token: Option<Seq<char>>,
    pool: tun::PoolView,
    max_datagram: Option<usize>,
)
    ensures
        ({
            let (tunnel, action, left) = IpTunnelView::begin(req, token, pool, max_datagram);
            let (proxy, client, prefix) = pool.assignment(pool.allocated);
            match masque::ip_verdict(req, token) {
                Ok(_) => if pool.allocated < pool.capacity() {
                    &&& left.allocated == pool.allocated + 1
                    &&& left == (tun::PoolView { allocated: left.allocated, ..pool })
                    &&& action == (IpActionView::Create {
                        proxy,
                        client,
                        prefix,
                        mtu: mtu_of(max_datagram),
                    })
                    &&& tunnel matches IpTunnelView::Creating(s) && s.proxy == proxy && s.client
                        == client && s.prefix == prefix && s.mtu == mtu_of(max_datagram)
                        && s.buffer.len() == 0
                } else {
                    &&& left == pool
                    &&& tunnel is Closed
                    &&& action matches IpActionView::Reply(reply) && reply.status.number() == 503
                        && !reply.capsule_protocol && !reply.proxy_authenticate
                },
                Err(status) => {
                    &&& left == pool
                    &&& tunnel is Closed
                    &&& action matches IpActionView::Reply(reply) && reply.status == status
                        && !reply.capsule_protocol && (reply.proxy_authenticate <==> status.number()
                        == 407)
                },
            }
        }),
{
}

/// A tunnel whose device is made is opened with 200, the announcement of capsules
/// and two capsules: the client's address, under the number zero, and the route
/// for everything. A device that cannot be made is answered with 500.
pub proof fn lemma_created(s: IpSessionView)
    requires
        s.prefix <= capsule::max_prefix(s.client),
    ensures
        ({
            let r = IpTunnelView::Creating(s).next(IpEventView::Created);
            &&& r.0 == IpTunnelView::Relaying(s)
            &&& r.1 matches IpActionView::Open { reply, capsules } && {
                &&& reply.status.number() == 200
                &&& reply.capsule_protocol
                &&& !reply.proxy_authenticate
                &&& capsules.len() == 2
                &&& capsule::assignment_of(capsules[0]) == Some(
                    seq![
                        AssignedAddress { request_id: 0, address: s.client, prefix_len: s.prefix },
                    ],
                )
                &&& capsule::advertisement_of(capsules[1]) matches Some(ranges) && ranges.len() == 1
                    && (ranges[0].start is V4 <==> s.client is V4)
            }
        }),
        ({
            let r = IpTunnelView::Creating(s).next(IpEventView::CreateFailed);
            &&& r.0 is Closed
            &&& r.1 matches IpActionView::Reply(reply) && reply.status.number() == 500
                && !reply.capsule_protocol && !reply.proxy_authenticate
        }),
{
    lemma_client_learns(s.client, s.prefix, 0);
}

/// An open tunnel ends exactly when the device fails, the client is gone or a
/// packet cannot be sent; an answer that is lost does not end it.
pub proof fn lemma_end(s: IpSessionView, event: IpEventView)
    ensures
        ({
            let r = IpTunnelView::Relaying(s).next(event);
            let over = event is DeviceFailed || event is ClientGone || event is SendFailed;
            &&& over <==> r.0 is Closed
            &&& over <==> r.1 is Finish
            &&& event is AnswerFailed ==> r == (IpTunnelView::Relaying(s), IpActionView::Nothing)
        }),
{
}

/// An open tunnel hands each packet of the device to the client, each packet of
/// the client to the device, and answers the request stream.
pub proof fn lemma_relayed(
    s: IpSessionView,
    packet: Seq<u8>,
    max: usize,
    typ: u64,
    value: Seq<u8>,
)
    requires
        0 < packet.len(),
        packet.len() + 9 <= max,
        s.buffer.len() == 0,
        typ < capsule::VARINT_LIMIT,
        value.len() < capsule::VARINT_LIMIT,
    ensures
        IpTunnelView::Relaying(s).next(
            IpEventView::FromDevice { packet, max_datagram: Some(max) },
        ) == (IpTunnelView::Relaying(s), IpActionView::ToClient(seq![0u8] + packet)),
        IpTunnelView::Relaying(s).next(IpEventView::FromClient(seq![0u8] + packet)) == (
            IpTunnelView::Relaying(s),
            IpActionView::ToDevice(packet),
        ),
        ({
            let r = IpTunnelView::Relaying(s).next(
                IpEventView::FromStream(capsule::capsule_bytes(typ, value)),
            );
            &&& r.0 == IpTunnelView::Relaying(s)
            &&& r.1 matches IpActionView::ToStream(replies) && (typ == 2 <==> replies.len() == 1)
                && (typ != 2 <==> replies.len() == 0)
        }),
{
    lemma_downlink(packet, max);
    lemma_uplink(1, packet);
    let nothing = Seq::<u8>::empty();
    let bytes = capsule::capsule_bytes(typ, value);
    assert(s.buffer + bytes == bytes + nothing);
    lemma_stream(typ, value, nothing);
    assert(capsule::capsule_at(nothing) is None);
    assert(seq![(typ, value)] + Seq::<(u64, Seq<u8>)>::empty() == Seq::<
        (u64, Seq<u8>),
    >::empty().push((typ, value)));
    assert(s.buffer == nothing);
    let one = seq![(typ, value)];
    assert(one.drop_last() == Seq::<(u64, Seq<u8>)>::empty());
    reveal_with_fuel(answers, 2);
}

} // verus!
