//! The life of a tunnel over HTTP/3, as steps from events to actions.
use bytes::Bytes;
use vstd::prelude::*;
use crate::addr::{IpAddr, SocketAddr};
use crate::auth;
use crate::capsule;
use crate::connect;
use crate::masque;
use crate::masque::{ConnectRequest, Reply, StatusCode, CAPSULE_DATAGRAM};
use crate::server;
use crate::server::{Host, HostView};
use crate::udp_relay;
use crate::wire;

verus! {

// ---------------------------------------------------------------------------
// UDP
// ---------------------------------------------------------------------------

/// Where a UDP tunnel stands.
#[derive(Debug)]
pub enum UdpTunnel {
    /// The destination is being looked up.
    Resolving { host: Host, port: u16 },
    /// The socket to the destination is being opened.
    Opening { target: SocketAddr },
    /// Datagrams are relayed.
    Relaying { target: SocketAddr },
    Closed,
}

/// What a [`UdpTunnel`] denotes.
#[verifier::ext_equal]
pub enum UdpTunnelView {
    Resolving { host: HostView, port: u16 },
    Opening { target: SocketAddr },
    Relaying { target: SocketAddr },
    Closed,
}

impl View for UdpTunnel {
    type V = UdpTunnelView;

    open spec fn view(&self) -> UdpTunnelView {
        match self {
            UdpTunnel::Resolving { host, port } => UdpTunnelView::Resolving {
                host: host@,
                port: *port,
            },
            UdpTunnel::Opening { target } => UdpTunnelView::Opening { target: *target },
            UdpTunnel::Relaying { target } => UdpTunnelView::Relaying { target: *target },
            UdpTunnel::Closed => UdpTunnelView::Closed,
        }
    }
}

/// What happens to a UDP tunnel.
#[derive(Debug)]
pub enum UdpEvent<'a> {
    Resolved(SocketAddr),
    ResolveFailed,
    Opened,
    OpenFailed,
    /// A datagram of the destination, and the largest datagram that the
    /// connection takes now.
    FromTarget { payload: &'a [u8], max_datagram: Option<usize> },
    TargetFailed,
    /// A datagram of the client.
    FromClient(&'a [u8]),
    ClientGone,
    /// A datagram could not be sent to the client.
    SendFailed,
}

/// What a [`UdpEvent`] denotes.
#[verifier::ext_equal]
pub enum UdpEventView {
    Resolved(SocketAddr),
    ResolveFailed,
    Opened,
    OpenFailed,
    FromTarget { payload: Seq<u8>, max_datagram: Option<usize> },
    TargetFailed,
    FromClient(Seq<u8>),
    ClientGone,
    SendFailed,
}

impl<'a> View for UdpEvent<'a> {
    type V = UdpEventView;

    open spec fn view(&self) -> UdpEventView {
        match self {
            UdpEvent::Resolved(a) => UdpEventView::Resolved(*a),
            UdpEvent::ResolveFailed => UdpEventView::ResolveFailed,
            UdpEvent::Opened => UdpEventView::Opened,
            UdpEvent::OpenFailed => UdpEventView::OpenFailed,
            UdpEvent::FromTarget { payload, max_datagram } => UdpEventView::FromTarget {
                payload: payload@,
                max_datagram: *max_datagram,
            },
            UdpEvent::TargetFailed => UdpEventView::TargetFailed,
            UdpEvent::FromClient(d) => UdpEventView::FromClient(d@),
            UdpEvent::ClientGone => UdpEventView::ClientGone,
            UdpEvent::SendFailed => UdpEventView::SendFailed,
        }
    }
}

/// What is done for a UDP tunnel.
pub enum UdpAction {
    /// Look the destination up.
    Resolve,
    /// Bind a socket and connect it to the destination.
    Open { bind: SocketAddr, target: SocketAddr },
    Reply(Reply),
    /// Send a datagram to the client.
    ToClient(Bytes),
    /// Send a datagram to the destination.
    ToTarget(Bytes),
    /// Nothing; a datagram is dropped.
    Nothing,
    /// Finish the request stream.
    Finish,
    /// Give the request stream up.
    Fail,
}

/// What a [`UdpAction`] denotes.
#[verifier::ext_equal]
pub enum UdpActionView {
    Resolve,
    Open { bind: SocketAddr, target: SocketAddr },
    Reply(Reply),
    ToClient(Seq<u8>),
    ToTarget(Seq<u8>),
    Nothing,
    Finish,
    Fail,
}

impl View for UdpAction {
    type V = UdpActionView;

    open spec fn view(&self) -> UdpActionView {
        match self {
            UdpAction::Resolve => UdpActionView::Resolve,
            UdpAction::Open { bind, target } => UdpActionView::Open {
                bind: *bind,
                target: *target,
            },
            UdpAction::Reply(r) => UdpActionView::Reply(*r),
            UdpAction::ToClient(b) => UdpActionView::ToClient(wire::held(*b)),
            UdpAction::ToTarget(b) => UdpActionView::ToTarget(wire::held(*b)),
            UdpAction::Nothing => UdpActionView::Nothing,
            UdpAction::Finish => UdpActionView::Finish,
            UdpAction::Fail => UdpActionView::Fail,
        }
    }
}

impl UdpTunnelView {
    /// How a tunnel begins.
    pub open spec fn begin(req: ConnectRequest, token: Option<Seq<char>>) -> (
        UdpTunnelView,
        UdpActionView,
    ) {
        match masque::udp_verdict(req, token) {
            Ok((host, port)) => (UdpTunnelView::Resolving { host, port }, UdpActionView::Resolve),
            Err(status) => (
                UdpTunnelView::Closed,
                UdpActionView::Reply(masque::status_reply(status)),
            ),
        }
    }

    /// How a tunnel goes on. An event that does not belong to the state changes
    /// nothing.
    pub open spec fn next(self, block_special: bool, event: UdpEventView) -> (
        UdpTunnelView,
        UdpActionView,
    ) {
        match (self, event) {
            (UdpTunnelView::Resolving { .. }, UdpEventView::Resolved(target)) =>
                if connect::blocked(block_special, target) {
                (
                    UdpTunnelView::Closed,
                    UdpActionView::Reply(masque::status_reply(StatusCode::Forbidden)),
                )
            } else {
                (
                    UdpTunnelView::Opening { target },
                    UdpActionView::Open { bind: udp_relay::any_of(target.ip), target },
                )
            },
            (UdpTunnelView::Resolving { .. }, UdpEventView::ResolveFailed) => (
                UdpTunnelView::Closed,
                UdpActionView::Fail,
            ),
            (UdpTunnelView::Opening { target }, UdpEventView::Opened) => (
                UdpTunnelView::Relaying { target },
                UdpActionView::Reply(masque::tunnel_reply(true)),
            ),
            (UdpTunnelView::Opening { .. }, UdpEventView::OpenFailed) => (
                UdpTunnelView::Closed,
                UdpActionView::Fail,
            ),
            (
                UdpTunnelView::Relaying { .. },
                UdpEventView::FromTarget { payload, max_datagram },
            ) => {
                let datagram = capsule::capsule_bytes(CAPSULE_DATAGRAM, payload);
                if masque::sendable(datagram.len(), max_datagram) {
                    (self, UdpActionView::ToClient(datagram))
                } else {
                    (self, UdpActionView::Nothing)
                }
            },
            (UdpTunnelView::Relaying { .. }, UdpEventView::FromClient(datagram)) =>
                match masque::payload_of(datagram) {
                Some(payload) => (self, UdpActionView::ToTarget(payload)),
                None => (self, UdpActionView::Nothing),
            },
            (UdpTunnelView::Relaying { .. }, UdpEventView::TargetFailed)
            | (UdpTunnelView::Relaying { .. }, UdpEventView::ClientGone)
            | (UdpTunnelView::Relaying { .. }, UdpEventView::SendFailed) => (
                UdpTunnelView::Closed,
                UdpActionView::Finish,
            ),
            _ => (self, UdpActionView::Nothing),
        }
    }
}

/// Whether a datagram that is relayed can be wrapped: within the limit of a
/// buffer, with room for the header.
pub open spec fn wrappable(payload: Seq<u8>) -> bool {
    wire::fits(payload.len() + 16)
}

impl UdpTunnel {
    /// Begins a tunnel for a request.
    pub fn start(req: &ConnectRequest, token: Option<&str>) -> (r: (UdpTunnel, UdpAction))
        ensures
            (r.0@, r.1@) == UdpTunnelView::begin(*req, auth::text_view(token)),
    {
        match masque::validate_connect_udp(req, token) {
            Ok((host, port)) => (UdpTunnel::Resolving { host, port }, UdpAction::Resolve),
            Err(status) => (UdpTunnel::Closed, UdpAction::Reply(masque::send_status(status))),
        }
    }

    /// Takes an event and tells what is to be done.
    pub fn step(&mut self, block_special: bool, event: UdpEvent<'_>) -> (r: UdpAction)
        requires
            event@ matches UdpEventView::FromTarget { payload, .. } ==> wrappable(payload),
        ensures
            (final(self)@, r@) == old(self)@.next(block_special, event@),
    {
        match self {
            UdpTunnel::Resolving { .. } => match event {
                UdpEvent::Resolved(target) => {
                    if block_special && server::is_rfc6890_special(target.ip) {
                        *self = UdpTunnel::Closed;
                        UdpAction::Reply(masque::send_status(StatusCode::Forbidden))
                    } else {
                        *self = UdpTunnel::Opening { target };
                        UdpAction::Open { bind: udp_relay::bind_address(target.ip), target }
                    }
                },
                UdpEvent::ResolveFailed => {
                    *self = UdpTunnel::Closed;
                    UdpAction::Fail
                },
                _ => UdpAction::Nothing,
            },
            UdpTunnel::Opening { target } => match event {
                UdpEvent::Opened => {
                    let target = *target;
                    *self = UdpTunnel::Relaying { target };
                    UdpAction::Reply(accept(true))
                },
                UdpEvent::OpenFailed => {
                    *self = UdpTunnel::Closed;
                    UdpAction::Fail
                },
                _ => UdpAction::Nothing,
            },
            UdpTunnel::Relaying { .. } => match event {
                UdpEvent::FromTarget { payload, max_datagram } => {
                    proof {
                        capsule::lemma_varint_shape(CAPSULE_DATAGRAM);
                        capsule::lemma_varint_shape(payload@.len() as u64);
                    }
                    let datagram = masque::encode_capsule(payload);
                    if masque::fits_datagram(wire::as_slice(&datagram).len(), max_datagram) {
                        UdpAction::ToClient(datagram)
                    } else {
                        UdpAction::Nothing
                    }
                },
                UdpEvent::FromClient(datagram) => match masque::decode_capsule(datagram) {
                    Some(payload) => UdpAction::ToTarget(payload),
                    None => UdpAction::Nothing,
                },
                UdpEvent::TargetFailed | UdpEvent::ClientGone | UdpEvent::SendFailed => {
                    *self = UdpTunnel::Closed;
                    UdpAction::Finish
                },
                _ => UdpAction::Nothing,
            },
            UdpTunnel::Closed => UdpAction::Nothing,
        }
    }
}

/// Builds the reply that opens a tunnel.
pub fn accept(capsules: bool) -> (r: Reply)
    ensures
        r == masque::tunnel_reply(capsules),
{
    Reply { status: StatusCode::Success, capsule_protocol: capsules, proxy_authenticate: false }
}

/// Nothing is relayed before the tunnel is open, and a tunnel is opened only to
/// the destination that was looked up, which is not refused.
pub proof fn lemma_udp_opens_first(
    tunnel: UdpTunnelView,
    block_special: bool,
    event: UdpEventView,
)
    ensures
        tunnel.next(block_special, event).1 is ToClient || tunnel.next(
            block_special,
            event,
        ).1 is ToTarget ==> tunnel is Relaying,
        tunnel.next(block_special, event).0 is Relaying ==> tunnel is Relaying || (tunnel is Opening
            && event is Opened),
        tunnel.next(block_special, event).0 is Opening && !(tunnel is Opening) ==> (event matches
            UdpEventView::Resolved(target) && !connect::blocked(block_special, target)
            && tunnel.next(block_special, event).0 == (UdpTunnelView::Opening { target })),
{
}

/// A tunnel keeps its destination, and a closed tunnel stays closed.
pub proof fn lemma_udp_one_target(tunnel: UdpTunnelView, block_special: bool, event: UdpEventView)
    ensures
        tunnel matches UdpTunnelView::Relaying { target } ==> (tunnel.next(
            block_special,
            event,
        ).0 == tunnel || tunnel.next(block_special, event).0 is Closed),
        tunnel matches UdpTunnelView::Opening { target } ==> (tunnel.next(
            block_special,
            event,
        ).0 is Relaying ==> tunnel.next(block_special, event).0 == (UdpTunnelView::Relaying {
            target,
        })),
        tunnel is Closed ==> tunnel.next(block_special, event) == (
            UdpTunnelView::Closed,
            UdpActionView::Nothing,
        ),
{
}

/// Datagrams pass through an open tunnel unchanged: what the client wraps
/// reaches the destination, and what the destination sends reaches the client,
/// unless it is too large, in which case it is dropped and the tunnel lives on.
pub proof fn lemma_udp_transparent(
    target: SocketAddr,
    block_special: bool,
    payload: Seq<u8>,
    max_datagram: Option<usize>,
)
    requires
        payload.len() < capsule::VARINT_LIMIT,
    ensures
        ({
            let tunnel = UdpTunnelView::Relaying { target };
            let datagram = capsule::capsule_bytes(CAPSULE_DATAGRAM, payload);
            let down = tunnel.next(
                block_special,
                UdpEventView::FromTarget { payload, max_datagram },
            );
            &&& tunnel.next(block_special, UdpEventView::FromClient(datagram)) == (
                tunnel,
                UdpActionView::ToTarget(payload),
            )
            &&& down.0 == tunnel
            &&& down.1 matches UdpActionView::ToClient(d) ==> masque::payload_of(d) == Some(payload)
            &&& down.1 is ToClient <==> masque::sendable(datagram.len(), max_datagram)
        }),
{
    masque::lemma_payload_round_trip(payload);
}

// ---------------------------------------------------------------------------
// TCP
// ---------------------------------------------------------------------------

/// Where a TCP tunnel stands.
#[derive(Debug)]
pub enum TcpTunnel {
    /// The destination is being looked up.
    Resolving { host: Host, port: u16 },
    /// The destination is being dialled.
    Dialling { target: SocketAddr },
    /// Bytes are piped both ways.
    Piping,
    Closed,
}

/// What a [`TcpTunnel`] denotes.
#[verifier::ext_equal]
pub enum TcpTunnelView {
    Resolving { host: HostView, port: u16 },
    Dialling { target: SocketAddr },
    Piping,
    Closed,
}

impl View for TcpTunnel {
    type V = TcpTunnelView;

    open spec fn view(&self) -> TcpTunnelView {
        match self {
            TcpTunnel::Resolving { host, port } => TcpTunnelView::Resolving {
                host: host@,
                port: *port,
            },
            TcpTunnel::Dialling { target } => TcpTunnelView::Dialling { target: *target },
            TcpTunnel::Piping => TcpTunnelView::Piping,
            TcpTunnel::Closed => TcpTunnelView::Closed,
        }
    }
}

/// What happens to a TCP tunnel before it is open.
#[derive(Debug, Clone, Copy, PartialEq, Eq, Structural)]
pub enum TcpEvent {
    Resolved(SocketAddr),
    ResolveFailed,
    Connected,
    /// The destination could not be reached, or not in time.
    ConnectFailed,
}

/// What is done for a TCP tunnel before it is open.
#[derive(Debug, Clone, Copy, PartialEq, Eq, Structural)]
pub enum TcpAction {
    /// Look the destination up.
    Resolve,
    Dial(SocketAddr),
    Reply(Reply),
    Nothing,
    /// Give the request stream up.
    Fail,
}

impl TcpTunnelView {
    /// How a tunnel begins, for a verdict on its request.
    pub open spec fn begin(verdict: Result<(HostView, u16), StatusCode>) -> (
        TcpTunnelView,
        TcpAction,
    ) {
        match verdict {
            Ok((host, port)) => (TcpTunnelView::Resolving { host, port }, TcpAction::Resolve),
            Err(status) => (
                TcpTunnelView::Closed,
                TcpAction::Reply(masque::status_reply(status)),
            ),
        }
    }

    /// How a tunnel goes on.
    pub open spec fn next(self, block_special: bool, event: TcpEvent) -> (
        TcpTunnelView,
        TcpAction,
    ) {
        match (self, event) {
            (TcpTunnelView::Resolving { .. }, TcpEvent::Resolved(target)) =>
                if connect::blocked(block_special, target) {
                (
                    TcpTunnelView::Closed,
                    TcpAction::Reply(masque::status_reply(StatusCode::Forbidden)),
                )
            } else {
                (TcpTunnelView::Dialling { target }, TcpAction::Dial(target))
            },
            (TcpTunnelView::Resolving { .. }, TcpEvent::ResolveFailed) => (
                TcpTunnelView::Closed,
                TcpAction::Fail,
            ),
            (TcpTunnelView::Dialling { .. }, TcpEvent::Connected) => (
                TcpTunnelView::Piping,
                TcpAction::Reply(masque::tunnel_reply(false)),
            ),
            (TcpTunnelView::Dialling { .. }, TcpEvent::ConnectFailed) => (
                TcpTunnelView::Closed,
                TcpAction::Reply(masque::status_reply(StatusCode::BadGateway)),
            ),
            _ => (self, TcpAction::Nothing),
        }
    }
}

impl TcpTunnel {
    /// Begins a plain tunnel for a request.
    pub fn start(req: &ConnectRequest, token: Option<&str>) -> (r: (TcpTunnel, TcpAction))
        ensures
            (r.0@, r.1) == TcpTunnelView::begin(
                masque::tcp_verdict(*req, auth::text_view(token)),
            ),
    {
        match masque::validate_tcp_connect(req, token) {
            Ok((host, port)) => (TcpTunnel::Resolving { host, port }, TcpAction::Resolve),
            Err(status) => (TcpTunnel::Closed, TcpAction::Reply(masque::send_status(status))),
        }
    }

    /// Begins a WebSocket tunnel for a request. It is a TCP tunnel: what passes
    /// through it is not looked at.
    pub fn start_websocket(req: &ConnectRequest, token: Option<&str>) -> (r: (
        TcpTunnel,
        TcpAction,
    ))
        ensures
            (r.0@, r.1) == TcpTunnelView::begin(
                masque::websocket_verdict(*req, auth::text_view(token)),
            ),
    {
        match masque::validate_websocket_connect(req, token) {
            Ok((host, port)) => (TcpTunnel::Resolving { host, port }, TcpAction::Resolve),
            Err(status) => (TcpTunnel::Closed, TcpAction::Reply(masque::send_status(status))),
        }
    }

    /// Takes an event and tells what is to be done.
    pub fn step(&mut self, block_special: bool, event: TcpEvent) -> (r: TcpAction)
        ensures
            (final(self)@, r) == old(self)@.next(block_special, event),
    {
        match self {
            TcpTunnel::Resolving { .. } => match event {
                TcpEvent::Resolved(target) => {
                    if block_special && server::is_rfc6890_special(target.ip) {
                        *self = TcpTunnel::Closed;
                        TcpAction::Reply(masque::send_status(StatusCode::Forbidden))
                    } else {
                        *self = TcpTunnel::Dialling { target };
                        TcpAction::Dial(target)
                    }
                },
                TcpEvent::ResolveFailed => {
                    *self = TcpTunnel::Closed;
                    TcpAction::Fail
                },
                _ => TcpAction::Nothing,
            },
            TcpTunnel::Dialling { .. } => match event {
                TcpEvent::Connected => {
                    *self = TcpTunnel::Piping;
                    TcpAction::Reply(accept(false))
                },
                TcpEvent::ConnectFailed => {
                    *self = TcpTunnel::Closed;
                    TcpAction::Reply(masque::send_status(StatusCode::BadGateway))
                },
                _ => TcpAction::Nothing,
            },
            TcpTunnel::Piping => TcpAction::Nothing,
            TcpTunnel::Closed => TcpAction::Nothing,
        }
    }
}

/// A tunnel is piped only after it was answered with success, and a
/// destination that is refused is never dialled.
pub proof fn lemma_tcp_opens_first(tunnel: TcpTunnelView, block_special: bool, event: TcpEvent)
    ensures
        tunnel.next(block_special, event).0 is Piping && !(tunnel is Piping) ==> tunnel.next(
            block_special,
            event,
        ).1 == TcpAction::Reply(masque::tunnel_reply(false)),
        tunnel.next(block_special, event).1 matches TcpAction::Dial(target) ==> !connect::blocked(
            block_special,
            target,
        ),
        tunnel is Closed ==> tunnel.next(block_special, event) == (
            TcpTunnelView::Closed,
            TcpAction::Nothing,
        ),
{
}

/// What comes out of the sending side of a byte stream.
#[derive(Debug)]
pub enum Chunk {
    Data(Vec<u8>),
    /// The sender has finished.
    End,
    /// Reading failed.
    Failed,
}

/// What a [`Chunk`] denotes.
#[verifier::ext_equal]
pub enum ChunkView {
    Data(Seq<u8>),
    End,
    Failed,
}

impl View for Chunk {
    type V = ChunkView;

    open spec fn view(&self) -> ChunkView {
        match self {
            Chunk::Data(data) => ChunkView::Data(data@),
            Chunk::End => ChunkView::End,
            Chunk::Failed => ChunkView::Failed,
        }
    }
}

/// What is done with the receiving side.
#[derive(Debug)]
pub enum Pumped {
    /// Write the bytes, and go on.
    Write(Vec<u8>),
    /// Close the receiving side in order, and stop.
    Close,
    /// Stop.
    Stop,
}

/// What a [`Pumped`] denotes.
#[verifier::ext_equal]
pub enum PumpedView {
    Write(Seq<u8>),
    Close,
    Stop,
}

impl View for Pumped {
    type V = PumpedView;

    open spec fn view(&self) -> PumpedView {
        match self {
            Pumped::Write(data) => PumpedView::Write(data@),
            Pumped::Close => PumpedView::Close,
            Pumped::Stop => PumpedView::Stop,
        }
    }
}

/// The direction to the destination: bytes are written as they are; the end is
/// handed on; a failure stops the direction.
pub open spec fn to_target(chunk: ChunkView) -> PumpedView {
    match chunk {
        ChunkView::Data(data) => PumpedView::Write(data),
        ChunkView::End => PumpedView::Close,
        ChunkView::Failed => PumpedView::Stop,
    }
}

/// The direction to the client: bytes are written as they are; at the end, and
/// on a failure, the reply is finished.
pub open spec fn to_client(chunk: ChunkView) -> PumpedView {
    match chunk {
        ChunkView::Data(data) => PumpedView::Write(data),
        ChunkView::End => PumpedView::Close,
        ChunkView::Failed => PumpedView::Close,
    }
}

/// Moves a chunk of the client towards the destination.
pub fn pump_to_target(chunk: Chunk) -> (r: Pumped)
    ensures
        r@ == to_target(chunk@),
{
    match chunk {
        Chunk::Data(data) => Pumped::Write(data),
        Chunk::End => Pumped::Close,
        Chunk::Failed => Pumped::Stop,
    }
}

/// Moves a chunk of the destination towards the client.
pub fn pump_to_client(chunk: Chunk) -> (r: Pumped)
    ensures
        r@ == to_client(chunk@),
{
    match chunk {
        Chunk::Data(data) => Pumped::Write(data),
        Chunk::End | Chunk::Failed => Pumped::Close,
    }
}

/// The bytes that come before the first end or failure.
pub open spec fn sent(chunks: Seq<ChunkView>) -> Seq<u8>
    decreases chunks.len(),
{
    if chunks.len() == 0 {
        Seq::empty()
    } else {
        match chunks[0] {
            ChunkView::Data(data) => data + sent(chunks.drop_first()),
            _ => Seq::empty(),
        }
    }
}

/// The bytes that a direction writes until it closes or stops.
pub open spec fn written(pump: spec_fn(ChunkView) -> PumpedView, chunks: Seq<ChunkView>) -> Seq<u8>
    decreases chunks.len(),
{
    if chunks.len() == 0 {
        Seq::empty()
    } else {
        match pump(chunks[0]) {
            PumpedView::Write(data) => data + written(pump, chunks.drop_first()),
            _ => Seq::empty(),
        }
    }
}

/// A pipe is transparent in both directions: the bytes that go in come out, in
/// order, none lost and none added.
pub proof fn lemma_pipe_transparent(chunks: Seq<ChunkView>)
    ensures
        written(|c: ChunkView| to_target(c), chunks) == sent(chunks),
        written(|c: ChunkView| to_client(c), chunks) == sent(chunks),
    decreases chunks.len(),
{
    if chunks.len() > 0 {
        lemma_pipe_transparent(chunks.drop_first());
    }
}

// ---------------------------------------------------------------------------
// Laws
// ---------------------------------------------------------------------------

/// The socket of a UDP tunnel is bound to the all-zero address of the family of
/// its destination, at a port of the system's choice, in every state and for
/// every destination; and that destination is the one that was just looked up.
pub proof fn lemma_udp_bind(tunnel: UdpTunnelView, block_special: bool, event: UdpEventView)
    ensures
        tunnel.next(block_special, event).1 matches UdpActionView::Open { bind, target } ==> {
            &&& bind.ip is V4 <==> target.ip is V4
            &&& target.ip is V4 ==> bind.ip == IpAddr::V4(0)
            &&& target.ip is V6 ==> bind.ip == IpAddr::V6(0)
            &&& bind.port == 0
            &&& event == UdpEventView::Resolved(target)
            &&& tunnel is Resolving
        },
{
}

/// Once the destination of a UDP tunnel is looked up, a socket to exactly that
/// address is opened, unless special-purpose addresses are blocked and it is one:
/// then the request is answered with 403.
pub proof fn lemma_udp_resolved(
    host: HostView,
    port: u16,
    block_special: bool,
    target: SocketAddr,
)
    ensures
        ({
            let r = (UdpTunnelView::Resolving { host, port }).next(
                block_special,
                UdpEventView::Resolved(target),
            );
            &&& !block_special || !server::special(target.ip) ==> r.0 == (UdpTunnelView::Opening {
                target,
            }) && (r.1 matches UdpActionView::Open { target: t, .. } && t == target)
            &&& block_special && server::special(target.ip) ==> r.0 is Closed && (
            r.1 matches UdpActionView::Reply(reply) && reply.status.number() == 403
                && !reply.capsule_protocol && !reply.proxy_authenticate)
        }),
{
}

/// A UDP tunnel is answered with 200 and the announcement of capsules when its
/// socket is open, and given up without a reply when the lookup or the socket
/// fails.
pub proof fn lemma_udp_setup(host: HostView, port: u16, target: SocketAddr, block_special: bool)
    ensures
        ({
            let opened = (UdpTunnelView::Opening { target }).next(
                block_special,
                UdpEventView::Opened,
            );
            &&& opened.0 == (UdpTunnelView::Relaying { target })
            &&& opened.1 matches UdpActionView::Reply(reply) && reply.status.number() == 200
                && reply.capsule_protocol && !reply.proxy_authenticate
        }),
        (UdpTunnelView::Opening { target }).next(block_special, UdpEventView::OpenFailed) == (
            UdpTunnelView::Closed,
            UdpActionView::Fail,
        ),
        (UdpTunnelView::Resolving { host, port }).next(block_special, UdpEventView::ResolveFailed)
            == (UdpTunnelView::Closed, UdpActionView::Fail),
{
}

/// A relayed datagram of the destination travels behind its type, zero, and its
/// length; it is sent when the whole leaves eight bytes of the largest datagram,
/// and dropped otherwise.
pub proof fn lemma_udp_downlink(
    target: SocketAddr,
    block_special: bool,
    payload: Seq<u8>,
    max: usize,
)
    requires
        payload.len() < 64,
    ensures
        ({
            let tunnel = UdpTunnelView::Relaying { target };
            let r = tunnel.next(
                block_special,
                UdpEventView::FromTarget { payload, max_datagram: Some(max) },
            );
            &&& payload.len() + 10 <= max ==> r == (
                tunnel,
                UdpActionView::ToClient(seq![0u8, payload.len() as u8] + payload),
            )
            &&& payload.len() + 10 > max ==> r == (tunnel, UdpActionView::Nothing)
            &&& tunnel.next(
                block_special,
                UdpEventView::FromTarget { payload, max_datagram: None },
            ) == (tunnel, UdpActionView::Nothing)
        }),
{
    capsule::lemma_short_capsule(0, payload);
}

/// What the client sends behind type zero and its length reaches the destination,
/// the empty datagram included, whatever stands behind it; a capsule of another
/// type is dropped and the tunnel lives on.
pub proof fn lemma_udp_uplink(
    target: SocketAddr,
    block_special: bool,
    typ: u64,
    payload: Seq<u8>,
    rest: Seq<u8>,
)
    requires
        payload.len() < 64,
        0 < typ < capsule::VARINT_LIMIT,
    ensures
        ({
            let tunnel = UdpTunnelView::Relaying { target };
            &&& tunnel.next(
                block_special,
                UdpEventView::FromClient(seq![0u8, payload.len() as u8] + payload),
            ) == (tunnel, UdpActionView::ToTarget(payload))
            &&& tunnel.next(
                block_special,
                UdpEventView::FromClient(capsule::capsule_bytes(typ, payload) + rest),
            ) == (tunnel, UdpActionView::Nothing)
        }),
{
    masque::lemma_short_payload(payload);
    masque::lemma_other_capsule(typ, payload, rest);
}

/// A UDP tunnel ends exactly when the destination fails, the client is gone or a
/// datagram cannot be sent; then the request stream is finished.
pub proof fn lemma_udp_end(target: SocketAddr, block_special: bool, event: UdpEventView)
    ensures
        ({
            let r = (UdpTunnelView::Relaying { target }).next(block_special, event);
            let over = event is TargetFailed || event is ClientGone || event is SendFailed;
            &&& over <==> r.0 is Closed
            &&& over <==> r.1 is Finish
            &&& !over ==> r.0 == (UdpTunnelView::Relaying { target })
        }),
{
}

/// A UDP tunnel begins with the lookup of the host and the port that its path
/// names; what is refused is answered with its status and ends there.
pub proof fn lemma_udp_begin(req: ConnectRequest, token: Option<Seq<char>>)
    ensures
        masque::udp_verdict(req, token) matches Ok((host, port)) ==> UdpTunnelView::begin(
            req,
            token,
        ) == ((UdpTunnelView::Resolving { host, port }), UdpActionView::Resolve),
        masque::udp_verdict(req, token) matches Err(status) ==> {
            let r = UdpTunnelView::begin(req, token);
            &&& r.0 is Closed
            &&& r.1 matches UdpActionView::Reply(reply) && reply.status == status
                && !reply.capsule_protocol && (reply.proxy_authenticate <==> status.number() == 407)
        },
{
}

/// Once the destination of a TCP tunnel is looked up, exactly that address is
/// dialled, unless special-purpose addresses are blocked and it is one: then the
/// request is answered with 403.
pub proof fn lemma_tcp_resolved(
    host: HostView,
    port: u16,
    block_special: bool,
    target: SocketAddr,
)
    ensures
        ({
            let r = (TcpTunnelView::Resolving { host, port }).next(
                block_special,
                TcpEvent::Resolved(target),
            );
            &&& !block_special || !server::special(target.ip) ==> r == (
                (TcpTunnelView::Dialling { target }),
                TcpAction::Dial(target),
            )
            &&& block_special && server::special(target.ip) ==> r.0 is Closed && (
            r.1 matches TcpAction::Reply(reply) && reply.status.number() == 403
                && !reply.capsule_protocol && !reply.proxy_authenticate)
            &&& (TcpTunnelView::Resolving { host, port }).next(
                block_special,
                TcpEvent::ResolveFailed,
            ) == (TcpTunnelView::Closed, TcpAction::Fail)
        }),
{
}

/// A TCP tunnel that is dialled is answered with 200, without capsules, when it
/// is connected, and with 502 when it is not.
pub proof fn lemma_tcp_dialled(target: SocketAddr, block_special: bool)
    ensures
        ({
            let r = (TcpTunnelView::Dialling { target }).next(block_special, TcpEvent::Connected);
            &&& r.0 is Piping
            &&& r.1 matches TcpAction::Reply(reply) && reply.status.number() == 200
                && !reply.capsule_protocol && !reply.proxy_authenticate
        }),
        ({
            let r = (TcpTunnelView::Dialling { target }).next(
                block_special,
                TcpEvent::ConnectFailed,
            );
            &&& r.0 is Closed
            &&& r.1 matches TcpAction::Reply(reply) && reply.status.number() == 502
                && !reply.capsule_protocol && !reply.proxy_authenticate
        }),
{
}

/// A TCP tunnel begins with the lookup of the host and the port that were found
/// in its request; what is refused is answered with its status and ends there.
pub proof fn lemma_tcp_begin(host: HostView, port: u16, status: StatusCode)
    ensures
        TcpTunnelView::begin(Ok((host, port))) == (
            (TcpTunnelView::Resolving { host, port }),
            TcpAction::Resolve,
        ),
        ({
            let r = TcpTunnelView::begin(Err(status));
            &&& r.0 is Closed
            &&& r.1 matches TcpAction::Reply(reply) && reply.status == status
                && !reply.capsule_protocol && (reply.proxy_authenticate <==> status.number() == 407)
        }),
{
}

/// A pipe ends in order: the end of either side closes the other, a failure of
/// the destination still finishes the reply to the client, and a failure of the
/// client does not look like an end to the destination. Bytes never end it.
pub proof fn lemma_pipe_ends(data: Seq<u8>)
    ensures
        to_target(ChunkView::End) is Close,
        to_client(ChunkView::End) is Close,
        to_client(ChunkView::Failed) is Close,
        to_target(ChunkView::Failed) is Stop,
        to_target(ChunkView::Data(data)) == PumpedView::Write(data),
        to_client(ChunkView::Data(data)) == PumpedView::Write(data),
{
}

} // verus!
