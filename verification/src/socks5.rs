//! The SOCKS5 handshake as a state machine. Each state names how many bytes it
//! waits for; the bytes lead to the next state or to a decision.
use vstd::prelude::*;
use vstd::utf8::*;
use crate::addr;
use crate::addr::{IpAddr, SocketAddr};
use crate::be;
use crate::server;
use crate::server::{Host, HostView};
use crate::text;

verus! {

/// The address that stands in a reply where there is nothing to report.
pub open spec fn unspecified() -> SocketAddr {
    SocketAddr { ip: IpAddr::V4(0), port: 0 }
}

/// A reply: version, code, reserved byte and an address.
pub open spec fn reply_bytes(rep: u8, bound: SocketAddr) -> Seq<u8> {
    seq![5u8, rep, 0u8] + server::socks5_addr_bytes(bound)
}

/// Builds a reply.
pub fn reply(rep: u8, bound: SocketAddr) -> (r: Vec<u8>)
    ensures
        r@ == reply_bytes(rep, bound),
{
    let mut out: Vec<u8> = vec![5u8, rep, 0u8];
    server::push_socks5_addr(&mut out, bound);
    assert(out@ == reply_bytes(rep, bound));
    out
}

/// Builds a reply that reports a failure.
pub fn failure(rep: u8) -> (r: Vec<u8>)
    ensures
        r@ == reply_bytes(rep, unspecified()),
{
    reply(rep, SocketAddr { ip: IpAddr::V4(0), port: 0 })
}

/// Where a handshake stands.
#[derive(Debug)]
pub enum Socks5 {
    /// Before the version byte and the number of methods.
    Greeting,
    /// Before that many methods.
    Methods(u8),
    /// Before version, command, reserved byte and address type.
    Request,
    /// Before an IPv4 address (4 bytes) or an IPv6 address (16 bytes).
    Address { cmd: u8, v4: bool },
    /// Before the length of a domain.
    DomainLength { cmd: u8 },
    /// Before a domain of that length.
    Domain { cmd: u8, len: u8 },
    /// Before the port.
    Port { cmd: u8, host: Host },
}

/// What a [`Socks5`] denotes.
#[verifier::ext_equal]
pub enum Socks5View {
    Greeting,
    Methods(u8),
    Request,
    Address { cmd: u8, v4: bool },
    DomainLength { cmd: u8 },
    Domain { cmd: u8, len: u8 },
    Port { cmd: u8, host: HostView },
}

impl View for Socks5 {
    type V = Socks5View;

    open spec fn view(&self) -> Socks5View {
        match self {
            Socks5::Greeting => Socks5View::Greeting,
            Socks5::Methods(n) => Socks5View::Methods(*n),
            Socks5::Request => Socks5View::Request,
            Socks5::Address { cmd, v4 } => Socks5View::Address { cmd: *cmd, v4: *v4 },
            Socks5::DomainLength { cmd } => Socks5View::DomainLength { cmd: *cmd },
            Socks5::Domain { cmd, len } => Socks5View::Domain { cmd: *cmd, len: *len },
            Socks5::Port { cmd, host } => Socks5View::Port { cmd: *cmd, host: host@ },
        }
    }
}

/// Why a handshake is refused.
#[derive(Debug, Clone, Copy, PartialEq, Eq, Structural)]
pub enum Socks5Error {
    InvalidVersion,
    NoAcceptableMethod,
    InvalidRequestVersion,
    UnsupportedAddressType(u8),
    InvalidDomain,
    UnsupportedCommand(u8),
}

/// What the bytes that a state waited for lead to.
#[derive(Debug)]
pub enum Socks5Step {
    /// Send `reply` and go on.
    Continue { reply: Vec<u8>, state: Socks5 },
    /// Open a TCP connection.
    Connect { host: Host, port: u16 },
    /// Relay UDP.
    Associate { host: Host, port: u16 },
    /// Send `reply` and give up.
    Refuse { reply: Vec<u8>, error: Socks5Error },
}

/// What a [`Socks5Step`] denotes.
#[verifier::ext_equal]
pub enum Socks5StepView {
    Continue { reply: Seq<u8>, state: Socks5View },
    Connect { host: HostView, port: u16 },
    Associate { host: HostView, port: u16 },
    Refuse { reply: Seq<u8>, error: Socks5Error },
}

impl View for Socks5Step {
    type V = Socks5StepView;

    open spec fn view(&self) -> Socks5StepView {
        match self {
            Socks5Step::Continue { reply, state } => Socks5StepView::Continue {
                reply: reply@,
                state: state@,
            },
            Socks5Step::Connect { host, port } => Socks5StepView::Connect {
                host: host@,
                port: *port,
            },
            Socks5Step::Associate { host, port } => Socks5StepView::Associate {
                host: host@,
                port: *port,
            },
            Socks5Step::Refuse { reply, error } => Socks5StepView::Refuse {
                reply: reply@,
                error: *error,
            },
        }
    }
}

impl Socks5View {
    /// How many bytes the state waits for.
    pub open spec fn needs(self) -> nat {
        match self {
            Socks5View::Greeting => 2,
            Socks5View::Methods(n) => n as nat,
            Socks5View::Request => 4,
            Socks5View::Address { v4, .. } => if v4 {
                4
            } else {
                16
            },
            Socks5View::DomainLength { .. } => 1,
            Socks5View::Domain { len, .. } => len as nat,
            Socks5View::Port { .. } => 2,
        }
    }

    /// How many steps are still to come, at most.
    pub open spec fn rank(self) -> nat {
        match self {
            Socks5View::Greeting => 5,
            Socks5View::Methods(_) => 4,
            Socks5View::Request => 3,
            Socks5View::DomainLength { .. } => 2,
            Socks5View::Address { .. } => 1,
            Socks5View::Domain { .. } => 1,
            Socks5View::Port { .. } => 0,
        }
    }

    /// Whether the destination is being read.
    pub open spec fn in_target(self) -> bool {
        self is Address || self is DomainLength || self is Domain || self is Port
    }

    /// What is sent when the bytes that the state waits for do not come.
    pub open spec fn last_words(self) -> Seq<u8> {
        if self.in_target() {
            reply_bytes(8, unspecified())
        } else {
            Seq::empty()
        }
    }
}

/// Goes on without a reply.
pub open spec fn go_on(state: Socks5View) -> Socks5StepView {
    Socks5StepView::Continue { reply: Seq::empty(), state }
}

/// What the bytes `data` lead to in `state`.
pub open spec fn next_of(state: Socks5View, data: Seq<u8>) -> Socks5StepView {
    match state {
        Socks5View::Greeting => if data[0] != 5 {
            Socks5StepView::Refuse { reply: Seq::empty(), error: Socks5Error::InvalidVersion }
        } else {
            go_on(Socks5View::Methods(data[1]))
        },
        Socks5View::Methods(_) => if data.contains(0u8) {
            Socks5StepView::Continue { reply: seq![5u8, 0u8], state: Socks5View::Request }
        } else {
            Socks5StepView::Refuse {
                reply: seq![5u8, 0xffu8],
                error: Socks5Error::NoAcceptableMethod,
            }
        },
        Socks5View::Request => if data[0] != 5 {
            Socks5StepView::Refuse {
                reply: Seq::empty(),
                error: Socks5Error::InvalidRequestVersion,
            }
        } else if data[3] == 1 {
            go_on(Socks5View::Address { cmd: data[1], v4: true })
        } else if data[3] == 4 {
            go_on(Socks5View::Address { cmd: data[1], v4: false })
        } else if data[3] == 3 {
            go_on(Socks5View::DomainLength { cmd: data[1] })
        } else {
            Socks5StepView::Refuse {
                reply: reply_bytes(8, unspecified()),
                error: Socks5Error::UnsupportedAddressType(data[3]),
            }
        },
        Socks5View::Address { cmd, .. } => go_on(
            Socks5View::Port { cmd, host: HostView::Ip(IpAddr::from_octets_spec(data)) },
        ),
        Socks5View::DomainLength { cmd } => go_on(Socks5View::Domain { cmd, len: data[0] }),
        Socks5View::Domain { cmd, .. } => if valid_utf8(data) {
            go_on(Socks5View::Port { cmd, host: HostView::Name(decode_utf8(data)) })
        } else {
            Socks5StepView::Refuse {
                reply: reply_bytes(8, unspecified()),
                error: Socks5Error::InvalidDomain,
            }
        },
        Socks5View::Port { cmd, host } => {
            let port = be::value(data) as u16;
            if cmd == 1 {
                Socks5StepView::Connect { host, port }
            } else if cmd == 3 {
                Socks5StepView::Associate { host, port }
            } else {
                Socks5StepView::Refuse {
                    reply: reply_bytes(7, unspecified()),
                    error: Socks5Error::UnsupportedCommand(cmd),
                }
            }
        },
    }
}

fn continue_with(state: Socks5) -> (r: Socks5Step)
    ensures
        r@ == go_on(state@),
{
    let reply: Vec<u8> = Vec::new();
    assert(reply@ == Seq::<u8>::empty());
    Socks5Step::Continue { reply, state }
}

fn contains_zero(data: &[u8]) -> (r: bool)
    ensures
        r == data@.contains(0u8),
{
    let n: usize = data.len();
    for i in 0..n
        invariant
            n == data@.len(),
            forall|k: int| 0 <= k < i ==> data@[k] != 0u8,
    {
        if data[i] == 0 {
            return true;
        }
    }
    false
}

impl Socks5 {
    /// How many bytes the state waits for.
    pub fn needs(&self) -> (r: usize)
        ensures
            r == self@.needs(),
    {
        match self {
            Socks5::Greeting => 2,
            Socks5::Methods(n) => *n as usize,
            Socks5::Request => 4,
            Socks5::Address { v4, .. } => if *v4 {
                4
            } else {
                16
            },
            Socks5::DomainLength { .. } => 1,
            Socks5::Domain { len, .. } => *len as usize,
            Socks5::Port { .. } => 2,
        }
    }

    /// What is sent when the bytes cannot be read: a refusal while the
    /// destination is being read, else nothing.
    pub fn read_failed(&self) -> (r: Vec<u8>)
        ensures
            r@ == self@.last_words(),
    {
        match self {
            Socks5::Greeting | Socks5::Methods(_) | Socks5::Request => Vec::new(),
            _ => failure(8),
        }
    }

    /// Takes the bytes that the state waits for.
    pub fn next(self, data: &[u8]) -> (r: Socks5Step)
        requires
            data@.len() == self@.needs(),
        ensures
            r@ == next_of(self@, data@),
    {
        match self {
            Socks5::Greeting => {
                if data[0] != 5 {
                    let reply: Vec<u8> = Vec::new();
                    assert(reply@ == Seq::<u8>::empty());
                    return Socks5Step::Refuse { reply, error: Socks5Error::InvalidVersion };
                }
                continue_with(Socks5::Methods(data[1]))
            },
            Socks5::Methods(_) => {
                if contains_zero(data) {
                    let reply: Vec<u8> = vec![5u8, 0u8];
                    assert(reply@ == seq![5u8, 0u8]);
                    Socks5Step::Continue { reply, state: Socks5::Request }
                } else {
                    let reply: Vec<u8> = vec![5u8, 0xffu8];
                    assert(reply@ == seq![5u8, 0xffu8]);
                    Socks5Step::Refuse { reply, error: Socks5Error::NoAcceptableMethod }
                }
            },
            Socks5::Request => {
                if data[0] != 5 {
                    let reply: Vec<u8> = Vec::new();
                    assert(reply@ == Seq::<u8>::empty());
                    return Socks5Step::Refuse { reply, error: Socks5Error::InvalidRequestVersion };
                }
                let cmd: u8 = data[1];
                match data[3] {
                    1 => continue_with(Socks5::Address { cmd, v4: true }),
                    4 => continue_with(Socks5::Address { cmd, v4: false }),
                    3 => continue_with(Socks5::DomainLength { cmd }),
                    atyp => Socks5Step::Refuse {
                        reply: failure(8),
                        error: Socks5Error::UnsupportedAddressType(atyp),
                    },
                }
            },
            Socks5::Address { cmd, .. } => {
                let host = Host::Ip(IpAddr::from_octets(data));
                continue_with(Socks5::Port { cmd, host })
            },
            Socks5::DomainLength { cmd } => continue_with(Socks5::Domain { cmd, len: data[0] }),
            Socks5::Domain { cmd, .. } => match text::string_from_utf8(text::bytes_vec(data)) {
                Some(domain) => continue_with(Socks5::Port { cmd, host: Host::Name(domain) }),
                None => Socks5Step::Refuse { reply: failure(8), error: Socks5Error::InvalidDomain },
            },
            Socks5::Port { cmd, host } => {
                let port: u16 = server::read_port(data);
                if cmd == 1 {
                    Socks5Step::Connect { host, port }
                } else if cmd == 3 {
                    Socks5Step::Associate { host, port }
                } else {
                    Socks5Step::Refuse {
                        reply: failure(7),
                        error: Socks5Error::UnsupportedCommand(cmd),
                    }
                }
            },
        }
    }
}

// ---------------------------------------------------------------------------
// Whole handshakes
// ---------------------------------------------------------------------------

/// What a stream of bytes leads to from `state`: everything that is sent on
/// the way, the decision, and the bytes that were not read. `None` while bytes
/// are missing.
pub open spec fn run_of(state: Socks5View, input: Seq<u8>) -> Option<
    (Seq<u8>, Socks5StepView, Seq<u8>),
>
    decreases state.rank(),
{
    let n = state.needs() as int;
    if input.len() < n {
        None
    } else {
        match next_of(state, input.take(n)) {
            Socks5StepView::Continue { reply, state: then } => if then.rank() < state.rank() {
                match run_of(then, input.skip(n)) {
                    Some((sent, last, rest)) => Some((reply + sent, last, rest)),
                    None => None,
                }
            } else {
                None
            },
            last => Some((Seq::empty(), last, input.skip(n))),
        }
    }
}

/// What a client sends to name a destination: type, host and port.
pub open spec fn target_bytes(host: HostView, port: u16) -> Seq<u8> {
    match host {
        HostView::Ip(ip) => server::socks5_addr_bytes(SocketAddr { ip, port }),
        HostView::Name(name) => seq![3u8, encode_utf8(name).len() as u8] + encode_utf8(name)
            + be::bytes(port as nat, 2),
    }
}

/// What a client sends: its methods, then a command for a destination.
pub open spec fn client_bytes(methods: Seq<u8>, cmd: u8, host: HostView, port: u16) -> Seq<u8> {
    seq![5u8, methods.len() as u8] + methods + seq![5u8, cmd, 0u8] + target_bytes(host, port)
}

/// The decision on a command for a destination.
pub open spec fn decision(cmd: u8, host: HostView, port: u16) -> Socks5StepView {
    if cmd == 1 {
        Socks5StepView::Connect { host, port }
    } else if cmd == 3 {
        Socks5StepView::Associate { host, port }
    } else {
        Socks5StepView::Refuse {
            reply: reply_bytes(7, unspecified()),
            error: Socks5Error::UnsupportedCommand(cmd),
        }
    }
}

proof fn lemma_port_run(cmd: u8, host: HostView, port: u16, rest: Seq<u8>)
    ensures
        run_of(Socks5View::Port { cmd, host }, be::bytes(port as nat, 2) + rest) == Some(
            (Seq::<u8>::empty(), decision(cmd, host, port), rest),
        ),
{
    let raw = be::bytes(port as nat, 2);
    be::lemma_pow256_values();
    be::lemma_be_round_trip(port as nat, 2);
    assert((raw + rest).take(2) == raw);
    assert((raw + rest).skip(2) == rest);
}

proof fn lemma_request_run(cmd: u8, host: HostView, port: u16, rest: Seq<u8>)
    requires
        host matches HostView::Name(name) ==> encode_utf8(name).len() <= 255,
    ensures
        run_of(
            Socks5View::Request,
            seq![5u8, cmd, 0u8] + target_bytes(host, port) + rest,
        ) == Some((Seq::<u8>::empty(), decision(cmd, host, port), rest)),
{
    reveal_with_fuel(run_of, 4);
    let s = seq![5u8, cmd, 0u8] + target_bytes(host, port) + rest;
    let tail = be::bytes(port as nat, 2) + rest;
    lemma_port_run(cmd, host, port, rest);
    let nothing = Seq::<u8>::empty();
    assert(nothing + nothing == nothing);
    match host {
        HostView::Ip(ip) => {
            addr::lemma_octets_round_trip(ip);
            let octets = ip.spec_octets();
            let v4 = ip is V4;
            let n = octets.len() as int;
            let after = s.skip(4);
            assert(after == octets + tail);
            assert(after.take(n) == octets);
            assert(after.skip(n) == tail);
            assert(next_of(Socks5View::Request, s.take(4)) == go_on(Socks5View::Address { cmd, v4 }));
        },
        HostView::Name(name) => {
            let raw = encode_utf8(name);
            let len = raw.len() as u8;
            encode_utf8_valid_utf8(name);
            encode_utf8_decode_utf8(name);
            let after = s.skip(4);
            assert(after == seq![len] + raw + tail);
            assert(after.take(1)[0] == len);
            let then = after.skip(1);
            assert(then == raw + tail);
            assert(then.take(len as int) == raw);
            assert(then.skip(len as int) == tail);
            assert(next_of(Socks5View::Request, s.take(4)) == go_on(
                Socks5View::DomainLength { cmd },
            ));
        },
    }
}

/// A client that offers to go without authentication gets the destination and
/// the command that it names, whatever it sends afterwards, and none of that is
/// read.
pub proof fn lemma_handshake(
    methods: Seq<u8>,
    cmd: u8,
    host: HostView,
    port: u16,
    rest: Seq<u8>,
)
    requires
        methods.len() <= 255,
        methods.contains(0u8),
        host matches HostView::Name(name) ==> encode_utf8(name).len() <= 255,
    ensures
        run_of(Socks5View::Greeting, client_bytes(methods, cmd, host, port) + rest) == Some(
            (seq![5u8, 0u8], decision(cmd, host, port), rest),
        ),
{
    reveal_with_fuel(run_of, 3);
    let s = client_bytes(methods, cmd, host, port) + rest;
    let request = seq![5u8, cmd, 0u8] + target_bytes(host, port) + rest;
    let n = methods.len() as int;
    lemma_request_run(cmd, host, port, rest);
    let after = s.skip(2);
    assert(after == methods + request);
    assert(after.take(n) == methods);
    assert(after.skip(n) == request);
    let nothing = Seq::<u8>::empty();
    assert(seq![5u8, 0u8] + nothing == seq![5u8, 0u8]);
    assert(nothing + seq![5u8, 0u8] == seq![5u8, 0u8]);
}

/// A client that insists on authentication is turned away after its methods.
pub proof fn lemma_no_method(methods: Seq<u8>, rest: Seq<u8>)
    requires
        methods.len() <= 255,
        !methods.contains(0u8),
    ensures
        run_of(Socks5View::Greeting, seq![5u8, methods.len() as u8] + methods + rest) == Some(
            (
                Seq::<u8>::empty(),
                Socks5StepView::Refuse {
                    reply: seq![5u8, 0xffu8],
                    error: Socks5Error::NoAcceptableMethod,
                },
                rest,
            ),
        ),
{
    reveal_with_fuel(run_of, 3);
    let s = seq![5u8, methods.len() as u8] + methods + rest;
    let n = methods.len() as int;
    let after = s.skip(2);
    assert(after.take(n) == methods);
    assert(after.skip(n) == rest);
    let nothing = Seq::<u8>::empty();
    assert(nothing + nothing == nothing);
}

/// The replies, byte by byte: 5, the code, a zero, 1 or 4 for the family, the
/// octets, and the port with its higher byte first.
pub proof fn lemma_reply_layout(rep: u8, n4: u32, n6: u128, port: u16)
    ensures
        reply_bytes(rep, SocketAddr { ip: IpAddr::V4(n4), port }) == seq![5u8, rep, 0, 1]
            + be::bytes(n4 as nat, 4) + seq![(port / 256) as u8, (port % 256) as u8],
        reply_bytes(rep, SocketAddr { ip: IpAddr::V6(n6), port }) == seq![5u8, rep, 0, 4]
            + be::bytes(n6 as nat, 16) + seq![(port / 256) as u8, (port % 256) as u8],
        reply_bytes(rep, unspecified()) == seq![5u8, rep, 0, 1, 0, 0, 0, 0, 0, 0],
{
    be::lemma_be_two(port as nat);
    be::lemma_be_two(0);
    be::lemma_be_four(0);
}

/// What a SOCKS5 client sends is told as SOCKS5 from its first byte on, however
/// many methods it offers.
pub proof fn lemma_told(
    methods: Seq<u8>,
    cmd: u8,
    host: HostView,
    port: u16,
    rest: Seq<u8>,
    k: int,
)
    requires
        1 <= k <= (client_bytes(methods, cmd, host, port) + rest).len(),
    ensures
        server::protocol_of((client_bytes(methods, cmd, host, port) + rest).take(k)) == Some(
            server::Protocol::Socks5,
        ),
{
    let s = client_bytes(methods, cmd, host, port) + rest;
    assert(s[0] == 5);
    server::lemma_first_byte(s.take(k));
}

/// A client that offers to go without authentication, among any other methods and
/// in any place, is told 5 and 0; with the command 1 it is connected to what it
/// names, with 3 it gets a relay, and with any other it is refused with code 7.
pub proof fn lemma_commands(
    methods: Seq<u8>,
    cmd: u8,
    host: HostView,
    port: u16,
    rest: Seq<u8>,
)
    requires
        methods.len() <= 255,
        methods.contains(0u8),
        host matches HostView::Name(name) ==> encode_utf8(name).len() <= 255,
    ensures
        run_of(Socks5View::Greeting, client_bytes(methods, cmd, host, port) + rest) matches Some(
            (sent, last, left),
        ) && {
            &&& sent == seq![5u8, 0u8]
            &&& left == rest
            &&& cmd == 1 ==> last == (Socks5StepView::Connect { host, port })
            &&& cmd == 3 ==> last == (Socks5StepView::Associate { host, port })
            &&& cmd != 1 && cmd != 3 ==> (last matches Socks5StepView::Refuse { reply, .. }
                && reply == seq![5u8, 7, 0, 1, 0, 0, 0, 0, 0, 0])
        },
{
    lemma_handshake(methods, cmd, host, port, rest);
    lemma_reply_layout(7, 0, 0, 0);
}

/// What a destination is on the wire, byte by byte: 1 and four octets, 4 and
/// sixteen octets, or 3, a length and that many bytes; then the port with its
/// higher byte first.
pub proof fn lemma_target_layout(n4: u32, n6: u128, name: Seq<char>, port: u16)
    ensures
        target_bytes(HostView::Ip(IpAddr::V4(n4)), port) == seq![1u8] + be::bytes(n4 as nat, 4)
            + seq![(port / 256) as u8, (port % 256) as u8],
        target_bytes(HostView::Ip(IpAddr::V6(n6)), port) == seq![4u8] + be::bytes(n6 as nat, 16)
            + seq![(port / 256) as u8, (port % 256) as u8],
        target_bytes(HostView::Name(name), port) == seq![3u8, encode_utf8(name).len() as u8]
            + encode_utf8(name) + seq![(port / 256) as u8, (port % 256) as u8],
{
    be::lemma_be_two(port as nat);
}

/// A client of another version is given up without a reply, before and after its
/// methods; an address type that is none of 1, 3 and 4, and a name that is not
/// well-formed, are refused with code 8.
pub proof fn lemma_refusals(data: Seq<u8>, cmd: u8, len: u8)
    ensures
        ({
            let unsupported = seq![5u8, 8, 0, 1, 0, 0, 0, 0, 0, 0];
            &&& data.len() == 2 && data[0] != 5 ==> next_of(Socks5View::Greeting, data) == (
            Socks5StepView::Refuse { reply: Seq::empty(), error: Socks5Error::InvalidVersion })
            &&& data.len() == 4 && data[0] != 5 ==> next_of(Socks5View::Request, data) == (
            Socks5StepView::Refuse {
                reply: Seq::empty(),
                error: Socks5Error::InvalidRequestVersion,
            })
            &&& data.len() == 4 && data[0] == 5 && data[3] != 1 && data[3] != 3 && data[3] != 4
                ==> next_of(Socks5View::Request, data) == (Socks5StepView::Refuse {
                reply: unsupported,
                error: Socks5Error::UnsupportedAddressType(data[3]),
            })
            &&& !valid_utf8(data) ==> next_of(Socks5View::Domain { cmd, len }, data) == (
            Socks5StepView::Refuse { reply: unsupported, error: Socks5Error::InvalidDomain })
        }),
{
    lemma_reply_layout(8, 0, 0, 0);
}

/// The way through a handshake, step by step: nothing but the version, the
/// command and the address type of a request plays a part, and nothing is sent
/// but the choice of a method.
pub proof fn lemma_steps(data: Seq<u8>, cmd: u8, len: u8, name: Seq<char>, v4: bool)
    ensures
        ({
            let silent = Seq::<u8>::empty();
            &&& data.len() == 2 && data[0] == 5 ==> next_of(Socks5View::Greeting, data) == (
            Socks5StepView::Continue { reply: silent, state: Socks5View::Methods(data[1]) })
            &&& data.contains(0u8) ==> next_of(Socks5View::Methods(len), data) == (
            Socks5StepView::Continue { reply: seq![5u8, 0u8], state: Socks5View::Request })
            &&& !data.contains(0u8) ==> next_of(Socks5View::Methods(len), data) == (
            Socks5StepView::Refuse {
                reply: seq![5u8, 255u8],
                error: Socks5Error::NoAcceptableMethod,
            })
            &&& data.len() == 4 && data[0] == 5 && data[3] == 1 ==> next_of(
                Socks5View::Request,
                data,
            ) == (Socks5StepView::Continue {
                reply: silent,
                state: Socks5View::Address { cmd: data[1], v4: true },
            })
            &&& data.len() == 4 && data[0] == 5 && data[3] == 4 ==> next_of(
                Socks5View::Request,
                data,
            ) == (Socks5StepView::Continue {
                reply: silent,
                state: Socks5View::Address { cmd: data[1], v4: false },
            })
            &&& data.len() == 4 && data[0] == 5 && data[3] == 3 ==> next_of(
                Socks5View::Request,
                data,
            ) == (Socks5StepView::Continue {
                reply: silent,
                state: Socks5View::DomainLength { cmd: data[1] },
            })
            &&& data.len() == 4 ==> next_of(Socks5View::Address { cmd, v4 }, data) == (
            Socks5StepView::Continue {
                reply: silent,
                state: Socks5View::Port {
                    cmd,
                    host: HostView::Ip(IpAddr::V4(be::value(data) as u32)),
                },
            })
            &&& data.len() == 16 ==> next_of(Socks5View::Address { cmd, v4 }, data) == (
            Socks5StepView::Continue {
                reply: silent,
                state: Socks5View::Port {
                    cmd,
                    host: HostView::Ip(IpAddr::V6(be::value(data) as u128)),
                },
            })
            &&& next_of(Socks5View::DomainLength { cmd }, seq![len]) == (Socks5StepView::Continue {
                reply: silent,
                state: Socks5View::Domain { cmd, len },
            })
            &&& next_of(Socks5View::Domain { cmd, len }, encode_utf8(name)) == (
            Socks5StepView::Continue {
                reply: silent,
                state: Socks5View::Port { cmd, host: HostView::Name(name) },
            })
        }),
{
    encode_utf8_decode_utf8(name);
    encode_utf8_valid_utf8(name);
}

/// The port is two bytes, the higher first; then the command decides: 1 connects,
/// 3 relays, and every other is refused with code 7.
pub proof fn lemma_decision(cmd: u8, host: HostView, high: u8, low: u8)
    ensures
        ({
            let got = next_of(Socks5View::Port { cmd, host }, seq![high, low]);
            let port = (high * 256 + low) as u16;
            &&& cmd == 1 ==> got == (Socks5StepView::Connect { host, port })
            &&& cmd == 3 ==> got == (Socks5StepView::Associate { host, port })
            &&& cmd != 1 && cmd != 3 ==> got == (Socks5StepView::Refuse {
                reply: seq![5u8, 7, 0, 1, 0, 0, 0, 0, 0, 0],
                error: Socks5Error::UnsupportedCommand(cmd),
            })
        }),
{
    be::lemma_be_weights(high, low, 0, 0);
    lemma_reply_layout(7, 0, 0, 0);
}

/// How many bytes are read at each step.
pub proof fn lemma_lengths(n: u8, cmd: u8, host: HostView)
    ensures
        Socks5View::Greeting.needs() == 2,
        Socks5View::Methods(n).needs() == n,
        Socks5View::Request.needs() == 4,
        (Socks5View::Address { cmd, v4: true }).needs() == 4,
        (Socks5View::Address { cmd, v4: false }).needs() == 16,
        (Socks5View::DomainLength { cmd }).needs() == 1,
        (Socks5View::Domain { cmd, len: n }).needs() == n,
        (Socks5View::Port { cmd, host }).needs() == 2,
{
}

/// A client that breaks off is told code 8 while it names its destination, and
/// nothing before that.
pub proof fn lemma_broken_off(n: u8, cmd: u8, v4: bool, host: HostView)
    ensures
        Socks5View::Greeting.last_words().len() == 0,
        Socks5View::Methods(n).last_words().len() == 0,
        Socks5View::Request.last_words().len() == 0,
        (Socks5View::Address { cmd, v4 }).last_words() == seq![5u8, 8, 0, 1, 0, 0, 0, 0, 0, 0],
        (Socks5View::DomainLength { cmd }).last_words() == seq![5u8, 8, 0, 1, 0, 0, 0, 0, 0, 0],
        (Socks5View::Domain { cmd, len: n }).last_words() == seq![5u8, 8, 0, 1, 0, 0, 0, 0, 0, 0],
        (Socks5View::Port { cmd, host }).last_words() == seq![5u8, 8, 0, 1, 0, 0, 0, 0, 0, 0],
{
    lemma_reply_layout(8, 0, 0, 0);
}

} // verus!
