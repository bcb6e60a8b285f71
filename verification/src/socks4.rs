//! The SOCKS4 and SOCKS4a handshake as a state machine.
use vstd::prelude::*;
use vstd::slice::slice_subrange;
use vstd::utf8::*;
use crate::addr;
use crate::addr::IpAddr;
use crate::be;
use crate::server;
use crate::server::{Host, HostView, SOCKS4_FIELD_MAX_LEN};
use crate::text;

verus! {

/// The reply code for a request that is granted.
pub const GRANTED: u8 = 0x5a;

/// The reply code for a request that is refused.
pub const REFUSED: u8 = 0x5b;

/// A reply: a zero byte, the code, and six bytes that clients ignore.
pub open spec fn reply_bytes(status: u8) -> Seq<u8> {
    seq![0u8, status, 0u8, 0u8, 0u8, 0u8, 0u8, 0u8]
}

/// Builds a reply.
pub fn reply(status: u8) -> (r: Vec<u8>)
    ensures
        r@ == reply_bytes(status),
{
    let out: Vec<u8> = vec![0u8, status, 0u8, 0u8, 0u8, 0u8, 0u8, 0u8];
    assert(out@ == reply_bytes(status));
    out
}

/// Where a handshake stands.
#[derive(Debug)]
pub enum Socks4 {
    /// Before version, command, port and address (8 bytes).
    Head,
    /// In the user ID, of which `seen` bytes have come.
    UserId { port: u16, ip: IpAddr, domain: bool, seen: usize },
    /// In the domain, of which `name` has come.
    Domain { port: u16, name: Vec<u8> },
}

/// What a [`Socks4`] denotes.
#[verifier::ext_equal]
pub enum Socks4View {
    Head,
    UserId { port: u16, ip: IpAddr, domain: bool, seen: nat },
    Domain { port: u16, name: Seq<u8> },
}

impl View for Socks4 {
    type V = Socks4View;

    open spec fn view(&self) -> Socks4View {
        match self {
            Socks4::Head => Socks4View::Head,
            Socks4::UserId { port, ip, domain, seen } => Socks4View::UserId {
                port: *port,
                ip: *ip,
                domain: *domain,
                seen: *seen as nat,
            },
            Socks4::Domain { port, name } => Socks4View::Domain { port: *port, name: name@ },
        }
    }
}

/// Why a handshake is refused.
#[derive(Debug, Clone, Copy, PartialEq, Eq, Structural)]
pub enum Socks4Error {
    InvalidVersion,
    UnsupportedCommand(u8),
    UserIdTooLong,
    DomainTooLong,
    InvalidDomain,
}

/// What the bytes that a state waited for lead to.
#[derive(Debug)]
pub enum Socks4Step {
    Continue { state: Socks4 },
    /// Open a TCP connection.
    Connect { host: Host, port: u16 },
    /// Send `reply` and give up.
    Refuse { reply: Vec<u8>, error: Socks4Error },
}

/// What a [`Socks4Step`] denotes.
#[verifier::ext_equal]
pub enum Socks4StepView {
    Continue { state: Socks4View },
    Connect { host: HostView, port: u16 },
    Refuse { reply: Seq<u8>, error: Socks4Error },
}

impl View for Socks4Step {
    type V = Socks4StepView;

    open spec fn view(&self) -> Socks4StepView {
        match self {
            Socks4Step::Continue { state } => Socks4StepView::Continue { state: state@ },
            Socks4Step::Connect { host, port } => Socks4StepView::Connect {
                host: host@,
                port: *port,
            },
            Socks4Step::Refuse { reply, error } => Socks4StepView::Refuse {
                reply: reply@,
                error: *error,
            },
        }
    }
}

impl Socks4View {
    /// How many bytes the state waits for.
    pub open spec fn needs(self) -> nat {
        if self is Head {
            8
        } else {
            1
        }
    }

    /// Whether a text field is still within its limit.
    pub open spec fn wf(self) -> bool {
        match self {
            Socks4View::Head => true,
            Socks4View::UserId { seen, .. } => seen < SOCKS4_FIELD_MAX_LEN,
            Socks4View::Domain { name, .. } => name.len() < SOCKS4_FIELD_MAX_LEN,
        }
    }
}

/// Gives up without a reply.
pub open spec fn give_up(error: Socks4Error) -> Socks4StepView {
    Socks4StepView::Refuse { reply: Seq::empty(), error }
}

/// Whether an address announces a domain: `0.0.0.x` with `x` not zero.
pub open spec fn announces_domain(ip: IpAddr) -> bool {
    ip matches IpAddr::V4(n) && 1 <= n <= 255
}

/// What the bytes `data` lead to in `state`.
pub open spec fn next_of(state: Socks4View, data: Seq<u8>) -> Socks4StepView {
    match state {
        Socks4View::Head => if data[0] != 4 {
            give_up(Socks4Error::InvalidVersion)
        } else if data[1] != 1 {
            Socks4StepView::Refuse {
                reply: reply_bytes(REFUSED),
                error: Socks4Error::UnsupportedCommand(data[1]),
            }
        } else {
            let ip = IpAddr::from_octets_spec(data.subrange(4, 8));
            Socks4StepView::Continue {
                state: Socks4View::UserId {
                    port: be::value(data.subrange(2, 4)) as u16,
                    ip,
                    domain: announces_domain(ip),
                    seen: 0,
                },
            }
        },
        Socks4View::UserId { port, ip, domain, seen } => if data[0] != 0 {
            if seen + 1 >= SOCKS4_FIELD_MAX_LEN {
                give_up(Socks4Error::UserIdTooLong)
            } else {
                Socks4StepView::Continue {
                    state: Socks4View::UserId { port, ip, domain, seen: seen + 1 },
                }
            }
        } else if domain {
            Socks4StepView::Continue { state: Socks4View::Domain { port, name: Seq::empty() } }
        } else {
            Socks4StepView::Connect { host: HostView::Ip(ip), port }
        },
        Socks4View::Domain { port, name } => if data[0] != 0 {
            if name.len() + 1 >= SOCKS4_FIELD_MAX_LEN {
                give_up(Socks4Error::DomainTooLong)
            } else {
                Socks4StepView::Continue {
                    state: Socks4View::Domain { port, name: name.push(data[0]) },
                }
            }
        } else if valid_utf8(name) {
            Socks4StepView::Connect { host: HostView::Name(decode_utf8(name)), port }
        } else {
            give_up(Socks4Error::InvalidDomain)
        },
    }
}

fn refuse_silently(error: Socks4Error) -> (r: Socks4Step)
    ensures
        r@ == give_up(error),
{
    let reply: Vec<u8> = Vec::new();
    assert(reply@ == Seq::<u8>::empty());
    Socks4Step::Refuse { reply, error }
}

impl Socks4 {
    /// How many bytes the state waits for.
    pub fn needs(&self) -> (r: usize)
        ensures
            r == self@.needs(),
    {
        match self {
            Socks4::Head => 8,
            _ => 1,
        }
    }

    /// Takes the bytes that the state waits for.
    pub fn next(self, data: &[u8]) -> (r: Socks4Step)
        requires
            self@.wf(),
            data@.len() == self@.needs(),
        ensures
            r@ == next_of(self@, data@),
            r@ matches Socks4StepView::Continue { state } ==> state.wf(),
    {
        match self {
            Socks4::Head => {
                if data[0] != 4 {
                    return refuse_silently(Socks4Error::InvalidVersion);
                }
                if data[1] != 1 {
                    return Socks4Step::Refuse {
                        reply: reply(REFUSED),
                        error: Socks4Error::UnsupportedCommand(data[1]),
                    };
                }
                let port: u16 = server::read_port(slice_subrange(data, 2, 4));
                let ip = IpAddr::from_octets(slice_subrange(data, 4, 8));
                let domain = match ip {
                    IpAddr::V4(n) => 1 <= n && n <= 255,
                    IpAddr::V6(_) => false,
                };
                Socks4Step::Continue { state: Socks4::UserId { port, ip, domain, seen: 0 } }
            },
            Socks4::UserId { port, ip, domain, seen } => {
                if data[0] != 0 {
                    if seen + 1 >= SOCKS4_FIELD_MAX_LEN {
                        return refuse_silently(Socks4Error::UserIdTooLong);
                    }
                    Socks4Step::Continue {
                        state: Socks4::UserId { port, ip, domain, seen: seen + 1 },
                    }
                } else if domain {
                    let name: Vec<u8> = Vec::new();
                    assert(name@ == Seq::<u8>::empty());
                    Socks4Step::Continue { state: Socks4::Domain { port, name } }
                } else {
                    Socks4Step::Connect { host: Host::Ip(ip), port }
                }
            },
            Socks4::Domain { port, name } => {
                if data[0] != 0 {
                    if name.len() + 1 >= SOCKS4_FIELD_MAX_LEN {
                        return refuse_silently(Socks4Error::DomainTooLong);
                    }
                    let mut name = name;
                    name.push(data[0]);
                    Socks4Step::Continue { state: Socks4::Domain { port, name } }
                } else {
                    match text::string_from_utf8(name) {
                        Some(domain) => Socks4Step::Connect { host: Host::Name(domain), port },
                        None => refuse_silently(Socks4Error::InvalidDomain),
                    }
                }
            },
        }
    }
}

// ---------------------------------------------------------------------------
// Whole handshakes
// ---------------------------------------------------------------------------

/// What a stream of bytes leads to from `state`: the decision and the bytes
/// that were not read. `None` while bytes are missing.
pub open spec fn run_of(state: Socks4View, input: Seq<u8>) -> Option<(Socks4StepView, Seq<u8>)>
    decreases input.len(),
{
    let n = state.needs() as int;
    if input.len() < n {
        None
    } else {
        match next_of(state, input.take(n)) {
            Socks4StepView::Continue { state: then } => run_of(then, input.skip(n)),
            last => Some((last, input.skip(n))),
        }
    }
}

/// What a client sends: a CONNECT request with a user ID.
pub open spec fn client_bytes(ip: IpAddr, port: u16, user: Seq<u8>) -> Seq<u8> {
    seq![4u8, 1u8] + be::bytes(port as nat, 2) + ip.spec_octets() + user.push(0u8)
}

/// Whether a text field can be sent: within the limit and without a zero.
pub open spec fn field(s: Seq<u8>) -> bool {
    s.len() < SOCKS4_FIELD_MAX_LEN && !s.contains(0u8)
}

proof fn lemma_user_run(
    port: u16,
    ip: IpAddr,
    domain: bool,
    seen: nat,
    user: Seq<u8>,
    rest: Seq<u8>,
)
    requires
        seen + user.len() < SOCKS4_FIELD_MAX_LEN,
        !user.contains(0u8),
    ensures
        run_of(Socks4View::UserId { port, ip, domain, seen }, user.push(0u8) + rest) == if domain {
            run_of(Socks4View::Domain { port, name: Seq::empty() }, rest)
        } else {
            Some((Socks4StepView::Connect { host: HostView::Ip(ip), port }, rest))
        },
    decreases user.len(),
{
    let s = user.push(0u8) + rest;
    if user.len() == 0 {
        assert(s.take(1)[0] == 0u8);
        assert(s.skip(1) == rest);
    } else {
        let tail = user.drop_first();
        assert(user.contains(user[0]));
        assert(s.take(1)[0] == user[0]);
        assert(s.skip(1) == tail.push(0u8) + rest);
        assert forall|i: int| 0 <= i < tail.len() implies tail[i] != 0u8 by {
            assert(user.contains(user[i + 1]));
        }
        lemma_user_run(port, ip, domain, seen + 1, tail, rest);
    }
}

proof fn lemma_domain_run(port: u16, name: Seq<u8>, more: Seq<u8>, rest: Seq<u8>)
    requires
        name.len() + more.len() < SOCKS4_FIELD_MAX_LEN,
        !more.contains(0u8),
        valid_utf8(name + more),
    ensures
        run_of(Socks4View::Domain { port, name }, more.push(0u8) + rest) == Some(
            (
                Socks4StepView::Connect { host: HostView::Name(decode_utf8(name + more)), port },
                rest,
            ),
        ),
    decreases more.len(),
{
    let s = more.push(0u8) + rest;
    if more.len() == 0 {
        assert(s.take(1)[0] == 0u8);
        assert(s.skip(1) == rest);
        assert(name + more == name);
    } else {
        let tail = more.drop_first();
        assert(more.contains(more[0]));
        assert(s.take(1)[0] == more[0]);
        assert(s.skip(1) == tail.push(0u8) + rest);
        assert(name.push(more[0]) + tail == name + more);
        assert forall|i: int| 0 <= i < tail.len() implies tail[i] != 0u8 by {
            assert(more.contains(more[i + 1]));
        }
        lemma_domain_run(port, name.push(more[0]), tail, rest);
    }
}

proof fn lemma_head_run(ip: IpAddr, port: u16, user: Seq<u8>, after: Seq<u8>)
    requires
        ip is V4,
    ensures
        run_of(Socks4View::Head, client_bytes(ip, port, user) + after) == run_of(
            Socks4View::UserId { port, ip, domain: announces_domain(ip), seen: 0 },
            user.push(0u8) + after,
        ),
{
    let s = client_bytes(ip, port, user) + after;
    addr::lemma_octets_round_trip(ip);
    be::lemma_pow256_values();
    be::lemma_be_round_trip(port as nat, 2);
    let head = s.take(8);
    assert(head.subrange(2, 4) == be::bytes(port as nat, 2));
    assert(head.subrange(4, 8) == ip.spec_octets());
    assert(s.skip(8) == user.push(0u8) + after);
}

/// A SOCKS4 client gets the address and port that it names, whatever its user
/// ID is, and nothing that it sends afterwards is read.
pub proof fn lemma_handshake(ip: IpAddr, port: u16, user: Seq<u8>, rest: Seq<u8>)
    requires
        ip is V4,
        !announces_domain(ip),
        field(user),
    ensures
        run_of(Socks4View::Head, client_bytes(ip, port, user) + rest) == Some(
            (Socks4StepView::Connect { host: HostView::Ip(ip), port }, rest),
        ),
{
    lemma_head_run(ip, port, user, rest);
    lemma_user_run(port, ip, false, 0, user, rest);
}

/// A SOCKS4a client gets the domain and port that it names.
pub proof fn lemma_domain_handshake(
    ip: IpAddr,
    port: u16,
    user: Seq<u8>,
    name: Seq<char>,
    rest: Seq<u8>,
)
    requires
        announces_domain(ip),
        field(user),
        field(encode_utf8(name)),
    ensures
        run_of(
            Socks4View::Head,
            client_bytes(ip, port, user) + (encode_utf8(name).push(0u8) + rest),
        ) == Some((Socks4StepView::Connect { host: HostView::Name(name), port }, rest)),
{
    let raw = encode_utf8(name);
    let after = raw.push(0u8) + rest;
    let nothing = Seq::<u8>::empty();
    encode_utf8_valid_utf8(name);
    encode_utf8_decode_utf8(name);
    assert(nothing + raw == raw);
    lemma_head_run(ip, port, user, after);
    lemma_user_run(port, ip, true, 0, user, after);
    lemma_domain_run(port, nothing, raw, rest);
}

/// The replies, byte by byte: 90 grants and 91 refuses, between a zero and six
/// zeros.
pub proof fn lemma_replies(status: u8)
    ensures
        reply_bytes(status).len() == 8,
        reply_bytes(status)[1] == status,
        forall|i: int| 0 <= i < 8 && i != 1 ==> reply_bytes(status)[i] == 0,
        GRANTED == 90,
        REFUSED == 91,
{
}

/// Exactly the addresses `0.0.0.1` to `0.0.0.255` announce a domain.
pub proof fn lemma_announcements(n: u32, m: u128)
    ensures
        announces_domain(IpAddr::V4(n)) <==> 0 < n < 256,
        !announces_domain(IpAddr::V6(m)),
{
}

/// What a SOCKS4 client sends is told as SOCKS4 from its first byte on.
pub proof fn lemma_told(ip: IpAddr, port: u16, user: Seq<u8>, rest: Seq<u8>, k: int)
    requires
        1 <= k <= (client_bytes(ip, port, user) + rest).len(),
    ensures
        server::protocol_of((client_bytes(ip, port, user) + rest).take(k)) == Some(
            server::Protocol::Socks4,
        ),
{
    let s = client_bytes(ip, port, user) + rest;
    assert(s[0] == 4);
    server::lemma_first_byte(s.take(k));
}

/// What a SOCKS4 request is on the wire: 4, 1, the port with its higher byte
/// first, the four octets, the user ID and a zero. It is served whatever the
/// octets are, unless they announce a domain.
pub proof fn lemma_wire(
    high: u8,
    low: u8,
    a: u8,
    b: u8,
    c: u8,
    d: u8,
    user: Seq<u8>,
    rest: Seq<u8>,
)
    requires
        a != 0 || b != 0 || c != 0 || d == 0,
        user.len() <= 1023,
        !user.contains(0u8),
    ensures
        run_of(
            Socks4View::Head,
            seq![4u8, 1, high, low, a, b, c, d] + user + seq![0u8] + rest,
        ) == Some(
            (
                Socks4StepView::Connect {
                    host: HostView::Ip(
                        IpAddr::V4((a * 0x100_0000 + b * 0x1_0000 + c * 0x100 + d) as u32),
                    ),
                    port: (high * 256 + low) as u16,
                },
                rest,
            ),
        ),
{
    let n = (a * 0x100_0000 + b * 0x1_0000 + c * 0x100 + d) as u32;
    let port = (high * 256 + low) as u16;
    let ip = IpAddr::V4(n);
    be::lemma_be_weights(a, b, c, d);
    be::lemma_be_weights(high, low, 0, 0);
    be::lemma_be_value_round_trip(seq![a, b, c, d]);
    be::lemma_be_value_round_trip(seq![high, low]);
    assert(client_bytes(ip, port, user) + rest == seq![4u8, 1, high, low, a, b, c, d] + user + seq![
        0u8,
    ] + rest);
    lemma_handshake(ip, port, user, rest);
}

/// A client of another version gets no reply, a command other than CONNECT is
/// refused with 91, and every CONNECT goes on, whatever its port and address are.
pub proof fn lemma_refusals(data: Seq<u8>)
    requires
        data.len() == 8,
    ensures
        data[0] != 4 ==> next_of(Socks4View::Head, data) == (Socks4StepView::Refuse {
            reply: Seq::empty(),
            error: Socks4Error::InvalidVersion,
        }),
        data[0] == 4 && data[1] != 1 ==> next_of(Socks4View::Head, data) == (
        Socks4StepView::Refuse {
            reply: seq![0u8, 91, 0, 0, 0, 0, 0, 0],
            error: Socks4Error::UnsupportedCommand(data[1]),
        }),
        data[0] == 4 && data[1] == 1 ==> {
            let port = (data[2] * 256 + data[3]) as u16;
            let n = (data[4] * 0x100_0000 + data[5] * 0x1_0000 + data[6] * 0x100 + data[7]) as u32;
            next_of(Socks4View::Head, data) == (Socks4StepView::Continue {
                state: Socks4View::UserId { port, ip: IpAddr::V4(n), domain: 0 < n < 256, seen: 0 },
            })
        },
{
    be::lemma_be_weights(data[2], data[3], 0, 0);
    be::lemma_be_weights(data[4], data[5], data[6], data[7]);
    assert(data.subrange(2, 4) == seq![data[2], data[3]]);
    assert(data.subrange(4, 8) == seq![data[4], data[5], data[6], data[7]]);
}

/// A zero ends a field: behind the user ID comes the domain where one was
/// announced, and the connection otherwise; behind the domain comes the
/// connection to it.
pub proof fn lemma_field_ends(port: u16, ip: IpAddr, seen: nat, name: Seq<char>)
    ensures
        next_of(Socks4View::UserId { port, ip, domain: true, seen }, seq![0u8]) == (
        Socks4StepView::Continue { state: Socks4View::Domain { port, name: Seq::empty() } }),
        next_of(Socks4View::UserId { port, ip, domain: false, seen }, seq![0u8]) == (
        Socks4StepView::Connect { host: HostView::Ip(ip), port }),
        next_of(Socks4View::Domain { port, name: encode_utf8(name) }, seq![0u8]) == (
        Socks4StepView::Connect { host: HostView::Name(name), port }),
{
    encode_utf8_decode_utf8(name);
    encode_utf8_valid_utf8(name);
}

/// A field of 1024 bytes or more is given up, without a reply, before it ends.
pub proof fn lemma_field_limit(port: u16, ip: IpAddr, domain: bool, byte: u8, name: Seq<u8>)
    requires
        byte != 0,
        name.len() == 1023,
    ensures
        next_of(Socks4View::UserId { port, ip, domain, seen: 1023 }, seq![byte]) == give_up(
            Socks4Error::UserIdTooLong,
        ),
        next_of(Socks4View::Domain { port, name }, seq![byte]) == give_up(
            Socks4Error::DomainTooLong,
        ),
        forall|seen: nat|
            seen < 1023 ==> #[trigger] next_of(
                Socks4View::UserId { port, ip, domain, seen },
                seq![byte],
            ) is Continue,
        forall|k: int|
            0 <= k < 1023 ==> next_of(
                Socks4View::Domain { port, name: #[trigger] name.take(k) },
                seq![byte],
            ) is Continue,
        forall|error: Socks4Error|
            #[trigger] give_up(error) == (Socks4StepView::Refuse { reply: Seq::empty(), error }),
{
}

/// A domain that is not well-formed is given up without a reply.
pub proof fn lemma_bad_domain(port: u16, name: Seq<u8>)
    requires
        !valid_utf8(name),
    ensures
        next_of(Socks4View::Domain { port, name }, seq![0u8]) == (Socks4StepView::Refuse {
            reply: Seq::empty(),
            error: Socks4Error::InvalidDomain,
        }),
{
}

/// How many bytes are read at each step: the head at once, then byte by byte.
pub proof fn lemma_lengths(port: u16, ip: IpAddr, domain: bool, seen: nat, name: Seq<u8>)
    ensures
        Socks4View::Head.needs() == 8,
        (Socks4View::UserId { port, ip, domain, seen }).needs() == 1,
        (Socks4View::Domain { port, name }).needs() == 1,
{
}

} // verus!
