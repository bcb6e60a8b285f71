//! The HTTP/3 side: which tunnel a request asks for, whether it gets it, and
//! what is relayed.
use bytes::Bytes;
use vstd::prelude::*;
use vstd::string::StrSliceExecFns;
use vstd::utf8::*;
use crate::addr;
use crate::addr::{IpAddr, SocketAddr};
use crate::auth;
use crate::capsule;
use crate::config::{AppConfig, ConfigError};
use crate::ext;
use crate::ext::Protocol;
use crate::http_connect;
use crate::pem;
use crate::pem::{PemError, PrivateKey};
use crate::server;
use crate::server::{AuthorityError, Host, HostView};
use crate::text;
use crate::tun;
use crate::tun::{IpPool, PoolError};
use crate::wire;

verus! {

// ---------------------------------------------------------------------------
// Requests and replies
// ---------------------------------------------------------------------------

/// The status codes that are sent.
#[derive(Debug, Clone, Copy, PartialEq, Eq, Structural)]
pub enum StatusCode {
    Success,
    BadRequest,
    Forbidden,
    MethodNotAllowed,
    ProxyAuthenticationRequired,
    InternalServerError,
    NotImplemented,
    BadGateway,
    ServiceUnavailable,
}

impl StatusCode {
    /// The number on the wire.
    pub open spec fn number(self) -> u16 {
        match self {
            StatusCode::Success => 200,
            StatusCode::BadRequest => 400,
            StatusCode::Forbidden => 403,
            StatusCode::MethodNotAllowed => 405,
            StatusCode::ProxyAuthenticationRequired => 407,
            StatusCode::InternalServerError => 500,
            StatusCode::NotImplemented => 501,
            StatusCode::BadGateway => 502,
            StatusCode::ServiceUnavailable => 503,
        }
    }

    /// The number on the wire.
    pub fn as_u16(&self) -> (r: u16)
        ensures
            r == self.number(),
    {
        match self {
            StatusCode::Success => 200,
            StatusCode::BadRequest => 400,
            StatusCode::Forbidden => 403,
            StatusCode::MethodNotAllowed => 405,
            StatusCode::ProxyAuthenticationRequired => 407,
            StatusCode::InternalServerError => 500,
            StatusCode::NotImplemented => 501,
            StatusCode::BadGateway => 502,
            StatusCode::ServiceUnavailable => 503,
        }
    }
}

/// A reply to a request, with an empty body.
#[derive(Debug, Clone, Copy, PartialEq, Eq, Structural)]
pub struct Reply {
    pub status: StatusCode,
    /// Whether `capsule-protocol: ?1` is sent along.
    pub capsule_protocol: bool,
    /// Whether `proxy-authenticate: Bearer` is sent along.
    pub proxy_authenticate: bool,
}

/// The reply that only reports a status. The one that asks for authentication
/// says how.
pub open spec fn status_reply(status: StatusCode) -> Reply {
    Reply {
        status,
        capsule_protocol: false,
        proxy_authenticate: status == StatusCode::ProxyAuthenticationRequired,
    }
}

/// The reply that opens a tunnel.
pub open spec fn tunnel_reply(capsules: bool) -> Reply {
    Reply { status: StatusCode::Success, capsule_protocol: capsules, proxy_authenticate: false }
}

/// Builds the reply that only reports a status.
pub fn send_status(status: StatusCode) -> (r: Reply)
    ensures
        r == status_reply(status),
{
    Reply {
        status,
        capsule_protocol: false,
        proxy_authenticate: status == StatusCode::ProxyAuthenticationRequired,
    }
}

/// A request, as far as it is looked at.
#[derive(Debug, Clone)]
pub struct ConnectRequest {
    pub method: String,
    /// The `:protocol` of an extended CONNECT.
    pub protocol: Option<Protocol>,
    pub path: String,
    pub authority: Option<String>,
    /// The value of the `capsule-protocol` header.
    pub capsule_protocol: Option<Vec<u8>>,
    /// The value of the `proxy-authorization` header.
    pub proxy_authorization: Option<Vec<u8>>,
}

/// The `:protocol` of CONNECT-IP.
pub const CONNECT_IP: &'static str = "connect-ip";

/// The `:protocol` of a WebSocket.
pub const WEBSOCKET: &'static str = "websocket";

/// The value of `capsule-protocol` that says yes.
pub open spec fn capsule_yes() -> Seq<u8> {
    // "?1"
    seq![63u8, 49u8]
}

impl ConnectRequest {
    pub open spec fn is_connect(self) -> bool {
        self.method@ == http_connect::CONNECT@
    }

    /// The token of the `:protocol`, if there is one.
    pub open spec fn token(self) -> Option<Seq<char>> {
        match self.protocol {
            Some(p) => Some(p.token()),
            None => None,
        }
    }

    pub open spec fn is_connect_udp(self) -> bool {
        self.protocol matches Some(Protocol::ConnectUdp)
    }

    pub open spec fn speaks_capsules(self) -> bool {
        self.capsule_protocol matches Some(v) && v@ == capsule_yes()
    }

    pub open spec fn authorized(self, token: Option<Seq<char>>) -> bool {
        auth::authorized(
            match self.proxy_authorization {
                Some(v) => Some(v@),
                None => None,
            },
            token,
        )
    }

    /// The authority; empty where there is none.
    pub open spec fn authority_text(self) -> Seq<char> {
        match self.authority {
            Some(a) => a@,
            None => Seq::empty(),
        }
    }

    fn check_connect(&self) -> (r: bool)
        ensures
            r == self.is_connect(),
    {
        text::str_equal(self.method.as_str(), http_connect::CONNECT)
    }

    fn has_token(&self, token: &str) -> (r: bool)
        ensures
            r == (self.token() == Some(token@)),
    {
        match &self.protocol {
            Some(p) => text::str_equal(p.as_str(), token),
            None => false,
        }
    }

    fn check_connect_udp(&self) -> (r: bool)
        ensures
            r == self.is_connect_udp(),
    {
        match &self.protocol {
            Some(Protocol::ConnectUdp) => true,
            _ => false,
        }
    }

    fn check_capsules(&self) -> (r: bool)
        ensures
            r == self.speaks_capsules(),
    {
        match &self.capsule_protocol {
            Some(v) => {
                let yes: [u8; 2] = [63, 49];
                assert(yes@ == capsule_yes());
                text::bytes_equal(v.as_slice(), yes.as_slice())
            },
            None => false,
        }
    }

    fn check_auth(&self, token: Option<&str>) -> (r: bool)
        ensures
            r == self.authorized(auth::text_view(token)),
    {
        match &self.proxy_authorization {
            Some(v) => auth::check_proxy_auth(Some(v.as_slice()), token),
            None => auth::check_proxy_auth(None, token),
        }
    }

    fn parse_authority(&self) -> (r: Result<(Host, u16), AuthorityError>)
        ensures
            server::target_view(r) == server::authority_of(self.authority_text()),
    {
        match &self.authority {
            Some(a) => server::parse_authority(a.as_str()),
            None => {
                proof {
                    reveal_strlit("");
                    assert(""@ == Seq::<char>::empty());
                }
                server::parse_authority("")
            },
        }
    }
}

// ---------------------------------------------------------------------------
// Paths
// ---------------------------------------------------------------------------

/// The fixed start of a CONNECT-UDP path.
pub const MASQUE_UDP_PATH_PREFIX: &'static str = "/.well-known/masque/udp/";

/// The CONNECT-IP path.
pub const MASQUE_IP_PATH: &'static str = "/.well-known/masque/ip";

/// The CONNECT-IP path, with something behind it.
pub const MASQUE_IP_PATH_PREFIX: &'static str = "/.well-known/masque/ip/";

/// Whether a path is the CONNECT-IP path, with or without something behind it.
pub open spec fn is_ip_path(path: Seq<char>) -> bool {
    path == MASQUE_IP_PATH@ || MASQUE_IP_PATH_PREFIX@.is_prefix_of(path)
}

/// Whether a path is the CONNECT-IP path.
pub fn is_connect_ip_path(path: &str) -> (r: bool)
    ensures
        r == is_ip_path(path@),
{
    text::str_equal(path, MASQUE_IP_PATH) || text::strip_prefix(
        path,
        MASQUE_IP_PATH_PREFIX,
    ).is_some()
}

/// No path is both a CONNECT-UDP path and a CONNECT-IP path.
pub proof fn lemma_paths_disjoint(path: Seq<char>)
    ensures
        !(is_ip_path(path) && MASQUE_UDP_PATH_PREFIX@.is_prefix_of(path)),
{
    reveal_strlit("/.well-known/masque/udp/");
    reveal_strlit("/.well-known/masque/ip");
    reveal_strlit("/.well-known/masque/ip/");
    if is_ip_path(path) && MASQUE_UDP_PATH_PREFIX@.is_prefix_of(path) {
        assert(path[20] == MASQUE_UDP_PATH_PREFIX@[20]);
        assert(MASQUE_UDP_PATH_PREFIX@[20] == 'u');
        if path == MASQUE_IP_PATH@ {
            assert(path[20] == 'i');
        } else {
            assert(path[20] == MASQUE_IP_PATH_PREFIX@[20]);
        }
    }
}

/// The value of a hexadecimal digit byte.
pub open spec fn hex_byte(b: u8) -> Option<nat> {
    addr::hex_digit(b as char)
}

/// What percent-decoding makes of some bytes: `%` and two hexadecimal digits
/// become a byte, everything else stays.
pub open spec fn percent_bytes(s: Seq<u8>) -> Seq<u8>
    decreases s.len(),
{
    if s.len() == 0 {
        Seq::empty()
    } else if s[0] == 37 && s.len() >= 3 && hex_byte(s[1]) is Some && hex_byte(s[2]) is Some {
        seq![(hex_byte(s[1]).unwrap() * 16 + hex_byte(s[2]).unwrap()) as u8] + percent_bytes(
            s.skip(3),
        )
    } else {
        seq![s[0]] + percent_bytes(s.skip(1))
    }
}

/// Wraps `percent_encoding::percent_decode_str` with its `decode_utf8`: every
/// `%` with two hexadecimal digits behind it is replaced by that byte, and the
/// result is the text that the bytes encode, if they are well-formed.
#[verifier::external_body]
pub(crate) fn percent_decode(s: &str) -> (r: Option<String>)
    ensures
        match r {
            Some(t) => valid_utf8(percent_bytes(encode_utf8(s@))) && t@ == decode_utf8(
                percent_bytes(encode_utf8(s@)),
            ),
            None => !valid_utf8(percent_bytes(encode_utf8(s@))),
        },
{
    percent_encoding::percent_decode_str(s).decode_utf8().ok().map(|t| t.into_owned())
}

/// The host that a segment of a path denotes: percent-decoded, without its
/// brackets if it has any, and not empty.
pub open spec fn target_host_of(segment: Seq<char>) -> Option<HostView> {
    let raw = percent_bytes(encode_utf8(segment));
    let decoded = decode_utf8(raw);
    if !valid_utf8(raw) || decoded.len() == 0 {
        None
    } else if decoded[0] == '[' {
        if decoded.len() <= 2 || decoded.last() != ']' {
            None
        } else {
            Some(server::host_of(decoded.subrange(1, decoded.len() - 1)))
        }
    } else {
        Some(server::host_of(decoded))
    }
}

/// Reads the host out of a segment of a path.
pub fn parse_target_host(segment: &str) -> (r: Option<Host>)
    ensures
        match target_host_of(segment@) {
            Some(host) => r matches Some(h) && h@ == host,
            None => r is None,
        },
{
    let decoded = percent_decode(segment)?;
    let n: usize = decoded.as_str().unicode_len();
    if n == 0 {
        return None;
    }
    if decoded.as_str().get_char(0) == '[' {
        if n <= 2 || decoded.as_str().get_char(n - 1) != ']' {
            return None;
        }
        Some(server::parse_host(decoded.as_str().substring_char(1, n - 1)))
    } else {
        Some(server::parse_host(decoded.as_str()))
    }
}

/// The destination that a CONNECT-UDP path names: `{host}/{port}` behind the
/// fixed start, with anything behind another slash.
pub open spec fn path_target(path: Seq<char>) -> Option<(HostView, u16)> {
    let rest = path.skip(MASQUE_UDP_PATH_PREFIX@.len() as int);
    let f = text::find_first(rest, '/');
    let host_seg = rest.take(f);
    let after = rest.skip(f + 1);
    let port_seg = after.take(text::find_first(after, '/'));
    if !MASQUE_UDP_PATH_PREFIX@.is_prefix_of(path) || f >= rest.len() || host_seg.len() == 0 {
        None
    } else {
        match (target_host_of(host_seg), server::port_of(port_seg)) {
            (Some(host), Some(port)) => Some((host, port)),
            _ => None,
        }
    }
}

/// Reads the destination out of a CONNECT-UDP path. The authority of the request
/// is the proxy's own and plays no part.
pub fn parse_target(path: &str) -> (r: Option<(Host, u16)>)
    ensures
        match path_target(path@) {
            Some((host, port)) => r matches Some((h, p)) && h@ == host && p == port,
            None => r is None,
        },
{
    let rest = text::strip_prefix(path, MASQUE_UDP_PATH_PREFIX)?;
    let (host_seg, after) = text::split_once(rest, '/')?;
    proof {
        text::lemma_find_first(rest@, '/');
        text::lemma_find_first(after@, '/');
    }
    let port_seg = match text::split_once(after, '/') {
        Some((port, _)) => port,
        None => {
            assert(after@.take(text::find_first(after@, '/')) == after@);
            after
        },
    };
    if host_seg.unicode_len() == 0 || port_seg.unicode_len() == 0 {
        return None;
    }
    let port: u16 = server::parse_port(port_seg)?;
    let host = parse_target_host(host_seg)?;
    Some((host, port))
}

/// Bytes without a percent sign are left alone.
pub proof fn lemma_percent_plain(s: Seq<u8>)
    requires
        !s.contains(37u8),
    ensures
        percent_bytes(s) == s,
    decreases s.len(),
{
    if s.len() > 0 {
        assert(s.contains(s[0]));
        let t = s.skip(1);
        assert forall|i: int| 0 <= i < t.len() implies t[i] != 37u8 by {
            assert(s.contains(s[i + 1]));
        }
        lemma_percent_plain(t);
        assert(seq![s[0]] + t == s);
    }
}

/// The byte of a hexadecimal digit.
pub open spec fn hex_char(n: nat) -> u8 {
    if n < 10 {
        (48 + n) as u8
    } else {
        (55 + n) as u8
    }
}

/// Bytes of which those that `which` picks are percent-encoded.
pub open spec fn escaped(s: Seq<u8>, which: spec_fn(u8) -> bool) -> Seq<u8>
    decreases s.len(),
{
    if s.len() == 0 {
        Seq::empty()
    } else {
        let b = s[0] as nat;
        (if which(s[0]) {
            seq![37u8, hex_char(b / 16), hex_char(b % 16)]
        } else {
            seq![s[0]]
        }) + escaped(s.skip(1), which)
    }
}

/// Whatever is percent-encoded, as long as the percent sign is, comes out again.
pub proof fn lemma_percent_round_trip(s: Seq<u8>, which: spec_fn(u8) -> bool)
    requires
        which(37u8),
    ensures
        percent_bytes(escaped(s, which)) == s,
    decreases s.len(),
{
    if s.len() > 0 {
        let tail = escaped(s.skip(1), which);
        let e = escaped(s, which);
        lemma_percent_round_trip(s.skip(1), which);
        assert(seq![s[0]] + s.skip(1) == s);
        if which(s[0]) {
            let b = s[0] as nat;
            assert(e == seq![37u8, hex_char(b / 16), hex_char(b % 16)] + tail);
            assert(hex_byte(e[1]) == Some(b / 16));
            assert(hex_byte(e[2]) == Some(b % 16));
            assert(e.skip(3) == tail);
            assert((b / 16) * 16 + b % 16 == b);
        } else {
            assert(e == seq![s[0]] + tail);
            assert(e.skip(1) == tail);
        }
    }
}

/// A segment names the same host whether characters of it are percent-encoded or
/// not.
pub proof fn lemma_escaped_host(
    host: Seq<char>,
    segment: Seq<char>,
    which: spec_fn(u8) -> bool,
)
    requires
        host.len() > 0,
        host[0] != '[',
        which(37u8),
        encode_utf8(segment) == escaped(encode_utf8(host), which),
    ensures
        target_host_of(segment) == Some(server::host_of(host)),
{
    encode_utf8_valid_utf8(host);
    encode_utf8_decode_utf8(host);
    lemma_percent_round_trip(encode_utf8(host), which);
}

/// The bytes of a character other than the percent sign hold no percent sign.
proof fn lemma_scalar_plain(v: u32)
    requires
        v != 37,
    ensures
        !encode_scalar(v).contains(37u8),
{
    assert((v <= 0x7f ==> (v & 0x7f) as u8 == v) && 0xc0 | ((v >> 6) & 0x1f) as u8 >= 0x80 && 0xe0
        | ((v >> 12) & 0x0f) as u8 >= 0x80 && 0xf0 | ((v >> 18) & 0x7) as u8 >= 0x80 && 0x80 | (v
        & 0x3f) as u8 >= 0x80 && 0x80 | ((v >> 6) & 0x3f) as u8 >= 0x80 && 0x80 | ((v >> 12)
        & 0x3f) as u8 >= 0x80) by (bit_vector);
}

/// The bytes of a text without a percent sign hold none either.
proof fn lemma_text_plain(s: Seq<char>)
    requires
        !s.contains('%'),
    ensures
        !encode_utf8(s).contains(37u8),
    decreases s.len(),
{
    if s.len() > 0 {
        let t = s.drop_first();
        assert(s.contains(s[0]));
        assert forall|i: int| 0 <= i < t.len() implies t[i] != '%' by {
            assert(s.contains(s[i + 1]));
        }
        lemma_text_plain(t);
        char_u32_cast(s[0], s[0] as u32);
        char_u32_cast('%', '%' as u32);
        lemma_scalar_plain(s[0] as u32);
        let a = encode_scalar(s[0] as u32);
        let b = encode_utf8(t);
        assert forall|i: int| 0 <= i < (a + b).len() implies (a + b)[i] != 37u8 by {
            if i < a.len() {
                assert(a.contains(a[i]));
            } else {
                assert(b.contains(b[i - a.len()]));
            }
        }
    }
}

/// A segment without a percent sign names the host that it spells.
pub proof fn lemma_plain_host(host: Seq<char>)
    requires
        host.len() > 0,
        host[0] != '[',
        !host.contains('%'),
    ensures
        target_host_of(host) == Some(server::host_of(host)),
{
    encode_utf8_valid_utf8(host);
    encode_utf8_decode_utf8(host);
    lemma_text_plain(host);
    lemma_percent_plain(encode_utf8(host));
}

/// A segment that is an address in brackets names that address.
pub proof fn lemma_bracketed_host(literal: Seq<char>, ip: IpAddr)
    requires
        addr::ip_of(literal) == Some(ip),
    ensures
        target_host_of(seq!['['] + literal + seq![']']) == Some(HostView::Ip(ip)),
{
    let s = seq!['['] + literal + seq![']'];
    addr::lemma_literal_chars(literal);
    addr::lemma_literal_not_empty(literal);
    assert forall|i: int| 0 <= i < s.len() implies s[i] != '%' by {
        if 0 < i <= literal.len() {
            assert(addr::literal_char(literal[i - 1]));
        }
    }
    encode_utf8_valid_utf8(s);
    encode_utf8_decode_utf8(s);
    lemma_text_plain(s);
    lemma_percent_plain(encode_utf8(s));
    assert(s.subrange(1, s.len() - 1) == literal);
}

/// The expansion of the path template for a host segment and a port names that
/// host and that port, with or without the last slash.
pub proof fn lemma_path_target(segment: Seq<char>, host: HostView, port: u16)
    requires
        segment.len() > 0,
        !segment.contains('/'),
        target_host_of(segment) == Some(host),
    ensures
        path_target(
            MASQUE_UDP_PATH_PREFIX@ + segment + seq!['/'] + text::decimal_digits(port as nat)
                + seq!['/'],
        ) == Some((host, port)),
        path_target(
            MASQUE_UDP_PATH_PREFIX@ + segment + seq!['/'] + text::decimal_digits(port as nat),
        ) == Some((host, port)),
{
    let digits = text::decimal_digits(port as nat);
    text::lemma_decimal_round_trip(port as nat);
    lemma_path_target_from(segment, host, port, digits, Seq::<char>::empty());
    lemma_path_target_from(segment, host, port, digits, seq!['/']);
    let base = MASQUE_UDP_PATH_PREFIX@ + segment + seq!['/'] + digits;
    assert(base + Seq::<char>::empty() == base);
}

proof fn lemma_leading_part(part: Seq<char>, tail: Seq<char>)
    requires
        forall|i: int| 0 <= i < part.len() ==> #[trigger] part[i] != '/',
        tail.len() == 0 || tail[0] == '/',
    ensures
        text::find_first(part + tail, '/') == part.len(),
        (part + tail).take(part.len() as int) == part,
{
    let s = part + tail;
    assert forall|i: int| 0 <= i < part.len() implies s[i] != '/' by {
        assert(part[i] != '/');
    }
    text::lemma_find_first_unique(s, '/', part.len() as int);
}

proof fn lemma_path_target_from(
    segment: Seq<char>,
    host: HostView,
    port: u16,
    digits: Seq<char>,
    end: Seq<char>,
)
    requires
        segment.len() > 0,
        !segment.contains('/'),
        target_host_of(segment) == Some(host),
        server::port_of(digits) == Some(port),
        text::all_digits(digits),
        end == Seq::<char>::empty() || end == seq!['/'],
    ensures
        path_target(MASQUE_UDP_PATH_PREFIX@ + segment + seq!['/'] + digits + end) == Some(
            (host, port),
        ),
{
    let p = MASQUE_UDP_PATH_PREFIX@;
    let path = p + segment + seq!['/'] + digits + end;
    let after = digits + end;
    let tail = seq!['/'] + after;
    let rest = segment + tail;
    assert(path.skip(p.len() as int) == rest);
    assert(p.is_prefix_of(path));
    assert forall|i: int| 0 <= i < segment.len() implies #[trigger] segment[i] != '/' by {
        assert(segment.contains(segment[i]));
    }
    lemma_leading_part(segment, tail);
    assert(rest.skip(segment.len() as int + 1) == after);
    assert forall|i: int| 0 <= i < digits.len() implies #[trigger] digits[i] != '/' by {
        assert(text::is_digit(digits[i]));
    }
    lemma_leading_part(digits, end);
}

// ---------------------------------------------------------------------------
// Validation
// ---------------------------------------------------------------------------

/// What a request gets that asks for a UDP tunnel.
pub open spec fn udp_verdict(req: ConnectRequest, token: Option<Seq<char>>) -> Result<
    (HostView, u16),
    StatusCode,
> {
    if !req.is_connect() {
        Err(StatusCode::MethodNotAllowed)
    } else if !req.is_connect_udp() {
        Err(StatusCode::NotImplemented)
    } else if !req.speaks_capsules() {
        Err(StatusCode::BadRequest)
    } else if !req.authorized(token) {
        Err(StatusCode::ProxyAuthenticationRequired)
    } else {
        match path_target(req.path@) {
            Some(target) => Ok(target),
            None => Err(StatusCode::BadRequest),
        }
    }
}

/// Validates a CONNECT-UDP request: the destination, or the status to answer.
pub fn validate_connect_udp(req: &ConnectRequest, token: Option<&str>) -> (r: Result<
    (Host, u16),
    StatusCode,
>)
    ensures
        server::target_view(r) == udp_verdict(*req, auth::text_view(token)),
{
    if !req.check_connect() {
        return Err(StatusCode::MethodNotAllowed);
    }
    if !req.check_connect_udp() {
        return Err(StatusCode::NotImplemented);
    }
    if !req.check_capsules() {
        return Err(StatusCode::BadRequest);
    }
    if !req.check_auth(token) {
        return Err(StatusCode::ProxyAuthenticationRequired);
    }
    match parse_target(req.path.as_str()) {
        Some(target) => Ok(target),
        None => Err(StatusCode::BadRequest),
    }
}

/// What a request gets that asks for an IP tunnel.
pub open spec fn ip_verdict(req: ConnectRequest, token: Option<Seq<char>>) -> Result<
    (),
    StatusCode,
> {
    if !req.is_connect() {
        Err(StatusCode::MethodNotAllowed)
    } else if !is_ip_path(req.path@) {
        Err(StatusCode::BadRequest)
    } else if req.is_connect_udp() {
        Err(StatusCode::NotImplemented)
    } else if !req.speaks_capsules() {
        Err(StatusCode::BadRequest)
    } else if !req.authorized(token) {
        Err(StatusCode::ProxyAuthenticationRequired)
    } else {
        Ok(())
    }
}

/// Validates a CONNECT-IP request: nothing, or the status to answer.
pub fn validate_connect_ip(req: &ConnectRequest, token: Option<&str>) -> (r: Result<
    (),
    StatusCode,
>)
    ensures
        r == ip_verdict(*req, auth::text_view(token)),
{
    if !req.check_connect() {
        return Err(StatusCode::MethodNotAllowed);
    }
    if !is_connect_ip_path(req.path.as_str()) {
        return Err(StatusCode::BadRequest);
    }
    if req.check_connect_udp() {
        return Err(StatusCode::NotImplemented);
    }
    if !req.check_capsules() {
        return Err(StatusCode::BadRequest);
    }
    if !req.check_auth(token) {
        return Err(StatusCode::ProxyAuthenticationRequired);
    }
    Ok(())
}

/// What an authorized request for a TCP tunnel gets: the destination that its
/// authority names.
pub open spec fn tcp_target(req: ConnectRequest, token: Option<Seq<char>>) -> Result<
    (HostView, u16),
    StatusCode,
> {
    if !req.authorized(token) {
        Err(StatusCode::ProxyAuthenticationRequired)
    } else {
        match server::authority_of(req.authority_text()) {
            Ok(target) => Ok(target),
            Err(_) => Err(StatusCode::BadRequest),
        }
    }
}

/// What a request gets that asks for a plain TCP tunnel.
pub open spec fn tcp_verdict(req: ConnectRequest, token: Option<Seq<char>>) -> Result<
    (HostView, u16),
    StatusCode,
> {
    if !req.is_connect() {
        Err(StatusCode::MethodNotAllowed)
    } else if req.protocol is Some {
        Err(StatusCode::NotImplemented)
    } else {
        tcp_target(req, token)
    }
}

/// What a request gets that asks for a WebSocket tunnel.
pub open spec fn websocket_verdict(req: ConnectRequest, token: Option<Seq<char>>) -> Result<
    (HostView, u16),
    StatusCode,
> {
    if !req.is_connect() {
        Err(StatusCode::MethodNotAllowed)
    } else if req.token() != Some(WEBSOCKET@) {
        Err(StatusCode::NotImplemented)
    } else {
        tcp_target(req, token)
    }
}

fn authorized_target(req: &ConnectRequest, token: Option<&str>) -> (r: Result<
    (Host, u16),
    StatusCode,
>)
    ensures
        server::target_view(r) == tcp_target(*req, auth::text_view(token)),
{
    if !req.check_auth(token) {
        return Err(StatusCode::ProxyAuthenticationRequired);
    }
    match req.parse_authority() {
        Ok(target) => Ok(target),
        Err(_) => Err(StatusCode::BadRequest),
    }
}

/// Validates a plain TCP CONNECT request: the destination, or the status to
/// answer.
pub fn validate_tcp_connect(req: &ConnectRequest, token: Option<&str>) -> (r: Result<
    (Host, u16),
    StatusCode,
>)
    ensures
        server::target_view(r) == tcp_verdict(*req, auth::text_view(token)),
{
    if !req.check_connect() {
        return Err(StatusCode::MethodNotAllowed);
    }
    if req.protocol.is_some() {
        return Err(StatusCode::NotImplemented);
    }
    authorized_target(req, token)
}

/// Validates a WebSocket CONNECT request: the destination, or the status to
/// answer.
pub fn validate_websocket_connect(req: &ConnectRequest, token: Option<&str>) -> (r: Result<
    (Host, u16),
    StatusCode,
>)
    ensures
        server::target_view(r) == websocket_verdict(*req, auth::text_view(token)),
{
    if !req.check_connect() {
        return Err(StatusCode::MethodNotAllowed);
    }
    if !req.has_token(WEBSOCKET) {
        return Err(StatusCode::NotImplemented);
    }
    authorized_target(req, token)
}

// ---------------------------------------------------------------------------
// Dispatch
// ---------------------------------------------------------------------------

/// The tunnel that serves a request, or the status that refuses it.
#[derive(Debug, Clone, Copy, PartialEq, Eq, Structural)]
pub enum Dispatch {
    Udp,
    Ip,
    WebSocket,
    Tcp,
    Refuse(StatusCode),
}

/// Where a request goes: by its method, then by its `:protocol`; without one,
/// by its path.
pub open spec fn dispatch_of(req: ConnectRequest) -> Dispatch {
    if !req.is_connect() {
        Dispatch::Refuse(StatusCode::MethodNotAllowed)
    } else if req.is_connect_udp() {
        Dispatch::Udp
    } else if req.token() == Some(CONNECT_IP@) || (req.protocol is None && is_ip_path(req.path@)) {
        Dispatch::Ip
    } else if req.token() == Some(WEBSOCKET@) {
        Dispatch::WebSocket
    } else if req.protocol is None {
        Dispatch::Tcp
    } else {
        Dispatch::Refuse(StatusCode::NotImplemented)
    }
}

/// Decides which tunnel serves a request.
pub fn dispatch(req: &ConnectRequest) -> (r: Dispatch)
    ensures
        r == dispatch_of(*req),
{
    if !req.check_connect() {
        Dispatch::Refuse(StatusCode::MethodNotAllowed)
    } else if req.check_connect_udp() {
        Dispatch::Udp
    } else if req.has_token(CONNECT_IP) || (req.protocol.is_none() && is_connect_ip_path(
        req.path.as_str(),
    )) {
        Dispatch::Ip
    } else if req.has_token(WEBSOCKET) {
        Dispatch::WebSocket
    } else if req.protocol.is_none() {
        Dispatch::Tcp
    } else {
        Dispatch::Refuse(StatusCode::NotImplemented)
    }
}

/// No tunnel is opened without the token: whichever tunnel a request goes to,
/// it is refused there unless it is authorized.
pub proof fn lemma_always_authenticated(req: ConnectRequest, token: Option<Seq<char>>)
    requires
        !req.authorized(token),
    ensures
        udp_verdict(req, token) is Err,
        ip_verdict(req, token) is Err,
        tcp_verdict(req, token) is Err,
        websocket_verdict(req, token) is Err,
{
}

/// Without a configured token nobody is authorized.
pub proof fn lemma_no_token_no_tunnel(req: ConnectRequest)
    ensures
        !req.authorized(None),
{
}

/// A request that lacks nothing but authorization is asked to authenticate.
pub proof fn lemma_asked_to_authenticate(req: ConnectRequest, token: Option<Seq<char>>)
    requires
        req.is_connect(),
        !req.authorized(token),
    ensures
        dispatch_of(req) == Dispatch::Udp && req.speaks_capsules() ==> udp_verdict(req, token)
            == Err::<(HostView, u16), StatusCode>(StatusCode::ProxyAuthenticationRequired),
        dispatch_of(req) == Dispatch::Ip && req.speaks_capsules() && is_ip_path(req.path@)
            ==> ip_verdict(req, token) == Err::<(), StatusCode>(
            StatusCode::ProxyAuthenticationRequired,
        ),
        dispatch_of(req) == Dispatch::Tcp ==> tcp_verdict(req, token) == Err::<
            (HostView, u16),
            StatusCode,
        >(StatusCode::ProxyAuthenticationRequired),
        dispatch_of(req) == Dispatch::WebSocket ==> websocket_verdict(req, token) == Err::<
            (HostView, u16),
            StatusCode,
        >(StatusCode::ProxyAuthenticationRequired),
        status_reply(StatusCode::ProxyAuthenticationRequired).proxy_authenticate,
{
}

/// A request with a `:protocol` never gets the plain TCP tunnel, and one with a
/// `:protocol` that is not tunnelled is answered with 501.
pub proof fn lemma_protocol_never_plain(req: ConnectRequest)
    requires
        req.is_connect(),
        req.protocol is Some,
    ensures
        dispatch_of(req) != Dispatch::Tcp,
        req.protocol matches Some(Protocol::WebTransport) ==> dispatch_of(req) == Dispatch::Refuse(
            StatusCode::NotImplemented,
        ),
{
    ext::lemma_named_tokens();
    reveal_strlit("webtransport");
    reveal_strlit("connect-ip");
    reveal_strlit("websocket");
    assert(ext::WEB_TRANSPORT@.len() == 12);
    assert(CONNECT_IP@.len() == 10);
    assert(WEBSOCKET@.len() == 9);
}

// ---------------------------------------------------------------------------
// UDP payloads
// ---------------------------------------------------------------------------

/// The capsule type of a UDP payload.
pub const CAPSULE_DATAGRAM: u64 = 0x00;

/// The room that is left in a QUIC datagram for what the transport adds.
pub const DATAGRAM_OVERHEAD: usize = 8;

/// Wraps a UDP payload in a capsule.
pub fn encode_capsule(payload: &[u8]) -> (r: Bytes)
    requires
        wire::fits(capsule::capsule_bytes(CAPSULE_DATAGRAM, payload@).len()),
    ensures
        wire::held(r) == capsule::capsule_bytes(CAPSULE_DATAGRAM, payload@),
{
    capsule::encode_capsule(CAPSULE_DATAGRAM, payload)
}

/// The UDP payload that a datagram carries.
pub open spec fn payload_of(datagram: Seq<u8>) -> Option<Seq<u8>> {
    match capsule::capsule_at(datagram) {
        Some((typ, value, _)) => if typ == CAPSULE_DATAGRAM {
            Some(value)
        } else {
            None
        },
        None => None,
    }
}

/// Unwraps a UDP payload. `None` for another type or a truncated capsule.
pub fn decode_capsule(datagram: &[u8]) -> (r: Option<Bytes>)
    ensures
        match payload_of(datagram@) {
            Some(payload) => r matches Some(b) && wire::held(b) == payload,
            None => r is None,
        },
{
    let (typ, value) = capsule::decode_capsule(datagram)?;
    if typ == CAPSULE_DATAGRAM {
        Some(value)
    } else {
        None
    }
}

/// A payload that is wrapped comes out as it went in.
pub proof fn lemma_payload_round_trip(payload: Seq<u8>)
    requires
        payload.len() < capsule::VARINT_LIMIT,
    ensures
        payload_of(capsule::capsule_bytes(CAPSULE_DATAGRAM, payload)) == Some(payload),
{
    let s = capsule::capsule_bytes(CAPSULE_DATAGRAM, payload);
    capsule::lemma_capsule_round_trip(CAPSULE_DATAGRAM, payload, Seq::empty());
    assert(s + Seq::<u8>::empty() == s);
}

/// Whether a datagram of this length can be sent, given the largest that the
/// connection takes now.
pub open spec fn sendable(len: nat, max_datagram: Option<usize>) -> bool {
    max_datagram matches Some(max) && len + DATAGRAM_OVERHEAD <= max
}

/// Whether a datagram of this length can be sent.
pub fn fits_datagram(len: usize, max_datagram: Option<usize>) -> (r: bool)
    ensures
        r == sendable(len as nat, max_datagram),
{
    match max_datagram {
        Some(max) => max >= DATAGRAM_OVERHEAD && len <= max - DATAGRAM_OVERHEAD,
        None => false,
    }
}

// ---------------------------------------------------------------------------
// The server
// ---------------------------------------------------------------------------

/// The protocol that is negotiated in the TLS handshake.
pub const ALPN: &'static str = "h3";

/// How many bytes of early data the TLS handshake accepts.
pub const MAX_EARLY_DATA: u32 = 0xffff_ffff;

/// The size of the datagram buffers of a connection, in either direction.
pub const DATAGRAM_BUFFER: usize = 65536;

/// The HTTP/3 server.
#[derive(Debug)]
pub struct MasqueServer {
    pub config: AppConfig,
}

/// What the HTTP/3 server needs to start.
#[derive(Debug)]
pub struct MasqueSetup {
    pub listen: SocketAddr,
    pub chain: Vec<Vec<u8>>,
    pub key: PrivateKey,
    pub pool: IpPool,
}

/// Why the HTTP/3 server cannot start.
#[derive(Debug, Clone, Copy, PartialEq, Eq, Structural)]
pub enum SetupError {
    Pem(PemError),
    Pool(PoolError),
}

/// Where the HTTP/3 server listens: the UDP port on the IP address of the TCP
/// listener.
pub open spec fn quic_address(config: AppConfig) -> SocketAddr {
    SocketAddr { ip: config.listen.ip, port: config.udp_port }
}

/// Why the HTTP/3 server cannot start, if so: the certificates come first, then
/// the key, then the pool.
pub open spec fn setup_error(config: AppConfig, cert_pem: Seq<u8>, key_pem: Seq<u8>) -> Option<
    SetupError,
> {
    if pem::certificates(cert_pem) is None {
        Some(SetupError::Pem(PemError::InvalidCertificates))
    } else {
        match pem::first_key(key_pem) {
            None => Some(SetupError::Pem(PemError::InvalidKey)),
            Some(None) => Some(SetupError::Pem(PemError::NoKey)),
            Some(Some(_)) => match tun::cidr(config.ip_pool@) {
                None => Some(SetupError::Pool(PoolError::InvalidCidr)),
                Some((v4, _, p)) => if !v4 && p > 64 {
                    Some(SetupError::Pool(PoolError::PrefixTooLong(p)))
                } else {
                    None
                },
            },
        }
    }
}

impl MasqueServer {
    /// A server for a configuration, which has to name the key, the certificate
    /// chain and the token.
    pub fn new(config: AppConfig) -> (r: Result<MasqueServer, ConfigError>)
        ensures
            if config.has_h3_material() {
                r matches Ok(s) && s.config == config
            } else {
                r matches Err(e) && e == ConfigError::MissingH3Material
            },
    {
        if config.key.is_none() || config.cert_chain.is_none() || config.auth_token.is_none() {
            return Err(ConfigError::MissingH3Material);
        }
        Ok(MasqueServer { config })
    }

    /// What the server runs with, given the contents of the certificate file and
    /// of the key file. A pool that cannot be used is refused here, before the
    /// first client.
    pub fn run(&self, cert_pem: &[u8], key_pem: &[u8]) -> (r: Result<MasqueSetup, SetupError>)
        ensures
            match setup_error(self.config, cert_pem@, key_pem@) {
                Some(error) => r matches Err(e) && e == error,
                None => {
                    &&& r matches Ok(s)
                    &&& s.listen == quic_address(self.config)
                    &&& pem::certificates(cert_pem@) == Some(pem::byte_views(s.chain@))
                    &&& pem::first_key(key_pem@) matches Some(Some((number, der)))
                    &&& s.key.format == pem::format_of(number) && s.key.der@ == der
                    &&& tun::cidr(self.config.ip_pool@) matches Some((v4, a, p))
                    &&& s.pool@ == tun::pool_of(v4, a, p) && s.pool@.wf()
                },
            },
    {
        let chain = match pem::load_certs(cert_pem) {
            Ok(chain) => chain,
            Err(e) => return Err(SetupError::Pem(e)),
        };
        let key = match pem::load_key(key_pem) {
            Ok(key) => key,
            Err(e) => return Err(SetupError::Pem(e)),
        };
        let pool = match IpPool::new(self.config.ip_pool.as_str()) {
            Ok(pool) => pool,
            Err(e) => return Err(SetupError::Pool(e)),
        };
        let listen = SocketAddr { ip: self.config.listen.ip, port: self.config.udp_port };
        Ok(MasqueSetup { listen, chain, key, pool })
    }
}

// ---------------------------------------------------------------------------
// Laws of requests
// ---------------------------------------------------------------------------

/// The numbers of the statuses, as HTTP has them: a client that sees one knows
/// which it is.
pub proof fn lemma_status_numbers(a: StatusCode, b: StatusCode)
    ensures
        a.number() == 200 <==> a is Success,
        a.number() == 400 <==> a is BadRequest,
        a.number() == 403 <==> a is Forbidden,
        a.number() == 405 <==> a is MethodNotAllowed,
        a.number() == 407 <==> a is ProxyAuthenticationRequired,
        a.number() == 500 <==> a is InternalServerError,
        a.number() == 501 <==> a is NotImplemented,
        a.number() == 502 <==> a is BadGateway,
        a.number() == 503 <==> a is ServiceUnavailable,
        a.number() == b.number() ==> a == b,
{
}

/// A reply that refuses carries its status and no capsules, and asks for
/// authentication exactly with 407; one that opens a tunnel carries 200 and
/// announces capsules exactly when they are spoken.
pub proof fn lemma_replies(status: StatusCode, capsules: bool)
    ensures
        status_reply(status).status == status,
        !status_reply(status).capsule_protocol,
        status_reply(status).proxy_authenticate <==> status.number() == 407,
        tunnel_reply(capsules).status.number() == 200,
        tunnel_reply(capsules).capsule_protocol == capsules,
        !tunnel_reply(capsules).proxy_authenticate,
{
}

/// Every CONNECT request without a `:protocol` goes to the plain TCP tunnel,
/// whatever its path is, unless that is the CONNECT-IP path or stands below it:
/// then it goes to the IP tunnel. Nothing else in the request plays a part.
pub proof fn lemma_dispatch_plain(req: ConnectRequest)
    requires
        req.method@ == "CONNECT"@,
        req.protocol is None,
    ensures
        req.path@ == "/.well-known/masque/ip"@ ==> dispatch_of(req) == Dispatch::Ip,
        "/.well-known/masque/ip/"@.is_prefix_of(req.path@) ==> dispatch_of(req) == Dispatch::Ip,
        req.path@ != "/.well-known/masque/ip"@ && !"/.well-known/masque/ip/"@.is_prefix_of(
            req.path@,
        ) ==> dispatch_of(req) == Dispatch::Tcp,
        req.path@.len() == 0 ==> dispatch_of(req) == Dispatch::Tcp,
{
    reveal_strlit("/.well-known/masque/ip");
    reveal_strlit("/.well-known/masque/ip/");
}

/// A CONNECT request with a `:protocol` goes where that token says, whatever its
/// path is: `connect-udp`, `connect-ip` and `websocket` each have their tunnel,
/// and everything else is answered with 501.
pub proof fn lemma_dispatch_protocol(req: ConnectRequest, protocol: Protocol)
    requires
        req.method@ == "CONNECT"@,
        req.protocol == Some(protocol),
        protocol.wf(),
    ensures
        dispatch_of(req) == Dispatch::Udp <==> protocol.token() == "connect-udp"@,
        dispatch_of(req) == Dispatch::Ip <==> protocol.token() == "connect-ip"@,
        dispatch_of(req) == Dispatch::WebSocket <==> protocol.token() == "websocket"@,
        dispatch_of(req) != Dispatch::Tcp,
        dispatch_of(req) matches Dispatch::Refuse(status) ==> status.number() == 501,
{
    reveal_strlit("connect-udp");
    reveal_strlit("webtransport");
    reveal_strlit("connect-ip");
    reveal_strlit("websocket");
    assert("connect-udp"@.len() == 11);
    assert("webtransport"@.len() == 12);
    assert("connect-ip"@.len() == 10);
    assert("websocket"@.len() == 9);
}

/// A request with another method than CONNECT is answered with 405, and no
/// CONNECT request is.
pub proof fn lemma_dispatch_method(req: ConnectRequest)
    ensures
        req.method@ != "CONNECT"@ <==> (dispatch_of(req) matches Dispatch::Refuse(status)
            && status.number() == 405),
{
}

/// The tunnel that a request is dispatched to depends on its method, its
/// `:protocol` and its path alone.
pub proof fn lemma_dispatch_same(a: ConnectRequest, b: ConnectRequest)
    requires
        a.method@ == b.method@,
        a.protocol == b.protocol,
        a.path@ == b.path@,
    ensures
        dispatch_of(a) == dispatch_of(b),
{
}

/// Whether a request carries the token of this server, as a bearer token.
pub open spec fn carries(req: ConnectRequest, token: Seq<char>) -> bool {
    &&& auth::plain_token(token)
    &&& req.proxy_authorization matches Some(v) && v@ == auth::ascii_bytes("Bearer "@ + token)
}

/// Every well-formed CONNECT-UDP request that carries the token gets the host and
/// the port that the path template was filled in with, whatever its authority is.
pub proof fn lemma_udp_served(
    req: ConnectRequest,
    token: Seq<char>,
    segment: Seq<char>,
    host: HostView,
    port: u16,
)
    requires
        req.method@ == "CONNECT"@,
        req.protocol matches Some(p) && p is ConnectUdp,
        req.capsule_protocol matches Some(v) && v@ == seq![63u8, 49u8],
        carries(req, token),
        segment.len() > 0,
        !segment.contains('/'),
        target_host_of(segment) == Some(host),
        req.path@ == "/.well-known/masque/udp/"@ + segment + seq!['/'] + text::decimal_digits(
            port as nat,
        ) + seq!['/'] || req.path@ == "/.well-known/masque/udp/"@ + segment + seq!['/']
            + text::decimal_digits(port as nat),
    ensures
        udp_verdict(req, Some(token)) == Ok::<(HostView, u16), StatusCode>((host, port)),
{
    auth::lemma_bearer_accepted(token);
    lemma_path_target(segment, host, port);
}

/// Every way in which a CONNECT-UDP request can be wrong has its own answer: 405
/// for another method, 501 for another protocol, 400 without capsules, 407
/// without the token, 400 for a path that is not below the fixed start.
pub proof fn lemma_udp_refused(req: ConnectRequest, token: Option<Seq<char>>)
    ensures
        req.method@ != "CONNECT"@ ==> (udp_verdict(req, token) matches Err(s) && s.number() == 405),
        req.method@ == "CONNECT"@ && !(req.protocol matches Some(Protocol::ConnectUdp)) ==> (
        udp_verdict(req, token) matches Err(s) && s.number() == 501),
        req.method@ == "CONNECT"@ && (req.protocol matches Some(Protocol::ConnectUdp)) ==> {
            let capsules = req.capsule_protocol matches Some(v) && v@ == seq![63u8, 49u8];
            &&& !capsules ==> (udp_verdict(req, token) matches Err(s) && s.number() == 400)
            &&& capsules && !req.authorized(token) ==> (udp_verdict(req, token) matches Err(s)
                && s.number() == 407)
            &&& capsules && req.authorized(token) && !"/.well-known/masque/udp/"@.is_prefix_of(
                req.path@,
            ) ==> (udp_verdict(req, token) matches Err(s) && s.number() == 400)
        },
{
}

/// A CONNECT-UDP path that stops before the port names nothing: a port is never
/// made up.
pub proof fn lemma_path_needs_port(segment: Seq<char>)
    requires
        !segment.contains('/'),
    ensures
        path_target("/.well-known/masque/udp/"@ + segment) is None,
        path_target("/.well-known/masque/udp/"@ + segment + seq!['/']) is None,
{
    let p = "/.well-known/masque/udp/"@;
    let one = p + segment;
    let two = p + segment + seq!['/'];
    let nothing = Seq::<char>::empty();
    assert forall|i: int| 0 <= i < segment.len() implies #[trigger] segment[i] != '/' by {
        assert(segment.contains(segment[i]));
    }
    assert(one.skip(p.len() as int) == segment + nothing);
    lemma_leading_part(segment, nothing);
    assert(segment + nothing == segment);
    assert(two.skip(p.len() as int) == segment + seq!['/']);
    lemma_leading_part(segment, seq!['/']);
    let after = (segment + seq!['/']).skip(segment.len() as int + 1);
    assert(after == nothing);
    assert(text::find_first(after, '/') == 0);
    assert(after.take(0) == nothing);
    assert(server::port_of(nothing) is None);
}

/// A port above 65535 in a CONNECT-UDP path names nothing.
pub proof fn lemma_path_port_bound(segment: Seq<char>, n: nat)
    requires
        segment.len() > 0,
        !segment.contains('/'),
        n > 65535,
    ensures
        path_target(
            "/.well-known/masque/udp/"@ + segment + seq!['/'] + text::decimal_digits(n),
        ) is None,
{
    let p = "/.well-known/masque/udp/"@;
    let digits = text::decimal_digits(n);
    let path = p + segment + seq!['/'] + digits;
    let nothing = Seq::<char>::empty();
    text::lemma_decimal_round_trip(n);
    assert forall|i: int| 0 <= i < segment.len() implies #[trigger] segment[i] != '/' by {
        assert(segment.contains(segment[i]));
    }
    assert forall|i: int| 0 <= i < digits.len() implies #[trigger] digits[i] != '/' by {
        assert(text::is_digit(digits[i]));
    }
    let tail = seq!['/'] + digits;
    assert(path.skip(p.len() as int) == segment + tail);
    lemma_leading_part(segment, tail);
    assert((segment + tail).skip(segment.len() as int + 1) == digits);
    lemma_leading_part(digits, nothing);
    assert(digits + nothing == digits);
}

/// Every well-formed CONNECT-IP request that carries the token is served, with
/// the path or anything below it, and with or without its `:protocol`.
pub proof fn lemma_ip_served(req: ConnectRequest, token: Seq<char>)
    requires
        req.method@ == "CONNECT"@,
        !(req.protocol matches Some(Protocol::ConnectUdp)),
        req.capsule_protocol matches Some(v) && v@ == seq![63u8, 49u8],
        carries(req, token),
        req.path@ == "/.well-known/masque/ip"@ || "/.well-known/masque/ip/"@.is_prefix_of(req.path@),
    ensures
        ip_verdict(req, Some(token)) == Ok::<(), StatusCode>(()),
{
    auth::lemma_bearer_accepted(token);
}

/// Every way in which a CONNECT-IP request can be wrong has its own answer: 405
/// for another method, 400 for another path, 501 for `connect-udp`, 400 without
/// capsules, 407 without the token.
pub proof fn lemma_ip_refused(req: ConnectRequest, token: Option<Seq<char>>)
    ensures
        req.method@ != "CONNECT"@ ==> (ip_verdict(req, token) matches Err(s) && s.number() == 405),
        req.method@ == "CONNECT"@ ==> {
            let path = req.path@ == "/.well-known/masque/ip"@
                || "/.well-known/masque/ip/"@.is_prefix_of(req.path@);
            let udp = req.protocol matches Some(Protocol::ConnectUdp);
            let capsules = req.capsule_protocol matches Some(v) && v@ == seq![63u8, 49u8];
            &&& !path ==> (ip_verdict(req, token) matches Err(s) && s.number() == 400)
            &&& path && udp ==> (ip_verdict(req, token) matches Err(s) && s.number() == 501)
            &&& path && !udp && !capsules ==> (ip_verdict(req, token) matches Err(s) && s.number()
                == 400)
            &&& path && !udp && capsules && !req.authorized(token) ==> (ip_verdict(
                req,
                token,
            ) matches Err(s) && s.number() == 407)
        },
{
}

/// Every plain CONNECT request, and every WebSocket request, that carries the
/// token and names a host and a port in its authority gets that host and port,
/// whatever its path is.
pub proof fn lemma_tcp_served(req: ConnectRequest, token: Seq<char>, host: Seq<char>, port: u16)
    requires
        req.method@ == "CONNECT"@,
        carries(req, token),
        host.len() == 0 || host[0] != '[',
        req.authority matches Some(a) && a@ == host.push(':') + text::decimal_digits(port as nat),
    ensures
        req.protocol is None ==> tcp_verdict(req, Some(token)) == Ok::<(HostView, u16), StatusCode>(
            (server::host_of(host), port),
        ),
        (req.protocol matches Some(p) && p.token() == "websocket"@) ==> websocket_verdict(
            req,
            Some(token),
        ) == Ok::<(HostView, u16), StatusCode>((server::host_of(host), port)),
{
    auth::lemma_bearer_accepted(token);
    server::lemma_authority_round_trip(host, port);
}

/// Every way in which a TCP request can be wrong has its own answer: 405 for
/// another method, 501 for another protocol, 407 without the token, and 400
/// without a usable authority.
pub proof fn lemma_tcp_refused(req: ConnectRequest, token: Option<Seq<char>>)
    ensures
        req.method@ != "CONNECT"@ ==> (tcp_verdict(req, token) matches Err(s) && s.number() == 405)
            && (websocket_verdict(req, token) matches Err(s) && s.number() == 405),
        req.method@ == "CONNECT"@ ==> {
            let plain = req.protocol is None;
            let websocket = req.protocol matches Some(p) && p.token() == "websocket"@;
            let authority = req.authority matches Some(a) && server::authority_of(a@) is Ok;
            &&& !plain ==> (tcp_verdict(req, token) matches Err(s) && s.number() == 501)
            &&& !websocket ==> (websocket_verdict(req, token) matches Err(s) && s.number() == 501)
            &&& plain && !req.authorized(token) ==> (tcp_verdict(req, token) matches Err(s)
                && s.number() == 407)
            &&& websocket && !req.authorized(token) ==> (websocket_verdict(req, token) matches Err(
                s,
            ) && s.number() == 407)
            &&& plain && req.authorized(token) && !authority ==> (tcp_verdict(
                req,
                token,
            ) matches Err(s) && s.number() == 400)
            &&& websocket && req.authorized(token) && !authority ==> (websocket_verdict(
                req,
                token,
            ) matches Err(s) && s.number() == 400)
        },
{
    assert(server::authority_of(Seq::empty()) is Err);
}

/// A datagram is sent exactly when it leaves eight bytes of the largest that the
/// connection takes; where datagrams are not taken at all, none is sent.
pub proof fn lemma_sendable(len: nat, max: usize)
    ensures
        sendable(len, Some(max)) <==> len + 8 <= max,
        !sendable(len, None),
{
}

/// A datagram whose capsule is of another type than zero, or is not complete,
/// carries no UDP payload.
pub proof fn lemma_other_capsule(typ: u64, value: Seq<u8>, rest: Seq<u8>)
    requires
        0 < typ < capsule::VARINT_LIMIT,
        value.len() < capsule::VARINT_LIMIT,
    ensures
        payload_of(capsule::capsule_bytes(typ, value) + rest) is None,
{
    capsule::lemma_capsule_round_trip(typ, value, rest);
}

/// A short UDP payload travels behind two bytes: type zero and its length.
pub proof fn lemma_short_payload(payload: Seq<u8>)
    requires
        payload.len() < 64,
    ensures
        payload_of(seq![0u8, payload.len() as u8] + payload) == Some(payload),
{
    capsule::lemma_short_capsule(0, payload);
    lemma_payload_round_trip(payload);
}

/// The two servers are reached at one IP address, each at its own port.
pub proof fn lemma_one_address(config: AppConfig)
    ensures
        quic_address(config).ip == config.listen.ip,
        quic_address(config).port == config.udp_port,
{
}

/// A server with usable certificates and key starts with every IPv4 pool and with
/// every IPv6 pool of at least one client's block; what is wrong is reported in
/// the order certificates, key, pool.
pub proof fn lemma_setup(config: AppConfig, cert_pem: Seq<u8>, key_pem: Seq<u8>)
    ensures
        pem::certificates(cert_pem) is None ==> setup_error(config, cert_pem, key_pem) == Some(
            SetupError::Pem(PemError::InvalidCertificates),
        ),
        pem::certificates(cert_pem) is Some ==> {
            &&& pem::first_key(key_pem) is None ==> setup_error(config, cert_pem, key_pem) == Some(
                SetupError::Pem(PemError::InvalidKey),
            )
            &&& pem::first_key(key_pem) == Some(None::<(u8, Seq<u8>)>) ==> setup_error(
                config,
                cert_pem,
                key_pem,
            ) == Some(SetupError::Pem(PemError::NoKey))
            &&& pem::first_key(key_pem) matches Some(Some(_)) ==> {
                &&& tun::cidr(config.ip_pool@) is None ==> setup_error(config, cert_pem, key_pem)
                    == Some(SetupError::Pool(PoolError::InvalidCidr))
                &&& tun::cidr(config.ip_pool@) matches Some((v4, _, p)) ==> (setup_error(
                    config,
                    cert_pem,
                    key_pem,
                ) is None <==> v4 || p <= 64)
            }
        },
{
}

/// A percent sign with two hexadecimal digits behind it is the byte that they
/// spell; one without them stands for itself.
pub proof fn lemma_percent_signs(a: u8, b: u8, rest: Seq<u8>)
    ensures
        addr::hex_digit(a as char) is Some && addr::hex_digit(b as char) is Some ==> percent_bytes(
            seq![37u8, a, b] + rest,
        ) == seq![
            (addr::hex_digit(a as char).unwrap() * 16 + addr::hex_digit(b as char).unwrap()) as u8,
        ] + percent_bytes(rest),
        addr::hex_digit(a as char) is None || addr::hex_digit(b as char) is None ==> percent_bytes(
            seq![37u8, a, b] + rest,
        ) == seq![37u8] + percent_bytes(seq![a, b] + rest),
        a != 37 ==> percent_bytes(seq![a] + rest) == seq![a] + percent_bytes(rest),
        percent_bytes(seq![37u8]) == seq![37u8],
{
    let s = seq![37u8, a, b] + rest;
    assert(s.skip(3) == rest);
    assert(s.skip(1) == seq![a, b] + rest);
    assert((seq![a] + rest).skip(1) == rest);
    let nothing = Seq::<u8>::empty();
    assert(seq![37u8].skip(1) == nothing);
    assert(percent_bytes(nothing) == nothing);
    assert(seq![37u8] + nothing == seq![37u8]);
}

/// A segment names no host when it is empty, when what it decodes to is not
/// well-formed, and when it opens a bracket without closing it round something.
pub proof fn lemma_no_host(inner: Seq<char>)
    requires
        !inner.contains('%'),
    ensures
        target_host_of(Seq::<char>::empty()) is None,
        target_host_of(seq!['[', ']']) is None,
        inner.len() == 0 || inner.last() != ']' ==> target_host_of(seq!['['] + inner) is None,
        inner.len() > 0 ==> target_host_of(seq!['['] + inner + seq![']']) == Some(
            server::host_of(inner),
        ),
{
    let nothing = Seq::<char>::empty();
    let open = seq!['['] + inner;
    let closed = seq!['['] + inner + seq![']'];
    let none = seq!['[', ']'];
    assert forall|i: int| 0 <= i < closed.len() implies closed[i] != '%' by {
        if 0 < i <= inner.len() {
            assert(inner.contains(inner[i - 1]));
        }
    }
    assert forall|i: int| 0 <= i < open.len() implies open[i] != '%' by {
        if 0 < i {
            assert(inner.contains(inner[i - 1]));
        }
    }
    assert(!closed.contains('%') && !open.contains('%') && !none.contains('%')
        && !nothing.contains('%'));
    lemma_plain_segment(closed);
    lemma_plain_segment(open);
    lemma_plain_segment(none);
    lemma_plain_segment(nothing);
    assert(closed.subrange(1, closed.len() - 1) == inner);
}

/// A segment without a percent sign is decoded to itself.
proof fn lemma_plain_segment(segment: Seq<char>)
    requires
        !segment.contains('%'),
    ensures
        valid_utf8(percent_bytes(encode_utf8(segment))),
        decode_utf8(percent_bytes(encode_utf8(segment))) == segment,
{
    encode_utf8_valid_utf8(segment);
    encode_utf8_decode_utf8(segment);
    lemma_text_plain(segment);
    lemma_percent_plain(encode_utf8(segment));
}

/// An IPv6 pool that is too small is reported with its prefix length.
pub proof fn lemma_small_pool(config: AppConfig, cert_pem: Seq<u8>, key_pem: Seq<u8>, p: u8)
    ensures
        pem::certificates(cert_pem) is Some && (pem::first_key(key_pem) matches Some(Some(_))) && (
        tun::cidr(config.ip_pool@) matches Some((v4, _, q)) && !v4 && q == p) && p > 64
            ==> setup_error(config, cert_pem, key_pem) == Some(
            SetupError::Pool(PoolError::PrefixTooLong(p)),
        ),
{
}

/// What the transport is set up with.
pub proof fn lemma_transport()
    ensures
        ALPN@ == "h3"@,
        MAX_EARLY_DATA == u32::MAX,
        DATAGRAM_BUFFER == 64 * 1024,
{
}

/// An authorized plain CONNECT request, and an authorized WebSocket request, gets
/// exactly the host and the port that its authority denotes, in brackets or not,
/// whatever else it holds.
pub proof fn lemma_authority_decides(
    req: ConnectRequest,
    token: Option<Seq<char>>,
    host: HostView,
    port: u16,
)
    requires
        req.method@ == "CONNECT"@,
        req.authorized(token),
        req.authority matches Some(a) && server::authority_of(a@) == Ok::<
            (HostView, u16),
            server::AuthorityError,
        >((host, port)),
    ensures
        req.protocol is None ==> tcp_verdict(req, token) == Ok::<(HostView, u16), StatusCode>(
            (host, port),
        ),
        (req.protocol matches Some(p) && p.token() == "websocket"@) ==> websocket_verdict(req, token)
            == Ok::<(HostView, u16), StatusCode>((host, port)),
{
}

/// An authorized CONNECT-UDP request that speaks capsules gets exactly the host and
/// the port that its path denotes; its authority plays no part.
pub proof fn lemma_path_decides(
    req: ConnectRequest,
    other: ConnectRequest,
    token: Option<Seq<char>>,
)
    requires
        req.method@ == "CONNECT"@,
        req.protocol matches Some(Protocol::ConnectUdp),
        req.capsule_protocol matches Some(v) && v@ == seq![63u8, 49u8],
        req.authorized(token),
        other == (ConnectRequest { authority: other.authority, ..req }),
    ensures
        path_target(req.path@) matches Some(target) ==> udp_verdict(req, token) == Ok::<
            (HostView, u16),
            StatusCode,
        >(target),
        path_target(req.path@) is None ==> (udp_verdict(req, token) matches Err(s) && s.number()
            == 400),
        udp_verdict(other, token) == udp_verdict(req, token),
{
}

} // verus!
