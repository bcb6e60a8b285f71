//! What the proxies have in common: destinations, the addresses that are not
//! proxied to, protocol detection, CONNECT authorities and SOCKS5 addresses.
use vstd::prelude::*;
use vstd::slice::slice_subrange;
use vstd::string::StrSliceExecFns;
use vstd::utf8::*;
use crate::addr;
use crate::addr::{IpAddr, SocketAddr};
use crate::be;
use crate::config::AppConfig;
use crate::text;

verus! {

/// The longest HTTP request head that is waited for.
pub const HTTP_HEADER_MAX_LEN: usize = 8192;

/// The length at which a SOCKS4 text field is refused.
pub const SOCKS4_FIELD_MAX_LEN: usize = 1024;

/// How many bytes of a new connection are looked at.
pub const PROBE_LEN: usize = 512;

/// The size of the UDP receive buffers.
pub const UDP_PACKET_MAX_LEN: usize = 65535;

// ---------------------------------------------------------------------------
// Hosts and destinations
// ---------------------------------------------------------------------------

/// The host part of a destination.
#[derive(Debug, Clone, PartialEq, Eq)]
pub enum Host {
    Ip(IpAddr),
    Name(String),
}

/// What a [`Host`] denotes.
#[verifier::ext_equal]
pub enum HostView {
    Ip(IpAddr),
    Name(Seq<char>),
}

impl View for Host {
    type V = HostView;

    open spec fn view(&self) -> HostView {
        match self {
            Host::Ip(ip) => HostView::Ip(*ip),
            Host::Name(name) => HostView::Name(name@),
        }
    }
}

/// A destination that needs no lookup, or the name to look up.
pub enum Resolution<'a> {
    Known(SocketAddr),
    Lookup(&'a str),
}

impl Host {
    /// The address of the host when it is a literal.
    pub open spec fn literal(host: HostView) -> Option<IpAddr> {
        match host {
            HostView::Ip(ip) => Some(ip),
            HostView::Name(name) => addr::ip_of(name),
        }
    }

    /// Whether two hosts are the same.
    pub fn same(&self, other: &Host) -> (r: bool)
        ensures
            r == (self@ == other@),
    {
        match (self, other) {
            (Host::Ip(a), Host::Ip(b)) => *a == *b,
            (Host::Name(a), Host::Name(b)) => text::str_equal(a.as_str(), b.as_str()),
            _ => false,
        }
    }

    /// What is left to do to reach the host: a literal is known at once, a name
    /// is looked up.
    pub fn resolve(&self, port: u16) -> (r: Resolution<'_>)
        ensures
            match Host::literal(self@) {
                Some(ip) => r matches Resolution::Known(a) && a == (SocketAddr { ip, port }),
                None => r matches Resolution::Lookup(name) && self@ == HostView::Name(name@),
            },
    {
        match self {
            Host::Ip(ip) => Resolution::Known(SocketAddr { ip: *ip, port }),
            Host::Name(name) => match addr::parse_ip(name.as_str()) {
                Some(ip) => Resolution::Known(SocketAddr { ip, port }),
                None => Resolution::Lookup(name.as_str()),
            },
        }
    }
}

/// The destination that a lookup gives: its first answer, if it has one.
pub open spec fn first_answer(answers: Seq<IpAddr>, port: u16) -> Option<SocketAddr> {
    if answers.len() == 0 {
        None
    } else {
        Some(SocketAddr { ip: answers[0], port })
    }
}

/// The destination that a lookup gives: its first answer, if it has one.
pub fn resolve_first(answers: &[IpAddr], port: u16) -> (r: Option<SocketAddr>)
    ensures
        r == first_answer(answers@, port),
{
    if answers.len() == 0 {
        None
    } else {
        Some(SocketAddr { ip: answers[0], port })
    }
}

/// The host that a text denotes: an address when it is a literal, else a name.
pub open spec fn host_of(s: Seq<char>) -> HostView {
    match addr::ip_of(s) {
        Some(ip) => HostView::Ip(ip),
        None => HostView::Name(s),
    }
}

/// Reads a host: an address when it is a literal, else a name.
pub fn parse_host(s: &str) -> (r: Host)
    ensures
        r@ == host_of(s@),
{
    match addr::parse_ip(s) {
        Some(ip) => Host::Ip(ip),
        None => Host::Name(s.to_string()),
    }
}

/// The port that a text denotes.
pub open spec fn port_of(s: Seq<char>) -> Option<u16> {
    match text::decimal_up_to(s, 65535) {
        Some(n) => Some(n as u16),
        None => None,
    }
}

/// Reads a port number.
pub fn parse_port(s: &str) -> (r: Option<u16>)
    ensures
        r == port_of(s@),
{
    match text::parse_decimal(s, 65535) {
        Some(n) => Some(n as u16),
        None => None,
    }
}

// ---------------------------------------------------------------------------
// Special-purpose addresses
// ---------------------------------------------------------------------------

/// Whether two numbers agree above the low bits counted by `size`.
pub open spec fn in_block(n: int, base: int, size: int) -> bool {
    n / size == base / size
}

/// Whether an IPv4 address is in the special-purpose registry, or is multicast.
pub open spec fn special_v4(n: u32) -> bool {
    // 0.0.0.0/8, 10.0.0.0/8, 100.64.0.0/10
    ||| in_block(n as int, 0x0000_0000, 0x100_0000)
    ||| in_block(n as int, 0x0a00_0000, 0x100_0000)
    ||| in_block(n as int, 0x6440_0000, 0x40_0000)
    // 127.0.0.0/8, 169.254.0.0/16, 172.16.0.0/12
    ||| in_block(n as int, 0x7f00_0000, 0x100_0000)
    ||| in_block(n as int, 0xa9fe_0000, 0x1_0000)
    ||| in_block(n as int, 0xac10_0000, 0x10_0000)
    // 192.0.0.0/24, 192.0.2.0/24, 192.88.99.0/24, 192.168.0.0/16
    ||| in_block(n as int, 0xc000_0000, 0x100)
    ||| in_block(n as int, 0xc000_0200, 0x100)
    ||| in_block(n as int, 0xc058_6300, 0x100)
    ||| in_block(n as int, 0xc0a8_0000, 0x1_0000)
    // 198.18.0.0/15, 198.51.100.0/24, 203.0.113.0/24
    ||| in_block(n as int, 0xc612_0000, 0x2_0000)
    ||| in_block(n as int, 0xc633_6400, 0x100)
    ||| in_block(n as int, 0xcb00_7100, 0x100)
    // 224.0.0.0/4, 240.0.0.0/4
    ||| in_block(n as int, 0xe000_0000, 0x1000_0000)
    ||| in_block(n as int, 0xf000_0000, 0x1000_0000)
}

/// Whether an IPv6 address is in the special-purpose registry, or is multicast.
pub open spec fn special_v6(n: u128) -> bool {
    // ::/128, ::1/128
    ||| n == 0
    ||| n == 1
    // ::ffff:0:0/96, 64:ff9b::/96
    ||| in_block(n as int, 0xffff_0000_0000, 0x1_0000_0000)
    ||| in_block(n as int, 0x0064_ff9b_0000_0000_0000_0000_0000_0000, 0x1_0000_0000)
    // 100::/64, 2001::/23, 2001:db8::/32
    ||| in_block(n as int, 0x0100_0000_0000_0000_0000_0000_0000_0000, 0x1_0000_0000_0000_0000)
    ||| in_block(
        n as int,
        0x2001_0000_0000_0000_0000_0000_0000_0000,
        0x200_0000_0000_0000_0000_0000_0000,
    )
    ||| in_block(
        n as int,
        0x2001_0db8_0000_0000_0000_0000_0000_0000,
        0x1_0000_0000_0000_0000_0000_0000,
    )
    // 2002::/16, fc00::/7, fe80::/10, ff00::/8
    ||| in_block(
        n as int,
        0x2002_0000_0000_0000_0000_0000_0000_0000,
        0x1_0000_0000_0000_0000_0000_0000_0000,
    )
    ||| in_block(
        n as int,
        0xfc00_0000_0000_0000_0000_0000_0000_0000,
        0x200_0000_0000_0000_0000_0000_0000_0000,
    )
    ||| in_block(
        n as int,
        0xfe80_0000_0000_0000_0000_0000_0000_0000,
        0x40_0000_0000_0000_0000_0000_0000_0000,
    )
    ||| in_block(
        n as int,
        0xff00_0000_0000_0000_0000_0000_0000_0000,
        0x100_0000_0000_0000_0000_0000_0000_0000,
    )
}

/// Whether an address is a special-purpose address (RFC 6890).
pub open spec fn special(ip: IpAddr) -> bool {
    match ip {
        IpAddr::V4(n) => special_v4(n),
        IpAddr::V6(n) => special_v6(n),
    }
}

fn is_special_v4(n: u32) -> (r: bool)
    ensures
        r == special_v4(n),
{
    n / 0x100_0000 == 0x00 || n / 0x100_0000 == 0x0a || n / 0x40_0000 == 0x191 || n / 0x100_0000
        == 0x7f || n / 0x1_0000 == 0xa9fe || n / 0x10_0000 == 0xac1 || n / 0x100 == 0xc0_0000 || n
        / 0x100 == 0xc0_0002 || n / 0x100 == 0xc0_5863 || n / 0x1_0000 == 0xc0a8 || n / 0x2_0000
        == 0x6309 || n / 0x100 == 0xc6_3364 || n / 0x100 == 0xcb_0071 || n / 0x1000_0000 >= 0xe
}

fn is_special_v6(n: u128) -> (r: bool)
    ensures
        r == special_v6(n),
{
    n == 0 || n == 1 || n / 0x1_0000_0000 == 0xffff || n / 0x1_0000_0000
        == 0x0064_ff9b_0000_0000_0000_0000 || n / 0x1_0000_0000_0000_0000 == 0x0100_0000_0000_0000
        || n / 0x200_0000_0000_0000_0000_0000_0000 == 0x10_0080 || n
        / 0x1_0000_0000_0000_0000_0000_0000 == 0x2001_0db8 || n
        / 0x1_0000_0000_0000_0000_0000_0000_0000 == 0x2002 || n
        / 0x200_0000_0000_0000_0000_0000_0000_0000 == 0x7e || n
        / 0x40_0000_0000_0000_0000_0000_0000_0000 == 0x3fa || n
        / 0x100_0000_0000_0000_0000_0000_0000_0000 == 0xff
}

/// Whether an address is a special-purpose address (RFC 6890): private,
/// loopback, link-local, shared, multicast, reserved, documentation and so on.
pub fn is_rfc6890_special(ip: IpAddr) -> (r: bool)
    ensures
        r == special(ip),
{
    match ip {
        IpAddr::V4(n) => is_special_v4(n),
        IpAddr::V6(n) => is_special_v6(n),
    }
}

// ---------------------------------------------------------------------------
// Protocol detection
// ---------------------------------------------------------------------------

/// The protocols that the TCP listener serves.
#[derive(Debug, Clone, Copy, PartialEq, Eq, Structural)]
pub enum Protocol {
    Socks4,
    Socks5,
    HttpConnect,
}

/// The start of an HTTP CONNECT request.
pub open spec fn connect_prefix() -> Seq<u8> {
    // "CONNECT "
    seq![67u8, 79, 78, 78, 69, 67, 84, 32]
}

/// The protocol that the first bytes of a connection show.
pub open spec fn protocol_of(data: Seq<u8>) -> Option<Protocol> {
    if data.len() == 0 {
        None
    } else if data[0] == 4 {
        Some(Protocol::Socks4)
    } else if data[0] == 5 {
        Some(Protocol::Socks5)
    } else if connect_prefix().is_prefix_of(data) {
        Some(Protocol::HttpConnect)
    } else {
        None
    }
}

/// Tells the protocol by the first bytes of a connection.
pub fn detect_protocol(data: &[u8]) -> (r: Option<Protocol>)
    ensures
        r == protocol_of(data@),
{
    if data.len() == 0 {
        return None;
    }
    match data[0] {
        4 => Some(Protocol::Socks4),
        5 => Some(Protocol::Socks5),
        _ => {
            let prefix: [u8; 8] = [67, 79, 78, 78, 69, 67, 84, 32];
            assert(prefix@ == connect_prefix());
            if data.len() >= 8 && text::bytes_equal(
                slice_subrange(data, 0, 8),
                prefix.as_slice(),
            ) {
                Some(Protocol::HttpConnect)
            } else {
                None
            }
        },
    }
}

/// Why a connection is given up before its protocol is known.
#[derive(Debug, Clone, Copy, PartialEq, Eq, Structural)]
pub enum ProbeError {
    /// The client closed the connection.
    Closed,
    UnknownProtocol,
}

/// What the first bytes of a connection lead to; none at all mean that the client
/// closed it.
pub open spec fn probe_of(data: Seq<u8>) -> Result<Protocol, ProbeError> {
    if data.len() == 0 {
        Err(ProbeError::Closed)
    } else {
        match protocol_of(data) {
            Some(protocol) => Ok(protocol),
            None => Err(ProbeError::UnknownProtocol),
        }
    }
}

/// Decides on the first bytes of a connection.
pub fn classify_probe(data: &[u8]) -> (r: Result<Protocol, ProbeError>)
    ensures
        r == probe_of(data@),
{
    if data.len() == 0 {
        return Err(ProbeError::Closed);
    }
    match detect_protocol(data) {
        Some(protocol) => Ok(protocol),
        None => Err(ProbeError::UnknownProtocol),
    }
}

/// The TCP proxy.
#[derive(Debug)]
pub struct ProxyServer {
    pub config: AppConfig,
}

impl ProxyServer {
    /// A proxy for a configuration.
    pub fn new(config: AppConfig) -> (r: ProxyServer)
        ensures
            r.config == config,
    {
        ProxyServer { config }
    }

    /// Where the proxy listens when it runs.
    pub fn run(&self) -> (r: SocketAddr)
        ensures
            r == self.config.listen,
    {
        self.config.listen
    }
}

// ---------------------------------------------------------------------------
// CONNECT authorities
// ---------------------------------------------------------------------------

/// Why a CONNECT authority is refused.
#[derive(Debug, Clone, Copy, PartialEq, Eq, Structural)]
pub enum AuthorityError {
    Empty,
    UnclosedBracket,
    MissingDelimiter,
    InvalidAddress,
    InvalidPort,
    MissingPort,
}

/// The host and port that a CONNECT authority names.
pub open spec fn authority_of(s: Seq<char>) -> Result<(HostView, u16), AuthorityError> {
    if s.len() == 0 {
        Err(AuthorityError::Empty)
    } else if s[0] == '[' {
        let e = text::find_first(s, ']');
        if e >= s.len() {
            Err(AuthorityError::UnclosedBracket)
        } else {
            let rest = s.skip(e + 1);
            if rest.len() == 0 || rest[0] != ':' {
                Err(AuthorityError::MissingDelimiter)
            } else {
                match (addr::ip_of(s.subrange(1, e)), port_of(rest.skip(1))) {
                    (None, _) => Err(AuthorityError::InvalidAddress),
                    (Some(_), None) => Err(AuthorityError::InvalidPort),
                    (Some(ip), Some(port)) => Ok((HostView::Ip(ip), port)),
                }
            }
        }
    } else {
        let k = text::find_last(s, ':');
        if k < 0 {
            Err(AuthorityError::MissingPort)
        } else {
            match port_of(s.skip(k + 1)) {
                None => Err(AuthorityError::InvalidPort),
                Some(port) => Ok((host_of(s.take(k)), port)),
            }
        }
    }
}

/// What a result of a target parser denotes.
pub open spec fn target_view<E>(r: Result<(Host, u16), E>) -> Result<(HostView, u16), E> {
    match r {
        Ok((host, port)) => Ok((host@, port)),
        Err(e) => Err(e),
    }
}

/// Parses a CONNECT authority: `host:port`, or `[address]:port`.
pub fn parse_authority(authority: &str) -> (r: Result<(Host, u16), AuthorityError>)
    ensures
        target_view(r) == authority_of(authority@),
{
    let n: usize = authority.unicode_len();
    if n == 0 {
        return Err(AuthorityError::Empty);
    }
    if authority.get_char(0) == '[' {
        let (before, rest) = match text::split_once(authority, ']') {
            Some(v) => v,
            None => return Err(AuthorityError::UnclosedBracket),
        };
        let ghost e = text::find_first(authority@, ']');
        if rest.unicode_len() == 0 || rest.get_char(0) != ':' {
            return Err(AuthorityError::MissingDelimiter);
        }
        proof {
            text::lemma_find_first(authority@, ']');
        }
        let host = before.substring_char(1, before.unicode_len());
        assert(host@ == authority@.subrange(1, e));
        let port_part = rest.substring_char(1, rest.unicode_len());
        assert(port_part@ == rest@.skip(1));
        let ip = match addr::parse_ip(host) {
            Some(ip) => ip,
            None => return Err(AuthorityError::InvalidAddress),
        };
        match parse_port(port_part) {
            Some(port) => Ok((Host::Ip(ip), port)),
            None => Err(AuthorityError::InvalidPort),
        }
    } else {
        let (host_part, port_part) = match text::rsplit_once(authority, ':') {
            Some(v) => v,
            None => return Err(AuthorityError::MissingPort),
        };
        match parse_port(port_part) {
            Some(port) => Ok((parse_host(host_part), port)),
            None => Err(AuthorityError::InvalidPort),
        }
    }
}

/// A host that does not begin with a bracket, a colon and a port in decimal
/// name that host and that port.
pub proof fn lemma_authority_round_trip(host: Seq<char>, port: u16)
    requires
        host.len() == 0 || host[0] != '[',
    ensures
        authority_of(host.push(':') + text::decimal_digits(port as nat)) == Ok::<
            (HostView, u16),
            AuthorityError,
        >((host_of(host), port)),
{
    let digits = text::decimal_digits(port as nat);
    let s = host.push(':') + digits;
    text::lemma_decimal_round_trip(port as nat);
    assert forall|i: int| host.len() < i < s.len() implies s[i] != ':' by {
        assert(text::is_digit(digits[i - host.len() - 1]));
    }
    text::lemma_find_last_unique(s, ':', host.len() as int);
    assert(s.skip(host.len() as int + 1) == digits);
    assert(s.take(host.len() as int) == host);
}

/// An address in brackets, a colon and a port in decimal name that address and
/// that port.
pub proof fn lemma_bracketed_authority(literal: Seq<char>, ip: IpAddr, port: u16)
    requires
        addr::ip_of(literal) == Some(ip),
    ensures
        authority_of(seq!['['] + literal + seq![']', ':'] + text::decimal_digits(port as nat))
            == Ok::<(HostView, u16), AuthorityError>((HostView::Ip(ip), port)),
{
    let digits = text::decimal_digits(port as nat);
    let s = seq!['['] + literal + seq![']', ':'] + digits;
    let e = literal.len() as int + 1;
    text::lemma_decimal_round_trip(port as nat);
    addr::lemma_literal_chars(literal);
    assert forall|i: int| 0 <= i < e implies s[i] != ']' by {
        if i > 0 {
            assert(s[i] == literal[i - 1]);
            assert(addr::literal_char(literal[i - 1]));
        }
    }
    text::lemma_find_first_unique(s, ']', e);
    assert(s.subrange(1, e) == literal);
    assert(s.skip(e + 1)[0] == ':');
    assert(s.skip(e + 1).skip(1) == digits);
}

// ---------------------------------------------------------------------------
// SOCKS5 addresses and UDP packets
// ---------------------------------------------------------------------------

/// Why a SOCKS5 address is refused.
#[derive(Debug, Clone, Copy, PartialEq, Eq, Structural)]
pub enum SocksAddressError {
    TruncatedIpv4,
    TruncatedIpv6,
    MissingDomainLength,
    TruncatedDomain,
    InvalidDomain,
    UnsupportedType,
}

/// Why a SOCKS5 UDP packet is refused.
#[derive(Debug, Clone, Copy, PartialEq, Eq, Structural)]
pub enum UdpRequestError {
    TooShort,
    InvalidReserved,
    Fragmented,
    Address(SocksAddressError),
    MissingPort,
}

/// The host at the front of `data` and how many bytes it takes.
pub open spec fn socks5_host_of(atyp: u8, data: Seq<u8>) -> Result<
    (HostView, usize),
    SocksAddressError,
> {
    if atyp == 1 {
        if data.len() < 4 {
            Err(SocksAddressError::TruncatedIpv4)
        } else {
            Ok((HostView::Ip(IpAddr::from_octets_spec(data.take(4))), 4))
        }
    } else if atyp == 4 {
        if data.len() < 16 {
            Err(SocksAddressError::TruncatedIpv6)
        } else {
            Ok((HostView::Ip(IpAddr::from_octets_spec(data.take(16))), 16))
        }
    } else if atyp == 3 {
        if data.len() == 0 {
            Err(SocksAddressError::MissingDomainLength)
        } else if data.len() < 1 + data[0] {
            Err(SocksAddressError::TruncatedDomain)
        } else {
            let raw = data.subrange(1, 1 + data[0]);
            if valid_utf8(raw) {
                Ok((HostView::Name(decode_utf8(raw)), (1 + data[0]) as usize))
            } else {
                Err(SocksAddressError::InvalidDomain)
            }
        }
    } else {
        Err(SocksAddressError::UnsupportedType)
    }
}

/// Reads the host at the front of `data`: the host and how many bytes it takes.
pub fn parse_socks5_host_from_bytes(atyp: u8, data: &[u8]) -> (r: Result<
    (Host, usize),
    SocksAddressError,
>)
    ensures
        match r {
            Ok((host, n)) => socks5_host_of(atyp, data@) == Ok::<
                (HostView, usize),
                SocksAddressError,
            >((host@, n)) && n <= data@.len(),
            Err(e) => socks5_host_of(atyp, data@) == Err::<(HostView, usize), SocksAddressError>(e),
        },
{
    match atyp {
        1 => {
            if data.len() < 4 {
                return Err(SocksAddressError::TruncatedIpv4);
            }
            let raw = slice_subrange(data, 0, 4);
            assert(raw@ == data@.take(4));
            Ok((Host::Ip(IpAddr::from_octets(raw)), 4))
        },
        4 => {
            if data.len() < 16 {
                return Err(SocksAddressError::TruncatedIpv6);
            }
            let raw = slice_subrange(data, 0, 16);
            assert(raw@ == data@.take(16));
            Ok((Host::Ip(IpAddr::from_octets(raw)), 16))
        },
        3 => {
            if data.len() == 0 {
                return Err(SocksAddressError::MissingDomainLength);
            }
            let len: usize = data[0] as usize;
            if data.len() < 1 + len {
                return Err(SocksAddressError::TruncatedDomain);
            }
            let raw = text::bytes_vec(slice_subrange(data, 1, 1 + len));
            match text::string_from_utf8(raw) {
                Some(domain) => Ok((Host::Name(domain), 1 + len)),
                None => Err(SocksAddressError::InvalidDomain),
            }
        },
        _ => Err(SocksAddressError::UnsupportedType),
    }
}

/// The destination and the payload of a SOCKS5 UDP packet.
pub open spec fn udp_request_of(packet: Seq<u8>) -> Result<
    (HostView, u16, Seq<u8>),
    UdpRequestError,
> {
    if packet.len() < 4 {
        Err(UdpRequestError::TooShort)
    } else if packet[0] != 0 || packet[1] != 0 {
        Err(UdpRequestError::InvalidReserved)
    } else if packet[2] != 0 {
        Err(UdpRequestError::Fragmented)
    } else {
        match socks5_host_of(packet[3], packet.skip(4)) {
            Err(e) => Err(UdpRequestError::Address(e)),
            Ok((host, n)) => if packet.len() < n + 6 {
                Err(UdpRequestError::MissingPort)
            } else {
                Ok(
                    (
                        host,
                        be::value(packet.subrange(n + 4, n + 6)) as u16,
                        packet.skip(n + 6),
                    ),
                )
            },
        }
    }
}

/// Reads a two-byte port.
pub fn read_port(raw: &[u8]) -> (r: u16)
    requires
        raw@.len() == 2,
    ensures
        r == be::value(raw@),
{
    let n: u128 = be::read_be(raw);
    proof {
        be::lemma_be_value_bound(raw@);
        be::lemma_pow256_values();
    }
    n as u16
}

/// Parses a SOCKS5 UDP packet: the destination and the payload.
pub fn parse_socks5_udp_request(packet: &[u8]) -> (r: Result<
    (Host, u16, &[u8]),
    UdpRequestError,
>)
    ensures
        match r {
            Ok((host, port, payload)) => udp_request_of(packet@) == Ok::<
                (HostView, u16, Seq<u8>),
                UdpRequestError,
            >((host@, port, payload@)),
            Err(e) => udp_request_of(packet@) == Err::<
                (HostView, u16, Seq<u8>),
                UdpRequestError,
            >(e),
        },
{
    if packet.len() < 4 {
        return Err(UdpRequestError::TooShort);
    }
    if packet[0] != 0 || packet[1] != 0 {
        return Err(UdpRequestError::InvalidReserved);
    }
    if packet[2] != 0 {
        return Err(UdpRequestError::Fragmented);
    }
    let rest = slice_subrange(packet, 4, packet.len());
    assert(rest@ == packet@.skip(4));
    match parse_socks5_host_from_bytes(packet[3], rest) {
        Err(e) => Err(UdpRequestError::Address(e)),
        Ok((host, n)) => {
            if rest.len() - n < 2 {
                return Err(UdpRequestError::MissingPort);
            }
            let port: u16 = read_port(slice_subrange(packet, n + 4, n + 6));
            let payload = slice_subrange(packet, n + 6, packet.len());
            assert(payload@ == packet@.skip(n + 6));
            Ok((host, port, payload))
        },
    }
}

/// The address type byte, the address and the port of `a`.
pub open spec fn socks5_addr_bytes(a: SocketAddr) -> Seq<u8> {
    let atyp: u8 = if a.ip is V4 {
        1
    } else {
        4
    };
    seq![atyp] + a.ip.spec_octets() + be::bytes(a.port as nat, 2)
}

/// A packet for the client that carries what `source` sent.
pub open spec fn udp_response_bytes(source: SocketAddr, payload: Seq<u8>) -> Seq<u8> {
    seq![0u8, 0, 0] + socks5_addr_bytes(source) + payload
}

/// Appends the address type byte, the address and the port of `a`.
pub fn push_socks5_addr(out: &mut Vec<u8>, a: SocketAddr)
    ensures
        final(out)@ == old(out)@ + socks5_addr_bytes(a),
{
    if a.ip.is_ipv4() {
        out.push(1);
    } else {
        out.push(4);
    }
    let octets = a.ip.octets();
    text::push_bytes(out, octets.as_slice());
    let port = be::write_be(a.port as u128, 2);
    text::push_bytes(out, port.as_slice());
    assert(out@ == old(out)@ + socks5_addr_bytes(a));
}

/// Builds the packet for the client that carries what `source` sent.
pub fn build_socks5_udp_response(source: SocketAddr, payload: &[u8]) -> (r: Vec<u8>)
    ensures
        r@ == udp_response_bytes(source, payload@),
{
    let mut out: Vec<u8> = vec![0u8, 0u8, 0u8];
    push_socks5_addr(&mut out, source);
    text::push_bytes(&mut out, payload);
    assert(out@ == udp_response_bytes(source, payload@));
    out
}

/// A packet built for the client names its source and carries the payload
/// unchanged.
pub proof fn lemma_udp_response_round_trip(source: SocketAddr, payload: Seq<u8>)
    ensures
        udp_request_of(udp_response_bytes(source, payload)) == Ok::<
            (HostView, u16, Seq<u8>),
            UdpRequestError,
        >((HostView::Ip(source.ip), source.port, payload)),
{
    let s = udp_response_bytes(source, payload);
    let octets = source.ip.spec_octets();
    let n = octets.len() as int;
    addr::lemma_octets_round_trip(source.ip);
    be::lemma_pow256_values();
    be::lemma_be_round_trip(source.port as nat, 2);
    assert(s.skip(4).take(n) == octets);
    assert(s.subrange(n + 4, n + 6) == be::bytes(source.port as nat, 2));
    assert(s.skip(n + 6) == payload);
}

/// A packet that names a domain of at most 255 bytes is read back: the domain,
/// the port and the payload.
pub proof fn lemma_udp_domain_round_trip(name: Seq<char>, port: u16, payload: Seq<u8>)
    requires
        encode_utf8(name).len() <= 255,
    ensures
        udp_request_of(
            seq![0u8, 0, 0, 3, encode_utf8(name).len() as u8] + encode_utf8(name) + be::bytes(
                port as nat,
                2,
            ) + payload,
        ) == Ok::<(HostView, u16, Seq<u8>), UdpRequestError>(
            (HostView::Name(name), port, payload),
        ),
{
    let raw = encode_utf8(name);
    let len = raw.len() as u8;
    let s = seq![0u8, 0, 0, 3, len] + raw + be::bytes(port as nat, 2) + payload;
    let n = raw.len() as int + 1;
    encode_utf8_valid_utf8(name);
    encode_utf8_decode_utf8(name);
    be::lemma_pow256_values();
    be::lemma_be_round_trip(port as nat, 2);
    let data = s.skip(4);
    assert(data[0] == len);
    assert(data.subrange(1, 1 + len) == raw);
    assert(s.subrange(n + 4, n + 6) == be::bytes(port as nat, 2));
    assert(s.skip(n + 6) == payload);
}

// ---------------------------------------------------------------------------
// Laws
// ---------------------------------------------------------------------------

/// The first byte of a connection tells SOCKS4 and SOCKS5, whatever follows it;
/// what begins with neither 4 nor 5 is HTTP exactly when it begins with
/// `CONNECT` and a space, and unknown otherwise.
pub proof fn lemma_first_byte(data: Seq<u8>)
    requires
        data.len() > 0,
    ensures
        data[0] == 4 ==> probe_of(data) == Ok::<Protocol, ProbeError>(Protocol::Socks4),
        data[0] == 5 ==> probe_of(data) == Ok::<Protocol, ProbeError>(Protocol::Socks5),
        data[0] == 4 ==> protocol_of(data) == Some(Protocol::Socks4),
        data[0] == 5 ==> protocol_of(data) == Some(Protocol::Socks5),
        data[0] != 4 && data[0] != 5 ==> {
            let http = data.len() >= 8 && data[0] == 67 && data[1] == 79 && data[2] == 78 && data[3]
                == 78 && data[4] == 69 && data[5] == 67 && data[6] == 84 && data[7] == 32;
            &&& http <==> protocol_of(data) == Some(Protocol::HttpConnect)
            &&& !http <==> protocol_of(data) is None
            &&& !http <==> probe_of(data) == Err::<Protocol, ProbeError>(
                ProbeError::UnknownProtocol,
            )
        },
{
    if data.len() >= 8 && data[0] == 67 && data[1] == 79 && data[2] == 78 && data[3] == 78
        && data[4] == 69 && data[5] == 67 && data[6] == 84 && data[7] == 32 {
        assert(connect_prefix() == data.take(8));
        assert(connect_prefix().is_prefix_of(data));
    } else if connect_prefix().is_prefix_of(data) {
        assert(connect_prefix() == data.take(8));
        assert forall|i: int| 0 <= i < 8 implies data[i] == connect_prefix()[i] by {
            assert(data.take(8)[i] == data[i]);
        }
        assert(data[0] == 67 && data[1] == 79 && data[2] == 78 && data[3] == 78 && data[4] == 69
            && data[5] == 67 && data[6] == 84 && data[7] == 32);
    }
}

/// A connection that is closed before its first byte is told apart from one with
/// an unknown protocol.
pub proof fn lemma_nothing_sent(data: Seq<u8>)
    ensures
        data.len() == 0 <==> probe_of(data) == Err::<Protocol, ProbeError>(ProbeError::Closed),
        data.len() == 0 ==> protocol_of(data) is None,
{
}

/// More bytes never change a protocol that was told.
pub proof fn lemma_told_once(data: Seq<u8>, more: Seq<u8>)
    requires
        protocol_of(data) is Some,
    ensures
        protocol_of(data + more) == protocol_of(data),
{
    if connect_prefix().is_prefix_of(data) {
        assert(data.take(8) == (data + more).take(8));
    }
}

/// The first answer to a lookup counts, whatever the others are, with the port
/// that was asked for; without an answer there is no destination.
pub proof fn lemma_first_answer(ip: IpAddr, others: Seq<IpAddr>, port: u16)
    ensures
        first_answer(seq![ip] + others, port) == Some(SocketAddr { ip, port }),
        first_answer(Seq::<IpAddr>::empty(), port) is None,
{
}

/// An address is always taken as itself; a name that spells an address is taken
/// as that address, and any other name stays a name.
pub proof fn lemma_literals(ip: IpAddr, name: Seq<char>)
    ensures
        Host::literal(HostView::Ip(ip)) == Some(ip),
        addr::ip_of(name) == Some(ip) ==> Host::literal(HostView::Name(name)) == Some(ip)
            && host_of(name) == HostView::Ip(ip),
        addr::ip_of(name) is None ==> Host::literal(HostView::Name(name)) is None && host_of(name)
            == HostView::Name(name),
{
}

/// A port in decimal is read exactly when it is at most 65535.
pub proof fn lemma_ports(n: nat)
    ensures
        n <= 65535 ==> port_of(text::decimal_digits(n)) == Some(n as u16),
        n > 65535 ==> port_of(text::decimal_digits(n)) is None,
        port_of(Seq::<char>::empty()) is None,
{
    text::lemma_decimal_round_trip(n);
}

/// The special-purpose IPv4 addresses `a.b.c.d`, by their octets: this network,
/// private use, shared address space, loopback, link-local, protocol assignments,
/// documentation, 6to4 relays, benchmarking, multicast and reserved. No other
/// address is special.
pub proof fn lemma_special_v4(n: u32, a: u8, b: u8, c: u8, d: u8)
    requires
        n == a * 0x100_0000 + b * 0x1_0000 + c * 0x100 + d,
    ensures
        special(IpAddr::V4(n)) <==> (a == 0 || a == 10 || (a == 100 && 64 <= b <= 127) || a == 127
            || (a == 169 && b == 254) || (a == 172 && 16 <= b <= 31) || (a == 192 && b == 0 && c
            == 0) || (a == 192 && b == 0 && c == 2) || (a == 192 && b == 88 && c == 99) || (a == 192
            && b == 168) || (a == 198 && (b == 18 || b == 19)) || (a == 198 && b == 51 && c == 100)
            || (a == 203 && b == 0 && c == 113) || a >= 224),
{
    assert(n / 0x100_0000 == a);
    assert(n / 0x1_0000 == a * 0x100 + b);
    assert(n / 0x100 == a * 0x1_0000 + b * 0x100 + c);
    assert(n / 0x40_0000 == a * 4 + b / 64);
    assert(n / 0x10_0000 == a * 16 + b / 16);
    assert(n / 0x2_0000 == a * 128 + b / 2);
    assert(n / 0x1000_0000 == a / 16);
}

/// The special-purpose IPv6 addresses, by the ranges they lie in: unspecified,
/// loopback, IPv4-mapped, translation, discard-only, protocol assignments,
/// documentation, 6to4, unique-local, link-local and multicast. No other address
/// is special.
pub proof fn lemma_special_v6(n: u128)
    ensures
        special(IpAddr::V6(n)) <==> (n <= 1 || 0xffff_0000_0000 <= n <= 0xffff_ffff_ffff || (
        0x0064_ff9b_0000_0000_0000_0000_0000_0000 <= n
            <= 0x0064_ff9b_0000_0000_0000_0000_ffff_ffff) || (
        0x0100_0000_0000_0000_0000_0000_0000_0000 <= n
            <= 0x0100_0000_0000_0000_ffff_ffff_ffff_ffff) || (
        0x2001_0000_0000_0000_0000_0000_0000_0000 <= n
            <= 0x2001_01ff_ffff_ffff_ffff_ffff_ffff_ffff) || (
        0x2001_0db8_0000_0000_0000_0000_0000_0000 <= n
            <= 0x2001_0db8_ffff_ffff_ffff_ffff_ffff_ffff) || (
        0x2002_0000_0000_0000_0000_0000_0000_0000 <= n
            <= 0x2002_ffff_ffff_ffff_ffff_ffff_ffff_ffff) || (
        0xfc00_0000_0000_0000_0000_0000_0000_0000 <= n
            <= 0xfdff_ffff_ffff_ffff_ffff_ffff_ffff_ffff) || (
        0xfe80_0000_0000_0000_0000_0000_0000_0000 <= n
            <= 0xfebf_ffff_ffff_ffff_ffff_ffff_ffff_ffff) || n
            >= 0xff00_0000_0000_0000_0000_0000_0000_0000),
{
}

/// What is not an authority: nothing at all, a bracket that is not closed, and a
/// host without a colon.
pub proof fn lemma_authority_errors(s: Seq<char>)
    ensures
        authority_of(Seq::<char>::empty()) == Err::<(HostView, u16), AuthorityError>(
            AuthorityError::Empty,
        ),
        s.len() > 0 && s[0] == '[' && !s.contains(']') ==> authority_of(s) == Err::<
            (HostView, u16),
            AuthorityError,
        >(AuthorityError::UnclosedBracket),
        s.len() > 0 && s[0] != '[' && !s.contains(':') ==> authority_of(s) == Err::<
            (HostView, u16),
            AuthorityError,
        >(AuthorityError::MissingPort),
{
    text::lemma_find_first(s, ']');
    text::lemma_find_last(s, ':');
}

/// Brackets must stand round an address, and a colon behind them.
pub proof fn lemma_bracket_contents(inner: Seq<char>, tail: Seq<char>)
    requires
        !inner.contains(']'),
    ensures
        tail.len() == 0 || tail[0] != ':' ==> authority_of(
            seq!['['] + inner + seq![']'] + tail,
        ) == Err::<(HostView, u16), AuthorityError>(AuthorityError::MissingDelimiter),
        tail.len() > 0 && tail[0] == ':' && addr::ip_of(inner) is None ==> authority_of(
            seq!['['] + inner + seq![']'] + tail,
        ) == Err::<(HostView, u16), AuthorityError>(AuthorityError::InvalidAddress),
{
    let s = seq!['['] + inner + seq![']'] + tail;
    let e = inner.len() as int + 1;
    assert forall|i: int| 0 <= i < e implies s[i] != ']' by {
        if i > 0 {
            assert(inner.contains(inner[i - 1]));
        }
    }
    text::lemma_find_first_unique(s, ']', e);
    assert(s.subrange(1, e) == inner);
    assert(s.skip(e + 1) == tail);
}

/// A packet for the client, byte by byte: three zeros, 1 or 4 for the family, the
/// octets, the port with its higher byte first, and what was sent.
pub proof fn lemma_udp_layout(n4: u32, n6: u128, port: u16, payload: Seq<u8>)
    ensures
        udp_response_bytes(SocketAddr { ip: IpAddr::V4(n4), port }, payload) == seq![0u8, 0, 0, 1]
            + be::bytes(n4 as nat, 4) + seq![(port / 256) as u8, (port % 256) as u8] + payload,
        udp_response_bytes(SocketAddr { ip: IpAddr::V6(n6), port }, payload) == seq![0u8, 0, 0, 4]
            + be::bytes(n6 as nat, 16) + seq![(port / 256) as u8, (port % 256) as u8] + payload,
{
    be::lemma_be_two(port as nat);
}

/// Everything that can be wrong with a packet of the client has its own error, in
/// the order in which the packet is read: its length, its first two bytes, its
/// fragment number, its address, and its port.
pub proof fn lemma_udp_refused(packet: Seq<u8>)
    ensures
        ({
            let got = udp_request_of(packet);
            let error = match got {
                Ok(_) => None,
                Err(e) => Some(e),
            };
            let n = packet.len();
            &&& n < 4 <==> error == Some(UdpRequestError::TooShort)
            &&& n >= 4 && (packet[0] != 0 || packet[1] != 0) <==> error == Some(
                UdpRequestError::InvalidReserved,
            )
            &&& n >= 4 && packet[0] == 0 && packet[1] == 0 && packet[2] != 0 <==> error == Some(
                UdpRequestError::Fragmented,
            )
            &&& n >= 4 && packet[0] == 0 && packet[1] == 0 && packet[2] == 0 ==> {
                let atyp = packet[3];
                &&& atyp != 1 && atyp != 3 && atyp != 4 ==> error == Some(
                    UdpRequestError::Address(SocksAddressError::UnsupportedType),
                )
                &&& atyp == 1 && n < 8 ==> error == Some(
                    UdpRequestError::Address(SocksAddressError::TruncatedIpv4),
                )
                &&& atyp == 1 && 8 <= n < 10 ==> error == Some(UdpRequestError::MissingPort)
                &&& atyp == 1 && n >= 10 ==> got is Ok
                &&& atyp == 4 && n < 20 ==> error == Some(
                    UdpRequestError::Address(SocksAddressError::TruncatedIpv6),
                )
                &&& atyp == 4 && 20 <= n < 22 ==> error == Some(UdpRequestError::MissingPort)
                &&& atyp == 4 && n >= 22 ==> got is Ok
                &&& atyp == 3 && n == 4 ==> error == Some(
                    UdpRequestError::Address(SocksAddressError::MissingDomainLength),
                )
                &&& atyp == 3 && n >= 5 && n < 5 + packet[4] ==> error == Some(
                    UdpRequestError::Address(SocksAddressError::TruncatedDomain),
                )
                &&& atyp == 3 && n >= 5 + packet[4] && !valid_utf8(
                    packet.subrange(5, 5 + packet[4]),
                ) ==> error == Some(UdpRequestError::Address(SocksAddressError::InvalidDomain))
                &&& atyp == 3 && n >= 5 + packet[4] && valid_utf8(packet.subrange(5, 5 + packet[4]))
                    && n < 7 + packet[4] ==> error == Some(UdpRequestError::MissingPort)
                &&& atyp == 3 && n >= 7 + packet[4] && valid_utf8(packet.subrange(5, 5 + packet[4]))
                    ==> got is Ok
            }
        }),
{
    if packet.len() >= 5 {
        assert(packet.skip(4)[0] == packet[4]);
        if packet.len() >= 5 + packet[4] {
            assert(packet.skip(4).subrange(1, 1 + packet[4]) == packet.subrange(5, 5 + packet[4]));
        }
    }
}

/// A host in a SOCKS5 request is told by its type: 1 has four octets, 4 has
/// sixteen, and 3 a length and a name, which stays a name.
pub proof fn lemma_socks5_hosts(octets: Seq<u8>, name: Seq<char>, rest: Seq<u8>)
    requires
        encode_utf8(name).len() <= 255,
    ensures
        octets.len() == 4 ==> socks5_host_of(1, octets + rest) == Ok::<
            (HostView, usize),
            SocksAddressError,
        >((HostView::Ip(IpAddr::V4(be::value(octets) as u32)), 4)),
        octets.len() == 16 ==> socks5_host_of(4, octets + rest) == Ok::<
            (HostView, usize),
            SocksAddressError,
        >((HostView::Ip(IpAddr::V6(be::value(octets) as u128)), 16)),
        socks5_host_of(3, seq![encode_utf8(name).len() as u8] + encode_utf8(name) + rest) == Ok::<
            (HostView, usize),
            SocksAddressError,
        >((HostView::Name(name), (1 + encode_utf8(name).len()) as usize)),
{
    let raw = encode_utf8(name);
    let data = seq![raw.len() as u8] + raw + rest;
    encode_utf8_decode_utf8(name);
    encode_utf8_valid_utf8(name);
    assert(data.subrange(1, 1 + data[0]) == raw);
    assert((octets + rest).take(octets.len() as int) == octets);
}

/// A port is any way to write a number of at most 65535, and nothing else.
pub proof fn lemma_port_texts(s: Seq<char>, n: nat)
    ensures
        text::decimal(s) == Some(n) && n <= 65535 ==> (port_of(s) matches Some(port) && port == n),
        text::decimal(s) == Some(n) && n > 65535 ==> port_of(s) is None,
        text::decimal(s) is None ==> port_of(s) is None,
{
}

/// Behind an address in brackets there must be a colon and a port, and what is
/// wrong is told apart.
pub proof fn lemma_bracketed_errors(literal: Seq<char>, ip: IpAddr, tail: Seq<char>)
    requires
        addr::ip_of(literal) == Some(ip),
    ensures
        ({
            let got = authority_of(seq!['['] + literal + seq![']'] + tail);
            &&& tail.len() == 0 || tail[0] != ':' ==> got == Err::<(HostView, u16), AuthorityError>(
                AuthorityError::MissingDelimiter,
            )
            &&& tail.len() > 0 && tail[0] == ':' ==> match port_of(tail.skip(1)) {
                Some(port) => got == Ok::<(HostView, u16), AuthorityError>(
                    (HostView::Ip(ip), port),
                ),
                None => got == Err::<(HostView, u16), AuthorityError>(AuthorityError::InvalidPort),
            }
        }),
{
    let s = seq!['['] + literal + seq![']'] + tail;
    let e = literal.len() as int + 1;
    addr::lemma_literal_chars(literal);
    assert forall|i: int| 0 <= i < e implies s[i] != ']' by {
        if i > 0 {
            assert(addr::literal_char(literal[i - 1]));
        }
    }
    text::lemma_find_first_unique(s, ']', e);
    assert(s.subrange(1, e) == literal);
    assert(s.skip(e + 1) == tail);
}

/// What follows the last colon is the port, and must be one; what stands before
/// it is the host, colons included.
pub proof fn lemma_host_and_port(host: Seq<char>, port: Seq<char>)
    requires
        host.len() == 0 || host[0] != '[',
        !port.contains(':'),
    ensures
        port_of(port) matches Some(n) ==> authority_of(host.push(':') + port) == Ok::<
            (HostView, u16),
            AuthorityError,
        >((host_of(host), n)),
        port_of(port) is None ==> authority_of(host.push(':') + port) == Err::<
            (HostView, u16),
            AuthorityError,
        >(AuthorityError::InvalidPort),
{
    let s = host.push(':') + port;
    let k = host.len() as int;
    assert forall|i: int| k < i < s.len() implies s[i] != ':' by {
        assert(port.contains(port[i - k - 1]));
    }
    text::lemma_find_last_unique(s, ':', k);
    assert(s.skip(k + 1) == port);
    assert(s.take(k) == host);
}

/// A packet of the client to an address is read byte by byte: the address, the
/// port with its higher byte first, and the rest as what is to be sent.
pub proof fn lemma_udp_read(octets: Seq<u8>, high: u8, low: u8, payload: Seq<u8>)
    ensures
        octets.len() == 4 ==> udp_request_of(
            seq![0u8, 0, 0, 1] + octets + seq![high, low] + payload,
        ) == Ok::<(HostView, u16, Seq<u8>), UdpRequestError>(
            (
                HostView::Ip(IpAddr::V4(be::value(octets) as u32)),
                (high * 256 + low) as u16,
                payload,
            ),
        ),
        octets.len() == 16 ==> udp_request_of(
            seq![0u8, 0, 0, 4] + octets + seq![high, low] + payload,
        ) == Ok::<(HostView, u16, Seq<u8>), UdpRequestError>(
            (
                HostView::Ip(IpAddr::V6(be::value(octets) as u128)),
                (high * 256 + low) as u16,
                payload,
            ),
        ),
{
    be::lemma_be_weights(high, low, 0, 0);
    let s4 = seq![0u8, 0, 0, 1] + octets + seq![high, low] + payload;
    let s6 = seq![0u8, 0, 0, 4] + octets + seq![high, low] + payload;
    let n = octets.len() as int;
    assert(s4.skip(4).take(n) == octets);
    assert(s6.skip(4).take(n) == octets);
    assert(s4.subrange(n + 4, n + 6) == seq![high, low]);
    assert(s6.subrange(n + 4, n + 6) == seq![high, low]);
    assert(s4.skip(n + 6) == payload);
    assert(s6.skip(n + 6) == payload);
}

/// How much is read of a client: 8192 bytes of an HTTP head, 1023 bytes of a
/// SOCKS4 field, 512 bytes to tell the protocol, and every UDP datagram whole.
pub proof fn lemma_limits(n: nat)
    ensures
        n > HTTP_HEADER_MAX_LEN <==> n >= 8193,
        n < SOCKS4_FIELD_MAX_LEN <==> n <= 1023,
        n <= PROBE_LEN <==> n < 513,
        n <= UDP_PACKET_MAX_LEN <==> n < 65536,
{
}

} // verus!
