use auto_server::addr::{IpAddr, SocketAddr};
use auto_server::connect::{
    answer, screen, Admission, ConnectAction, ConnectEvent, Connection, Dialled,
};
use auto_server::http_connect::{
    find_subsequence, parse_request, read_http_head, refuse, HeadStep, HttpError,
};
use auto_server::server::{AuthorityError, Host, Protocol};
use auto_server::socks4::{Socks4, Socks4Error, Socks4Step};
use auto_server::socks5::{Socks5, Socks5Error, Socks5Step};

fn at(ip: IpAddr, port: u16) -> SocketAddr {
    SocketAddr { ip, port }
}

/// Feeds a SOCKS5 handshake: everything that is sent, and the last step.
fn socks5(input: &[u8]) -> (Vec<u8>, Option<Socks5Step>) {
    let mut rest = input;
    let mut sent = Vec::new();
    let mut state = Socks5::Greeting;
    loop {
        let n = state.needs();
        if rest.len() < n {
            sent.extend(state.read_failed());
            return (sent, None);
        }
        let (now, later) = rest.split_at(n);
        rest = later;
        match state.next(now) {
            Socks5Step::Continue { reply, state: next } => {
                sent.extend(reply);
                state = next;
            }
            end => return (sent, Some(end)),
        }
    }
}

/// Feeds a SOCKS4 handshake.
fn socks4(input: &[u8]) -> Option<Socks4Step> {
    let mut rest = input;
    let mut state = Socks4::Head;
    loop {
        let n = state.needs();
        if rest.len() < n {
            return None;
        }
        let (now, later) = rest.split_at(n);
        rest = later;
        match state.next(now) {
            Socks4Step::Continue { state: next } => state = next,
            end => return Some(end),
        }
    }
}

const SOCKS5_UNSPECIFIED: [u8; 7] = [0, 1, 0, 0, 0, 0, 0];

/// The reply that reports a failure.
fn failure(rep: u8) -> Vec<u8> {
    let mut out = vec![5, rep];
    out.extend(SOCKS5_UNSPECIFIED);
    out.push(0);
    out
}

#[test]
fn socks5_connect_to_each_kind_of_address() {
    let (sent, end) = socks5(&[5, 2, 2, 0, 5, 1, 0, 1, 1, 2, 3, 4, 0, 80]);
    assert_eq!(sent, [5, 0]);
    match end {
        Some(Socks5Step::Connect { host, port }) => {
            assert_eq!(host, Host::Ip(IpAddr::v4(1, 2, 3, 4)));
            assert_eq!(port, 80);
        }
        _ => panic!("expected a connection"),
    }

    let mut v6 = vec![5, 1, 0, 5, 1, 0, 4];
    v6.extend([0; 15]);
    v6.extend([1, 1, 0xbb]);
    match socks5(&v6).1 {
        Some(Socks5Step::Connect { host, port }) => {
            assert_eq!(host, Host::Ip(IpAddr::V6(1)));
            assert_eq!(port, 443);
        }
        _ => panic!("expected a connection"),
    }

    let mut name = vec![5, 1, 0, 5, 3, 0, 3, 11];
    name.extend(b"example.com");
    name.extend([0, 53]);
    match socks5(&name).1 {
        Some(Socks5Step::Associate { host, port }) => {
            assert_eq!(host, Host::Name("example.com".to_string()));
            assert_eq!(port, 53);
        }
        _ => panic!("expected an association"),
    }
}

/// What a handshake ends with that is refused.
fn refused5(input: &[u8]) -> (Vec<u8>, Socks5Error) {
    match socks5(input) {
        (mut sent, Some(Socks5Step::Refuse { reply, error })) => {
            sent.extend(reply);
            (sent, error)
        }
        _ => panic!("expected a refusal"),
    }
}

#[test]
fn socks5_refusals() {
    assert_eq!(refused5(&[4, 1]), (vec![], Socks5Error::InvalidVersion));
    assert_eq!(
        refused5(&[5, 1, 2]),
        (vec![5, 0xff], Socks5Error::NoAcceptableMethod)
    );
    assert_eq!(
        refused5(&[5, 0]),
        (vec![5, 0xff], Socks5Error::NoAcceptableMethod)
    );
    assert_eq!(
        refused5(&[5, 1, 0, 4, 1, 0, 1]),
        (vec![5, 0], Socks5Error::InvalidRequestVersion)
    );

    let mut sent = vec![5, 0];
    sent.extend(failure(8));
    assert_eq!(
        refused5(&[5, 1, 0, 5, 1, 0, 9]),
        (sent.clone(), Socks5Error::UnsupportedAddressType(9))
    );
    assert_eq!(
        refused5(&[5, 1, 0, 5, 1, 0, 3, 1, 0xff]),
        (sent, Socks5Error::InvalidDomain)
    );

    let mut sent = vec![5, 0];
    sent.extend(failure(7));
    assert_eq!(
        refused5(&[5, 1, 0, 5, 2, 0, 1, 1, 2, 3, 4, 0, 80]),
        (sent, Socks5Error::UnsupportedCommand(2))
    );
}

#[test]
fn socks5_answers_a_target_that_breaks_off() {
    // In the greeting and in the head of the request nothing is sent.
    assert_eq!(socks5(&[5]).0, []);
    assert_eq!(socks5(&[5, 1, 0, 5, 1]).0, [5, 0]);
    // In the address, the domain and the port a failure is reported.
    let mut sent = vec![5, 0];
    sent.extend(failure(8));
    for broken in [
        &[5u8, 1, 0, 5, 1, 0, 1, 1, 2][..],
        &[5, 1, 0, 5, 1, 0, 3],
        &[5, 1, 0, 5, 1, 0, 3, 4, b'a'],
        &[5, 1, 0, 5, 1, 0, 1, 1, 2, 3, 4, 0],
    ] {
        assert_eq!(socks5(broken).0, sent);
    }
}

#[test]
fn socks4_addresses_and_names() {
    match socks4(&[4, 1, 0, 80, 1, 2, 3, 4, b'u', b's', 0]) {
        Some(Socks4Step::Connect { host, port }) => {
            assert_eq!(host, Host::Ip(IpAddr::v4(1, 2, 3, 4)));
            assert_eq!(port, 80);
        }
        _ => panic!("expected a connection"),
    }
    // 0.0.0.x with x not zero announces a name behind the user ID.
    match socks4(&[4, 1, 1, 0xbb, 0, 0, 0, 7, 0, b'a', b'.', b'b', 0]) {
        Some(Socks4Step::Connect { host, port }) => {
            assert_eq!(host, Host::Name("a.b".to_string()));
            assert_eq!(port, 443);
        }
        _ => panic!("expected a connection"),
    }
    // 0.0.0.0 does not.
    match socks4(&[4, 1, 0, 1, 0, 0, 0, 0, 0]) {
        Some(Socks4Step::Connect { host, .. }) => assert_eq!(host, Host::Ip(IpAddr::V4(0))),
        _ => panic!("expected a connection"),
    }
    assert!(socks4(&[4, 1, 0, 1, 1, 1, 1, 1, b'x']).is_none());
}

/// What a handshake ends with that is refused.
fn refused4(input: &[u8]) -> (Vec<u8>, Socks4Error) {
    match socks4(input) {
        Some(Socks4Step::Refuse { reply, error }) => (reply, error),
        _ => panic!("expected a refusal"),
    }
}

#[test]
fn socks4_refusals() {
    assert_eq!(
        refused4(&[5, 1, 0, 80, 1, 2, 3, 4]),
        (vec![], Socks4Error::InvalidVersion)
    );
    assert_eq!(
        refused4(&[4, 2, 0, 80, 1, 2, 3, 4]),
        (
            vec![0, 0x5b, 0, 0, 0, 0, 0, 0],
            Socks4Error::UnsupportedCommand(2)
        )
    );
    let mut long = vec![4, 1, 0, 80, 1, 2, 3, 4];
    long.extend([b'u'; 1024]);
    assert_eq!(refused4(&long), (vec![], Socks4Error::UserIdTooLong));
    let mut long = vec![4, 1, 0, 80, 0, 0, 0, 1, 0];
    long.extend([b'd'; 1024]);
    assert_eq!(refused4(&long), (vec![], Socks4Error::DomainTooLong));
    assert_eq!(
        refused4(&[4, 1, 0, 80, 0, 0, 0, 1, 0, 0xff, 0]),
        (vec![], Socks4Error::InvalidDomain)
    );
    // One byte less is not too long.
    let mut most = vec![4, 1, 0, 80, 1, 2, 3, 4];
    most.extend([b'u'; 1023]);
    most.push(0);
    assert!(matches!(socks4(&most), Some(Socks4Step::Connect { .. })));
}

#[test]
fn subsequences() {
    assert_eq!(find_subsequence(b"abcabc", b"ca"), Some(2));
    assert_eq!(find_subsequence(b"aaab", b"aab"), Some(1));
    assert_eq!(find_subsequence(b"abc", b"abcd"), None);
    assert_eq!(find_subsequence(b"", b"a"), None);
}

#[test]
fn http_heads_come_in_chunks() {
    let mut buffer = Vec::new();
    assert!(matches!(
        read_http_head(&mut buffer, b"CONNECT a:1 HTTP/1.1\r\n\r"),
        HeadStep::More
    ));
    match read_http_head(&mut buffer, b"\nearly") {
        HeadStep::Complete { head, pending } => {
            assert_eq!(head, b"CONNECT a:1 HTTP/1.1\r\n\r\n");
            assert_eq!(pending, b"early");
        }
        _ => panic!("expected a head"),
    }
    let mut closed = Vec::new();
    assert!(matches!(read_http_head(&mut closed, b""), HeadStep::Closed));
}

#[test]
fn http_heads_that_are_too_long() {
    let mut buffer = Vec::new();
    for _ in 0..8 {
        assert!(matches!(
            read_http_head(&mut buffer, &[b'x'; 1024]),
            HeadStep::More
        ));
    }
    assert_eq!(buffer.len(), 8192);
    assert!(matches!(
        read_http_head(&mut buffer, b"x"),
        HeadStep::TooLong
    ));
    // What is complete is taken, though it is longer.
    let mut whole = vec![b'x'; 8190];
    assert!(matches!(
        read_http_head(&mut whole, b"xxxx\r\n\r\n"),
        HeadStep::Complete { .. }
    ));
}

#[test]
fn http_requests() {
    assert_eq!(
        parse_request(b"CONNECT example.com:443 HTTP/1.1\r\nHost: x\r\n\r\n"),
        Ok((Host::Name("example.com".to_string()), 443))
    );
    assert_eq!(
        parse_request(b"  CONNECT \t [::1]:80\r\n\r\n"),
        Ok((Host::Ip(IpAddr::V6(1)), 80))
    );
    assert_eq!(
        parse_request(b"GET / HTTP/1.1\r\n\r\n"),
        Err(HttpError::MethodNotAllowed)
    );
    assert_eq!(
        parse_request(b"\r\n\r\n"),
        Err(HttpError::MethodNotAllowed)
    );
    assert_eq!(parse_request(b""), Err(HttpError::MissingRequestLine));
    assert_eq!(
        parse_request(b"CONNECT \xff\r\n\r\n"),
        Err(HttpError::NotUtf8)
    );
    assert_eq!(
        parse_request(b"CONNECT\r\n\r\n"),
        Err(HttpError::Authority(AuthorityError::Empty))
    );
    assert_eq!(
        refuse(HttpError::MethodNotAllowed),
        b"HTTP/1.1 405 Method Not Allowed\r\nConnection: close\r\n\r\n"
    );
    assert_eq!(refuse(HttpError::NotUtf8), b"");
}

#[test]
fn answers_to_connection_attempts() {
    let local = at(IpAddr::v4(10, 0, 0, 1), 4660);
    assert_eq!(
        answer(Protocol::Socks5, Dialled::Connected(local)),
        (vec![5, 0, 0, 1, 10, 0, 0, 1, 0x12, 0x34], true)
    );
    let local6 = at(IpAddr::V6(1), 1);
    let mut reply = vec![5, 0, 0, 4];
    reply.extend([0; 15]);
    reply.extend([1, 0, 1]);
    assert_eq!(
        answer(Protocol::Socks5, Dialled::Connected(local6)),
        (reply, true)
    );
    assert_eq!(answer(Protocol::Socks5, Dialled::Failed), (failure(5), false));
    assert_eq!(
        answer(Protocol::Socks4, Dialled::Connected(local)),
        (vec![0, 0x5a, 0, 0, 0, 0, 0, 0], true)
    );
    assert_eq!(
        answer(Protocol::Socks4, Dialled::Failed),
        (vec![0, 0x5b, 0, 0, 0, 0, 0, 0], false)
    );
    assert_eq!(
        answer(Protocol::HttpConnect, Dialled::Connected(local)),
        (
            b"HTTP/1.1 200 Connection Established\r\n\r\n".to_vec(),
            true
        )
    );
    assert_eq!(
        answer(Protocol::HttpConnect, Dialled::Failed),
        (
            b"HTTP/1.1 502 Bad Gateway\r\nConnection: close\r\n\r\n".to_vec(),
            false
        )
    );
    for protocol in [Protocol::Socks4, Protocol::Socks5, Protocol::HttpConnect] {
        assert_eq!(answer(protocol, Dialled::TimedOut), (vec![], false));
    }
}

#[test]
fn special_destinations_are_refused_on_demand() {
    let loopback = at(IpAddr::v4(127, 0, 0, 1), 22);
    let public = at(IpAddr::v4(1, 1, 1, 1), 22);
    for protocol in [Protocol::Socks4, Protocol::Socks5, Protocol::HttpConnect] {
        assert!(matches!(screen(protocol, false, loopback), Admission::Dial(a) if a == loopback));
        assert!(matches!(screen(protocol, true, public), Admission::Dial(a) if a == public));
    }
    let reply = |protocol| match screen(protocol, true, loopback) {
        Admission::Refuse(reply) => reply,
        Admission::Dial(_) => panic!("expected a refusal"),
    };
    assert_eq!(reply(Protocol::Socks4), [0, 0x5b, 0, 0, 0, 0, 0, 0]);
    assert_eq!(reply(Protocol::Socks5), failure(2));
    assert_eq!(
        reply(Protocol::HttpConnect),
        b"HTTP/1.1 403 Forbidden\r\nConnection: close\r\n\r\n"
    );
}

#[test]
fn connections_open_step_by_step() {
    let name = Host::Name("example.com".to_string());
    let (mut state, action) =
        Connection::start(Protocol::HttpConnect, true, name, 443, b"early".to_vec());
    assert!(matches!(action, ConnectAction::Resolve));
    let public = at(IpAddr::v4(1, 1, 1, 1), 443);
    assert!(
        matches!(state.step(true, ConnectEvent::Resolved(public)), ConnectAction::Dial(a) if a == public)
    );
    let local = at(IpAddr::v4(10, 0, 0, 1), 5000);
    match state.step(true, ConnectEvent::Dialled(Dialled::Connected(local))) {
        ConnectAction::Open { reply, pending } => {
            assert_eq!(reply, b"HTTP/1.1 200 Connection Established\r\n\r\n");
            assert_eq!(pending, b"early");
        }
        _ => panic!("expected to open"),
    }
    assert!(matches!(state, Connection::Open));
}

#[test]
fn connections_that_fail() {
    let name = || Host::Name("example.com".to_string());
    let reply = |action| match action {
        ConnectAction::Close(reply) => reply,
        _ => panic!("expected to close"),
    };
    let loopback = at(IpAddr::v4(127, 0, 0, 1), 22);
    // A refused address, named and literal.
    let (mut state, _) = Connection::start(Protocol::Socks4, true, name(), 22, vec![]);
    assert_eq!(
        reply(state.step(true, ConnectEvent::Resolved(loopback))),
        [0, 0x5b, 0, 0, 0, 0, 0, 0]
    );
    assert!(matches!(state, Connection::Closed));
    let (_, action) =
        Connection::start(Protocol::Socks5, true, Host::Ip(loopback.ip), 22, vec![]);
    assert_eq!(reply(action), failure(2));
    // A name that is not found is not answered.
    let (mut state, _) = Connection::start(Protocol::Socks5, false, name(), 22, vec![]);
    assert_eq!(reply(state.step(false, ConnectEvent::ResolveFailed)), []);
    // A failure is answered, a timeout is not.
    for (outcome, expected) in [(Dialled::Failed, failure(5)), (Dialled::TimedOut, vec![])] {
        let (mut state, action) =
            Connection::start(Protocol::Socks5, false, Host::Ip(loopback.ip), 22, vec![]);
        assert!(matches!(action, ConnectAction::Dial(a) if a == loopback));
        assert_eq!(
            reply(state.step(false, ConnectEvent::Dialled(outcome))),
            expected
        );
    }
}
