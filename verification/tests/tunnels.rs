use auto_server::addr::{IpAddr, SocketAddr};
use auto_server::capsule::{
    decode_address_assign, decode_route_advertisement, encode_address_request, encode_capsule,
    AssignedAddress, IpRange, CAPSULE_ROUTE_ADVERTISEMENT,
};
use auto_server::ext::Protocol;
use auto_server::ip_tunnel::{
    choose_mtu, default_route_for, downlink, echo_id, uplink, IpAction, IpEvent, IpSession,
    IpTunnel,
};
use auto_server::masque::{ConnectRequest, Dispatch, StatusCode};
use auto_server::pem::{choose_key, load_certs, load_key, KeyFormat, PemError};
use auto_server::routes::Routes;
use auto_server::server::Host;
use auto_server::tun::IpPool;
use auto_server::tunnel::{
    accept, pump_to_client, pump_to_target, Chunk, Pumped, TcpAction, TcpEvent, TcpTunnel,
    UdpAction, UdpEvent, UdpTunnel,
};

const TOKEN: Option<&str> = Some("s3cr3t");

/// A request that every tunnel would authorize.
fn request(protocol: &str, path: &str, authority: &str) -> ConnectRequest {
    ConnectRequest {
        method: "CONNECT".to_string(),
        protocol: Protocol::from_str(protocol).ok(),
        path: path.to_string(),
        authority: Some(authority.to_string()),
        capsule_protocol: Some(b"?1".to_vec()),
        proxy_authorization: Some(b"Bearer s3cr3t".to_vec()),
    }
}

fn udp_request() -> ConnectRequest {
    request("connect-udp", "/.well-known/masque/udp/example.com/443/", "proxy")
}

fn public() -> SocketAddr {
    SocketAddr {
        ip: IpAddr::v4(1, 1, 1, 1),
        port: 443,
    }
}

fn loopback() -> SocketAddr {
    SocketAddr {
        ip: IpAddr::v4(127, 0, 0, 1),
        port: 443,
    }
}

/// A UDP tunnel that relays.
fn relaying() -> UdpTunnel {
    let (mut tunnel, _) = UdpTunnel::start(&udp_request(), TOKEN);
    tunnel.step(false, UdpEvent::Resolved(public()));
    tunnel.step(false, UdpEvent::Opened);
    tunnel
}

#[test]
fn udp_tunnels_open_step_by_step() {
    let (mut tunnel, action) = UdpTunnel::start(&udp_request(), TOKEN);
    assert!(matches!(action, UdpAction::Resolve));
    match &tunnel {
        UdpTunnel::Resolving { host, port } => {
            assert_eq!(*host, Host::Name("example.com".to_string()));
            assert_eq!(*port, 443);
        }
        _ => panic!("expected a lookup"),
    }
    // Nothing is relayed yet.
    assert!(matches!(
        tunnel.step(true, UdpEvent::FromClient(&[0, 1, 7])),
        UdpAction::Nothing
    ));
    match tunnel.step(true, UdpEvent::Resolved(public())) {
        UdpAction::Open { bind, target } => {
            assert_eq!(
                bind,
                SocketAddr {
                    ip: IpAddr::V4(0),
                    port: 0
                }
            );
            assert_eq!(target, public());
        }
        _ => panic!("expected to open"),
    }
    match tunnel.step(true, UdpEvent::Opened) {
        UdpAction::Reply(reply) => assert_eq!(reply, accept(true)),
        _ => panic!("expected a reply"),
    }
    assert!(matches!(tunnel, UdpTunnel::Relaying { .. }));
}

#[test]
fn udp_tunnels_relay_both_ways() {
    let mut tunnel = relaying();
    match tunnel.step(false, UdpEvent::FromClient(&[0, 3, 1, 2, 3])) {
        UdpAction::ToTarget(payload) => assert_eq!(payload.as_ref(), [1, 2, 3]),
        _ => panic!("expected to forward"),
    }
    assert!(matches!(
        tunnel.step(false, UdpEvent::FromClient(&[1, 3, 1, 2, 3])),
        UdpAction::Nothing
    ));
    match tunnel.step(
        false,
        UdpEvent::FromTarget {
            payload: &[9, 8],
            max_datagram: Some(1200),
        },
    ) {
        UdpAction::ToClient(datagram) => assert_eq!(datagram.as_ref(), [0, 2, 9, 8]),
        _ => panic!("expected to answer"),
    }
    assert!(matches!(
        tunnel.step(
            false,
            UdpEvent::FromTarget {
                payload: &[0; 1200],
                max_datagram: Some(1200)
            }
        ),
        UdpAction::Nothing
    ));
    assert!(matches!(tunnel, UdpTunnel::Relaying { target } if target == public()));
}

#[test]
fn udp_tunnels_end() {
    for event in [
        UdpEvent::TargetFailed,
        UdpEvent::ClientGone,
        UdpEvent::SendFailed,
    ] {
        let mut tunnel = relaying();
        assert!(matches!(tunnel.step(false, event), UdpAction::Finish));
        assert!(matches!(tunnel, UdpTunnel::Closed));
        assert!(matches!(
            tunnel.step(false, UdpEvent::Opened),
            UdpAction::Nothing
        ));
    }
    let (mut tunnel, _) = UdpTunnel::start(&udp_request(), TOKEN);
    assert!(matches!(
        tunnel.step(false, UdpEvent::ResolveFailed),
        UdpAction::Fail
    ));
    let (mut tunnel, _) = UdpTunnel::start(&udp_request(), TOKEN);
    tunnel.step(false, UdpEvent::Resolved(public()));
    assert!(matches!(
        tunnel.step(false, UdpEvent::OpenFailed),
        UdpAction::Fail
    ));
}

#[test]
fn udp_tunnels_are_refused() {
    let (tunnel, action) = UdpTunnel::start(&udp_request(), Some("other"));
    match action {
        UdpAction::Reply(reply) => {
            assert_eq!(reply.status, StatusCode::ProxyAuthenticationRequired);
            assert!(reply.proxy_authenticate);
        }
        _ => panic!("expected a reply"),
    }
    assert!(matches!(tunnel, UdpTunnel::Closed));

    let (mut tunnel, _) = UdpTunnel::start(&udp_request(), TOKEN);
    match tunnel.step(true, UdpEvent::Resolved(loopback())) {
        UdpAction::Reply(reply) => assert_eq!(reply.status, StatusCode::Forbidden),
        _ => panic!("expected a reply"),
    }
    assert!(matches!(tunnel, UdpTunnel::Closed));
}

#[test]
fn tcp_tunnels_open_step_by_step() {
    let plain = request("", "/", "example.com:443");
    let socket = request("websocket", "/", "example.com:443");
    for (mut tunnel, action) in [
        TcpTunnel::start(&plain, TOKEN),
        TcpTunnel::start_websocket(&socket, TOKEN),
    ] {
        assert_eq!(action, TcpAction::Resolve);
        assert_eq!(
            tunnel.step(true, TcpEvent::Resolved(public())),
            TcpAction::Dial(public())
        );
        assert_eq!(
            tunnel.step(true, TcpEvent::Connected),
            TcpAction::Reply(accept(false))
        );
        assert!(matches!(tunnel, TcpTunnel::Piping));
        assert_eq!(
            tunnel.step(true, TcpEvent::ConnectFailed),
            TcpAction::Nothing
        );
    }
}

#[test]
fn tcp_tunnels_are_refused() {
    let plain = request("", "/", "example.com:443");
    let status = |action| match action {
        TcpAction::Reply(reply) => reply.status,
        _ => panic!("expected a reply"),
    };
    let (mut tunnel, _) = TcpTunnel::start(&plain, TOKEN);
    assert_eq!(
        status(tunnel.step(true, TcpEvent::Resolved(loopback()))),
        StatusCode::Forbidden
    );
    let (mut tunnel, _) = TcpTunnel::start(&plain, TOKEN);
    tunnel.step(false, TcpEvent::Resolved(loopback()));
    assert_eq!(
        status(tunnel.step(false, TcpEvent::ConnectFailed)),
        StatusCode::BadGateway
    );
    let (mut tunnel, _) = TcpTunnel::start(&plain, TOKEN);
    assert_eq!(
        tunnel.step(false, TcpEvent::ResolveFailed),
        TcpAction::Fail
    );
    let socket = request("websocket", "/", "example.com:443");
    assert_eq!(
        status(TcpTunnel::start(&socket, TOKEN).1),
        StatusCode::NotImplemented
    );
    assert_eq!(
        status(TcpTunnel::start_websocket(&plain, TOKEN).1),
        StatusCode::NotImplemented
    );
    let nowhere = request("", "/", "example.com");
    assert_eq!(
        status(TcpTunnel::start(&nowhere, TOKEN).1),
        StatusCode::BadRequest
    );
}

/// Runs one direction of a pipe over what its sender produces: what the
/// receiver gets, and whether it sees the end.
fn run_direction(pump: fn(Chunk) -> Pumped, chunks: Vec<Chunk>) -> (Vec<u8>, bool) {
    let mut got = Vec::new();
    for chunk in chunks {
        match pump(chunk) {
            Pumped::Write(data) => got.extend(data),
            Pumped::Close => return (got, true),
            Pumped::Stop => return (got, false),
        }
    }
    (got, false)
}

#[test]
fn tcp_connect_pipe_logic_round_trips_and_eof_closes() {
    let payload = b"plain-tcp-connect-pipe-roundtrip";
    // The client sends the payload in two parts, then closes its side.
    let sent = vec![
        Chunk::Data(payload[..9].to_vec()),
        Chunk::Data(payload[9..].to_vec()),
        Chunk::End,
    ];
    let (at_target, eof) = run_direction(pump_to_target, sent);
    assert!(eof, "the target must see the end");
    // The target echoes what it got, and closes.
    let echoed = vec![Chunk::Data(at_target), Chunk::End];
    let (got, eof) = run_direction(pump_to_client, echoed);
    assert!(eof, "the client must see the end");
    assert_eq!(
        got, payload,
        "payload must round-trip intact through the tunnel"
    );
}

#[test]
fn failures_end_a_pipe() {
    assert_eq!(
        run_direction(pump_to_target, vec![Chunk::Data(vec![1]), Chunk::Failed]),
        (vec![1], false)
    );
    assert_eq!(
        run_direction(pump_to_client, vec![Chunk::Data(vec![1]), Chunk::Failed]),
        (vec![1], true)
    );
}

/// A session on the first block of the default pool.
fn session() -> IpSession {
    let mut pool = IpPool::new("198.18.0.0/15").unwrap();
    let req = request("connect-ip", "/.well-known/masque/ip/", "proxy");
    IpSession::open(&req, TOKEN, &mut pool, Some(1200)).unwrap_or_else(|_| panic!("opens"))
}

#[test]
fn sessions_take_blocks() {
    let mut pool = IpPool::new("10.0.0.0/30").unwrap();
    let req = request("connect-ip", "/.well-known/masque/ip/", "proxy");
    // A request that is refused takes none.
    assert!(matches!(
        IpSession::open(&req, Some("other"), &mut pool, None),
        Err(StatusCode::ProxyAuthenticationRequired)
    ));
    match IpSession::open(&req, TOKEN, &mut pool, None) {
        Ok(s) => {
            assert_eq!(s.proxy, IpAddr::v4(10, 0, 0, 1));
            assert_eq!(s.client, IpAddr::v4(10, 0, 0, 2));
            assert_eq!(s.prefix, 30);
            assert_eq!(s.mtu, None);
        }
        Err(_) => panic!("expected a session"),
    }
    assert!(matches!(
        IpSession::open(&req, TOKEN, &mut pool, None),
        Err(StatusCode::ServiceUnavailable)
    ));
    assert_eq!(session().mtu, Some(1152));
}

#[test]
fn ip_tunnels_open_and_relay() {
    let mut pool = IpPool::new("198.18.0.0/15").unwrap();
    let req = request("connect-ip", "/.well-known/masque/ip/", "proxy");
    let (mut tunnel, action) = IpTunnel::start(&req, TOKEN, &mut pool, Some(1200));
    match action {
        IpAction::Create {
            proxy,
            client,
            prefix,
            mtu,
        } => {
            assert_eq!(proxy, IpAddr::v4(198, 18, 0, 1));
            assert_eq!(client, IpAddr::v4(198, 18, 0, 2));
            assert_eq!((prefix, mtu), (30, Some(1152)));
        }
        _ => panic!("expected a device"),
    }
    assert!(matches!(
        tunnel.step(IpEvent::FromClient(&[0, 0x45])),
        IpAction::Nothing
    ));
    match tunnel.step(IpEvent::Created) {
        IpAction::Open { reply, capsules } => {
            assert_eq!(reply, accept(true));
            assert_eq!(capsules.len(), 2);
            assert_eq!(capsules[0], session().assign(0));
            assert_eq!(capsules[1], session().advertise());
        }
        _ => panic!("expected to open"),
    }
    match tunnel.step(IpEvent::FromClient(&[0, 0x45])) {
        IpAction::ToDevice(packet) => assert_eq!(packet, [0x45]),
        _ => panic!("expected a packet"),
    }
    match tunnel.step(IpEvent::FromDevice {
        packet: &[0x45, 1],
        max_datagram: Some(1200),
    }) {
        IpAction::ToClient(datagram) => assert_eq!(datagram.as_ref(), [0, 0x45, 1]),
        _ => panic!("expected a datagram"),
    }
    assert!(matches!(
        tunnel.step(IpEvent::FromDevice {
            packet: &[0; 1200],
            max_datagram: Some(1200)
        }),
        IpAction::Nothing
    ));
    let ask = encode_address_request(&[AssignedAddress {
        request_id: 3,
        address: IpAddr::V4(0),
        prefix_len: 32,
    }]);
    match tunnel.step(IpEvent::FromStream(&ask)) {
        IpAction::ToStream(capsules) => assert_eq!(capsules, [session().assign(3)]),
        _ => panic!("expected capsules"),
    }
    assert!(matches!(
        tunnel.step(IpEvent::AnswerFailed),
        IpAction::Nothing
    ));
    assert!(matches!(
        tunnel.step(IpEvent::FromClient(&[0, 0x45])),
        IpAction::ToDevice(_)
    ));
    assert!(matches!(
        tunnel.step(IpEvent::DeviceFailed),
        IpAction::Finish
    ));
    assert!(matches!(tunnel, IpTunnel::Closed));
}

#[test]
fn ip_tunnels_are_refused() {
    let mut pool = IpPool::new("198.18.0.0/30").unwrap();
    let req = request("connect-ip", "/.well-known/masque/ip/", "proxy");
    let status = |action| match action {
        IpAction::Reply(reply) => reply.status,
        _ => panic!("expected a reply"),
    };
    assert_eq!(
        status(IpTunnel::start(&req, None, &mut pool, None).1),
        StatusCode::ProxyAuthenticationRequired
    );
    let (mut tunnel, _) = IpTunnel::start(&req, TOKEN, &mut pool, None);
    assert_eq!(
        status(tunnel.step(IpEvent::CreateFailed)),
        StatusCode::InternalServerError
    );
    assert_eq!(
        status(IpTunnel::start(&req, TOKEN, &mut pool, None).1),
        StatusCode::ServiceUnavailable
    );
}

#[test]
fn mtus() {
    assert_eq!(choose_mtu(Some(1200)), Some(1152));
    assert_eq!(choose_mtu(Some(49)), Some(1));
    assert_eq!(choose_mtu(Some(48)), None);
    assert_eq!(choose_mtu(Some(0)), None);
    assert_eq!(choose_mtu(None), None);
    assert_eq!(default_route_for(IpAddr::v4(1, 2, 3, 4)), IpAddr::V4(0));
    assert_eq!(default_route_for(IpAddr::V6(5)), IpAddr::V6(0));
}

#[test]
fn clients_learn_address_and_route() {
    let s = session();
    assert_eq!(
        decode_address_assign(&s.assign(0)),
        Some(vec![AssignedAddress {
            request_id: 0,
            address: IpAddr::v4(198, 18, 0, 2),
            prefix_len: 30
        }])
    );
    assert_eq!(
        decode_route_advertisement(&s.advertise()),
        Some(vec![IpRange {
            start: IpAddr::V4(0),
            end: IpAddr::V4(u32::MAX),
            ip_protocol: 0
        }])
    );
}

#[test]
fn packets_pass_unchanged() {
    let packet = [0x45u8, 0, 0, 20];
    let datagram = downlink(&packet, Some(1200)).expect("fits");
    assert_eq!(datagram.as_ref(), [0, 0x45, 0, 0, 20]);
    assert_eq!(uplink(&datagram), Some(&packet[..]));
    assert!(downlink(&[], Some(1200)).is_none());
    assert!(downlink(&[0; 1192], Some(1200)).is_none());
    assert!(downlink(&[0; 1191], Some(1200)).is_some());
    assert_eq!(uplink(&[0]), None);
    assert_eq!(uplink(&[1, 0x45]), None);
}

#[test]
fn address_requests_are_answered() {
    let ask = |id| {
        encode_address_request(&[AssignedAddress {
            request_id: id,
            address: IpAddr::V4(0),
            prefix_len: 32,
        }])
    };
    let mut s = session();
    let mut stream = ask(7).to_vec();
    stream.extend_from_slice(&encode_capsule(CAPSULE_ROUTE_ADVERTISEMENT, &[]));
    stream.extend_from_slice(&encode_capsule(0x99, b"unknown"));
    stream.extend_from_slice(&ask(8));
    // It does not matter how the stream is cut.
    for cut in 0..stream.len() {
        let mut answers = s.on_stream(&stream[..cut]);
        answers.extend(s.on_stream(&stream[cut..]));
        assert_eq!(answers.len(), 2);
        assert_eq!(answers[0], s.assign(7));
        assert_eq!(answers[1], s.assign(8));
        assert!(s.buffer.is_empty());
    }
    assert_eq!(echo_id(&[]), 0);
    assert_eq!(echo_id(&[0xff]), 0);
    assert_eq!(echo_id(&[0x09, 4, 1, 2, 3, 4, 32]), 9);
}

#[test]
fn streams_have_their_own_inboxes() {
    let mut routes: Routes<&str> = Routes::new();
    assert!(routes.inbox(0).is_none());
    routes.register(0, "a");
    routes.register(4, "b");
    assert_eq!(routes.inbox(0), Some(&"a"));
    assert_eq!(routes.inbox(4), Some(&"b"));
    routes.unregister(0);
    assert_eq!(routes.inbox(0), None);
    assert_eq!(routes.inbox(4), Some(&"b"));
    routes.clear();
    assert_eq!(routes.inbox(4), None);
}

#[test]
fn only_datagram_tunnels_get_an_inbox() {
    let mut routes: Routes<u8> = Routes::new();
    assert_eq!(routes.accept(0, &udp_request(), 1), Dispatch::Udp);
    let ip = request("connect-ip", "/.well-known/masque/ip/", "proxy");
    assert_eq!(routes.accept(4, &ip, 2), Dispatch::Ip);
    let plain = request("", "/", "example.com:443");
    assert_eq!(routes.accept(8, &plain, 3), Dispatch::Tcp);
    let socket = request("websocket", "/", "example.com:443");
    assert_eq!(routes.accept(12, &socket, 4), Dispatch::WebSocket);
    assert_eq!(routes.inbox(0), Some(&1));
    assert_eq!(routes.inbox(4), Some(&2));
    assert_eq!(routes.inbox(8), None);
    assert_eq!(routes.inbox(12), None);
}

#[test]
fn pem_files() {
    let two = b"-----BEGIN CERTIFICATE-----\nAQID\n-----END CERTIFICATE-----\n\
        -----BEGIN CERTIFICATE-----\nBA==\n-----END CERTIFICATE-----\n";
    assert_eq!(load_certs(two), Ok(vec![vec![1, 2, 3], vec![4]]));
    assert_eq!(load_certs(b"no PEM at all"), Ok(vec![]));
    for (label, format) in [
        ("RSA PRIVATE KEY", KeyFormat::Pkcs1),
        ("EC PRIVATE KEY", KeyFormat::Sec1),
        ("PRIVATE KEY", KeyFormat::Pkcs8),
    ] {
        let text = format!("-----BEGIN {label}-----\nBQYH\n-----END {label}-----\n");
        let key = load_key(text.as_bytes()).expect("a key");
        assert_eq!(key.format, format);
        assert_eq!(key.der, [5, 6, 7]);
    }
    assert_eq!(load_key(two).unwrap_err(), PemError::NoKey);
    assert_eq!(choose_key(None).unwrap_err(), PemError::InvalidKey);
    assert_eq!(choose_key(Some(None)).unwrap_err(), PemError::NoKey);
    assert_eq!(
        choose_key(Some(Some((1, vec![2])))).unwrap().format,
        KeyFormat::Pkcs1
    );
}
