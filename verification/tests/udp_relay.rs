use auto_server::addr::{IpAddr, SocketAddr};
use auto_server::server::Host;
use auto_server::udp_relay::{associate_reply, bind_address, RelayAction, UdpRelay};

fn at(a: u8, port: u16) -> SocketAddr {
    SocketAddr {
        ip: IpAddr::v4(198, 41, 0, a),
        port,
    }
}

/// A request to relay `payload` to an IPv4 address.
fn to_v4(ip: [u8; 4], port: u16, payload: &[u8]) -> Vec<u8> {
    let mut out = vec![0, 0, 0, 1];
    out.extend(ip);
    out.extend(port.to_be_bytes());
    out.extend(payload);
    out
}

/// A request to relay `payload` to a name.
fn to_name(name: &str, port: u16, payload: &[u8]) -> Vec<u8> {
    let mut out = vec![0, 0, 0, 3, name.len() as u8];
    out.extend(name.as_bytes());
    out.extend(port.to_be_bytes());
    out.extend(payload);
    out
}

/// A relay whose client is not known yet.
fn fresh(block: bool) -> UdpRelay {
    UdpRelay::new(&Host::Ip(IpAddr::V4(0)), 0, block)
}

#[test]
fn datagrams_pass_both_ways() {
    let mut relay = fresh(false);
    match relay.on_datagram(at(1, 1000), &to_v4([198, 41, 0, 9], 53, b"ask")) {
        RelayAction::Forward { target, payload } => {
            assert_eq!(target, at(9, 53));
            assert_eq!(payload, b"ask");
        }
        _ => panic!("expected to forward"),
    }
    match relay.on_datagram(at(9, 53), &[0xc0, 1, 2, 3, 4]) {
        RelayAction::ToClient { client, packet } => {
            assert_eq!(client, at(1, 1000));
            assert_eq!(packet, to_v4([198, 41, 0, 9], 53, &[0xc0, 1, 2, 3, 4]));
        }
        _ => panic!("expected to answer"),
    }
}

#[test]
fn a_client_may_move() {
    let mut relay = fresh(false);
    let packet = to_v4([198, 41, 0, 9], 53, b"x");
    relay.on_datagram(at(1, 1000), &packet);
    assert!(matches!(
        relay.on_datagram(at(2, 2000), &packet),
        RelayAction::Forward { .. }
    ));
    match relay.on_datagram(at(9, 53), &[0x40]) {
        RelayAction::ToClient { client, .. } => assert_eq!(client, at(2, 2000)),
        _ => panic!("expected to answer"),
    }
}

#[test]
fn names_are_looked_up_once() {
    let mut relay = fresh(false);
    let packet = to_name("example.com", 443, b"hello");
    match relay.on_datagram(at(1, 1000), &packet) {
        RelayAction::Resolve {
            host,
            port,
            payload,
        } => {
            assert_eq!(host, Host::Name("example.com".to_string()));
            assert_eq!(port, 443);
            match relay.on_resolved(host, port, at(7, 443), payload) {
                RelayAction::Forward { target, payload } => {
                    assert_eq!(target, at(7, 443));
                    assert_eq!(payload, b"hello");
                }
                _ => panic!("expected to forward"),
            }
        }
        _ => panic!("expected a lookup"),
    }
    assert!(
        matches!(relay.on_datagram(at(1, 1000), &packet), RelayAction::Forward { target, .. } if target == at(7, 443))
    );
    // Another port is another destination.
    assert!(matches!(
        relay.on_datagram(at(1, 1000), &to_name("example.com", 80, b"")),
        RelayAction::Resolve { .. }
    ));
}

#[test]
fn special_destinations_are_dropped_on_demand() {
    let mut relay = fresh(true);
    assert!(matches!(
        relay.on_datagram(at(1, 1000), &to_v4([127, 0, 0, 1], 53, b"x")),
        RelayAction::Drop
    ));
    let loopback = SocketAddr {
        ip: IpAddr::v4(127, 0, 0, 1),
        port: 53,
    };
    assert!(matches!(
        relay.on_resolved(Host::Name("x".to_string()), 53, loopback, b"p".to_vec()),
        RelayAction::Drop
    ));
    assert!(matches!(
        relay.on_datagram(at(1, 1000), &to_name("x", 53, b"p")),
        RelayAction::Drop
    ));
}

#[test]
fn an_announced_client_is_answered_at_once() {
    let mut relay = UdpRelay::new(&Host::Ip(IpAddr::v4(198, 41, 0, 5)), 5, false);
    assert!(
        matches!(relay.on_datagram(at(9, 9), b"raw!"), RelayAction::ToClient { client, .. } if client == at(5, 5))
    );
    let mut unknown = fresh(false);
    assert!(matches!(
        unknown.on_datagram(at(9, 9), b"raw!"),
        RelayAction::Drop
    ));
    let mut named = UdpRelay::new(&Host::Name("c".to_string()), 5, false);
    assert!(matches!(
        named.on_datagram(at(9, 9), b"raw!"),
        RelayAction::Drop
    ));
}

#[test]
fn a_failed_send_loses_one_datagram() {
    let mut relay = UdpRelay::new(&Host::Ip(IpAddr::v4(198, 41, 0, 5)), 5, false);
    relay.on_resolved(Host::Name("x".to_string()), 53, at(7, 53), b"p".to_vec());
    assert!(matches!(relay.on_send_failed(), RelayAction::Drop));
    assert!(
        matches!(relay.on_datagram(at(9, 9), b"raw!"), RelayAction::ToClient { client, .. } if client == at(5, 5))
    );
    assert!(
        matches!(relay.on_datagram(at(5, 5), &to_name("x", 53, b"q")), RelayAction::Forward { target, .. } if target == at(7, 53))
    );
}

#[test]
fn associations_end() {
    let mut relay = fresh(false);
    assert!(matches!(relay.on_lookup_failed(), RelayAction::Close));
    assert!(matches!(relay.on_control(0), RelayAction::Close));
    assert!(matches!(relay.on_control(1), RelayAction::Drop));
}

#[test]
fn the_relay_is_announced_at_the_address_of_the_control_connection() {
    let relay = SocketAddr {
        ip: IpAddr::V4(0),
        port: 0x1234,
    };
    assert_eq!(
        associate_reply(at(7, 1080), relay),
        [5, 0, 0, 1, 198, 41, 0, 7, 0x12, 0x34]
    );
}

#[test]
fn sockets_are_bound_in_the_family() {
    assert_eq!(
        bind_address(IpAddr::v4(1, 2, 3, 4)),
        SocketAddr {
            ip: IpAddr::V4(0),
            port: 0
        }
    );
    assert_eq!(
        bind_address(IpAddr::V6(1)),
        SocketAddr {
            ip: IpAddr::V6(0),
            port: 0
        }
    );
}
