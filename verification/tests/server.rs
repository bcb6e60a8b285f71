use auto_server::addr::{parse_ip, IpAddr, SocketAddr};
use auto_server::config::AppConfig;
use auto_server::server::{
    build_socks5_udp_response, classify_probe, detect_protocol, is_rfc6890_special,
    parse_authority, parse_host, parse_port, parse_socks5_host_from_bytes,
    parse_socks5_udp_request, resolve_first, AuthorityError, Host, ProbeError, Protocol,
    ProxyServer, Resolution, SocksAddressError, UdpRequestError,
};

fn ip(s: &str) -> IpAddr {
    parse_ip(s).expect("an address")
}

#[test]
fn detects_protocol_by_first_bytes() {
    assert!(matches!(
        detect_protocol(&[0x05, 0x01]),
        Some(Protocol::Socks5)
    ));
    assert!(matches!(
        detect_protocol(&[0x04, 0x01]),
        Some(Protocol::Socks4)
    ));
    assert!(matches!(
        detect_protocol(b"CONNECT example.com:443 HTTP/1.1\r\n"),
        Some(Protocol::HttpConnect)
    ));
    assert!(detect_protocol(b"GET / HTTP/1.1\r\n").is_none());
}

#[test]
fn probes_are_classified() {
    assert_eq!(classify_probe(&[]), Err(ProbeError::Closed));
    assert_eq!(classify_probe(b"CONNECT"), Err(ProbeError::UnknownProtocol));
    assert_eq!(classify_probe(b"CONNECT "), Ok(Protocol::HttpConnect));
    assert_eq!(classify_probe(&[4]), Ok(Protocol::Socks4));
}

#[test]
fn parses_connect_authority() {
    let (host, port) = parse_authority("127.0.0.1:8080").expect("parse ipv4");
    match host {
        Host::Ip(a) => assert_eq!(a, IpAddr::v4(127, 0, 0, 1)),
        _ => panic!("expected ipv4 host"),
    }
    assert_eq!(port, 8080);

    let (host, port) = parse_authority("[::1]:443").expect("parse ipv6");
    match host {
        Host::Ip(a) => assert_eq!(a, IpAddr::V6(1)),
        _ => panic!("expected ipv6 host"),
    }
    assert_eq!(port, 443);

    let (_host, port) = parse_authority("example.com:8443").expect("parse domain");
    assert_eq!(port, 8443);
}

#[test]
fn parse_authority_round_trips_for_tcp_connect() {
    let (h, p) = parse_authority("127.0.0.1:8080").expect("ipv4");
    assert_eq!(h, Host::Ip(ip("127.0.0.1")));
    assert_eq!(p, 8080);

    let (h, p) = parse_authority("[::1]:443").expect("ipv6");
    assert_eq!(h, Host::Ip(ip("::1")));
    assert_eq!(p, 443);

    let (h, p) = parse_authority("example.com:8443").expect("hostname");
    assert_eq!(h, Host::Name("example.com".to_string()));
    assert_eq!(p, 8443);

    assert!(
        parse_authority("example.com").is_err(),
        "missing port must fail"
    );
    assert!(parse_authority("").is_err());
}

#[test]
fn authority_errors() {
    assert_eq!(parse_authority("").unwrap_err(), AuthorityError::Empty);
    assert_eq!(
        parse_authority("[::1").unwrap_err(),
        AuthorityError::UnclosedBracket
    );
    assert_eq!(
        parse_authority("[::1]443").unwrap_err(),
        AuthorityError::MissingDelimiter
    );
    assert_eq!(
        parse_authority("[name]:443").unwrap_err(),
        AuthorityError::InvalidAddress
    );
    assert_eq!(
        parse_authority("[::1]:x").unwrap_err(),
        AuthorityError::InvalidPort
    );
    assert_eq!(
        parse_authority("example.com").unwrap_err(),
        AuthorityError::MissingPort
    );
    assert_eq!(
        parse_authority("example.com:65536").unwrap_err(),
        AuthorityError::InvalidPort
    );
    // A bracketed IPv4 address is taken, and so is an empty name.
    assert_eq!(
        parse_authority("[1.2.3.4]:5"),
        Ok((Host::Ip(IpAddr::v4(1, 2, 3, 4)), 5))
    );
    assert_eq!(parse_authority(":80"), Ok((Host::Name(String::new()), 80)));
}

#[test]
fn ports_and_hosts() {
    assert_eq!(parse_port("0"), Some(0));
    assert_eq!(parse_port("+443"), Some(443));
    assert_eq!(parse_port("00443"), Some(443));
    assert_eq!(parse_port(""), None);
    assert_eq!(parse_port("+"), None);
    assert_eq!(parse_port("-1"), None);
    assert_eq!(parse_port(" 1"), None);
    assert_eq!(parse_host("::ffff:1.2.3.4"), Host::Ip(IpAddr::V6(0xffff_0102_0304)));
    assert_eq!(parse_host("1.2.3"), Host::Name("1.2.3".to_string()));
}

#[test]
fn addresses() {
    assert_eq!(ip("0.0.0.0"), IpAddr::V4(0));
    assert_eq!(ip("255.255.255.255"), IpAddr::V4(u32::MAX));
    assert_eq!(ip("::"), IpAddr::V6(0));
    assert_eq!(
        ip("2001:db8::1"),
        IpAddr::V6(0x2001_0db8_0000_0000_0000_0000_0000_0001)
    );
    assert_eq!(
        ip("1:2:3:4:5:6:7:8"),
        IpAddr::V6(0x0001_0002_0003_0004_0005_0006_0007_0008)
    );
    assert_eq!(ip("::1.2.3.4"), IpAddr::V6(0x0102_0304));
    for bad in [
        "", "1.2.3.4.5", "01.2.3.4", "256.1.1.1", ":::", "1::2::3", "12345::", "1:2:3:4:5:6:7",
        "1:2:3:4:5:6:7:8:9", "[::1]", "::1%eth0", " ::1", "1.2.3.4 ",
    ] {
        assert_eq!(parse_ip(bad), None, "{bad}");
    }
    for text in ["1.2.3.4", "2001:db8::ff"] {
        let a = ip(text);
        assert_eq!(IpAddr::from_octets(&a.octets()), a);
    }
}

#[test]
fn resolution_of_hosts() {
    let known = Host::Ip(IpAddr::v4(1, 2, 3, 4));
    match known.resolve(80) {
        Resolution::Known(a) => assert_eq!(
            a,
            SocketAddr {
                ip: IpAddr::v4(1, 2, 3, 4),
                port: 80
            }
        ),
        _ => panic!("expected an address"),
    }
    let name = Host::Name("example.com".to_string());
    match name.resolve(80) {
        Resolution::Lookup(n) => assert_eq!(n, "example.com"),
        _ => panic!("expected a lookup"),
    }
    // A name that spells an address needs no lookup.
    match Host::Name("::1".to_string()).resolve(53) {
        Resolution::Known(a) => assert_eq!(
            a,
            SocketAddr {
                ip: IpAddr::V6(1),
                port: 53
            }
        ),
        _ => panic!("expected an address"),
    }
    assert_eq!(
        resolve_first(&[IpAddr::V4(7), IpAddr::V4(8)], 1),
        Some(SocketAddr {
            ip: IpAddr::V4(7),
            port: 1
        })
    );
    assert_eq!(resolve_first(&[], 1), None);
}

#[test]
fn special_purpose_addresses() {
    for s in [
        "0.1.2.3", "10.0.0.1", "100.64.0.1", "127.0.0.1", "169.254.1.1", "172.16.0.1",
        "172.31.255.255", "192.0.0.1", "192.0.2.1", "192.88.99.1", "192.168.1.1", "198.18.0.1",
        "198.19.255.255", "198.51.100.1", "203.0.113.1", "224.0.0.1", "240.0.0.1",
        "255.255.255.255", "::", "::1", "fc00::1", "fd12::1", "fe80::1", "ff02::1",
        "2001:db8::1", "100::1", "2002::1", "::ffff:10.0.0.1",
    ] {
        assert!(is_rfc6890_special(ip(s)), "{s}");
    }
    for s in [
        "1.1.1.1", "9.255.255.255", "11.0.0.0", "100.63.255.255", "100.128.0.0", "128.0.0.1",
        "172.15.255.255", "172.32.0.0", "198.17.255.255", "198.20.0.0", "203.0.114.0",
        "223.255.255.255", "2606:4700::1", "2a00::1",
    ] {
        assert!(!is_rfc6890_special(ip(s)), "{s}");
    }
}

#[test]
fn parses_and_builds_socks5_udp_packets() {
    let request = [
        0x00, 0x00, 0x00, 0x03, 0x0b, b'e', b'x', b'a', b'm', b'p', b'l', b'e', b'.', b'c', b'o',
        b'm', 0x01, 0xbb, 0xde, 0xad, 0xbe, 0xef,
    ];
    let (host, port, payload) = parse_socks5_udp_request(&request).expect("parse udp request");
    match host {
        Host::Name(name) => assert_eq!(name, "example.com"),
        _ => panic!("expected domain host"),
    }
    assert_eq!(port, 443);
    assert_eq!(payload, [0xde, 0xad, 0xbe, 0xef]);

    let response = build_socks5_udp_response(
        SocketAddr {
            ip: ip("1.2.3.4"),
            port: 5300,
        },
        &[0xaa, 0xbb],
    );
    assert_eq!(response[0..4], [0x00, 0x00, 0x00, 0x01]);
    assert_eq!(response[4..8], [1, 2, 3, 4]);
    assert_eq!(response[8..10], 5300_u16.to_be_bytes());
    assert_eq!(response[10..], [0xaa, 0xbb]);
}

#[test]
fn udp_responses_read_back_as_requests() {
    for (text, port) in [("1.2.3.4", 5300u16), ("2001:db8::7", 65535)] {
        let source = SocketAddr { ip: ip(text), port };
        let packet = build_socks5_udp_response(source, b"payload");
        let (host, p, payload) = parse_socks5_udp_request(&packet).unwrap();
        assert_eq!(host, Host::Ip(source.ip));
        assert_eq!(p, port);
        assert_eq!(payload, b"payload");
    }
}

#[test]
fn udp_request_errors() {
    assert_eq!(
        parse_socks5_udp_request(&[0, 0, 0]).unwrap_err(),
        UdpRequestError::TooShort
    );
    assert_eq!(
        parse_socks5_udp_request(&[0, 1, 0, 1]).unwrap_err(),
        UdpRequestError::InvalidReserved
    );
    assert_eq!(
        parse_socks5_udp_request(&[0, 0, 1, 1]).unwrap_err(),
        UdpRequestError::Fragmented
    );
    assert_eq!(
        parse_socks5_udp_request(&[0, 0, 0, 1, 1, 2, 3, 4, 0]).unwrap_err(),
        UdpRequestError::MissingPort
    );
    assert_eq!(
        parse_socks5_udp_request(&[0, 0, 0, 9]).unwrap_err(),
        UdpRequestError::Address(SocksAddressError::UnsupportedType)
    );
}

#[test]
fn socks_address_errors() {
    assert_eq!(
        parse_socks5_host_from_bytes(1, &[1, 2, 3]).unwrap_err(),
        SocksAddressError::TruncatedIpv4
    );
    assert_eq!(
        parse_socks5_host_from_bytes(4, &[0; 15]).unwrap_err(),
        SocksAddressError::TruncatedIpv6
    );
    assert_eq!(
        parse_socks5_host_from_bytes(3, &[]).unwrap_err(),
        SocksAddressError::MissingDomainLength
    );
    assert_eq!(
        parse_socks5_host_from_bytes(3, &[2, b'a']).unwrap_err(),
        SocksAddressError::TruncatedDomain
    );
    assert_eq!(
        parse_socks5_host_from_bytes(3, &[1, 0xff]).unwrap_err(),
        SocksAddressError::InvalidDomain
    );
    assert_eq!(
        parse_socks5_host_from_bytes(3, &[2, b'a', b'b', b'c']),
        Ok((Host::Name("ab".to_string()), 3))
    );
}

#[test]
fn the_proxy_listens_where_it_is_told() {
    let config = AppConfig {
        listen: SocketAddr {
            ip: IpAddr::v4(127, 0, 0, 1),
            port: 9999,
        },
        ..AppConfig::default()
    };
    let server = ProxyServer::new(config);
    assert_eq!(
        server.run(),
        SocketAddr {
            ip: IpAddr::v4(127, 0, 0, 1),
            port: 9999
        }
    );
}
