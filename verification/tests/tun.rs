use auto_server::addr::IpAddr;
use auto_server::tun::{
    cstr_to_string, delete_rule, forward_path, network_address, read_ip_forward, Command,
    IpForward, IpPool, PoolError, TunDevice, TunError, TunStep,
};

fn text(c: &Command) -> String {
    format!("{} {}", c.program, c.args.join(" "))
}

#[test]
fn pool_allocates_distinct_v4_blocks() {
    let mut pool = IpPool::new("198.18.0.0/15").unwrap();
    let (p0, c0, pre0) = pool.allocate().unwrap();
    let (p1, c1, pre1) = pool.allocate().unwrap();
    assert_eq!(pre0, 30);
    assert_eq!(pre1, 30);
    assert_eq!(p0, IpAddr::v4(198, 18, 0, 1));
    assert_eq!(c0, IpAddr::v4(198, 18, 0, 2));
    assert_eq!(p1, IpAddr::v4(198, 18, 0, 5));
    assert_eq!(c1, IpAddr::v4(198, 18, 0, 6));
}

#[test]
fn pool_v4_exhaustion() {
    let mut pool = IpPool::new("192.168.0.0/30").unwrap();
    let _ = pool.allocate().unwrap();
    assert!(pool.allocate().is_err());
}

#[test]
fn pool_rejects_bad_cidr() {
    assert!(IpPool::new("not-a-cidr").is_err());
    assert_eq!(
        IpPool::new("not-a-cidr").unwrap_err(),
        PoolError::InvalidCidr
    );
}

#[test]
fn pool_hands_out_every_block_once() {
    let mut pool = IpPool::new("10.0.0.77/24").unwrap();
    let mut seen = Vec::new();
    while let Ok((proxy, client, prefix)) = pool.allocate() {
        assert_eq!(prefix, 30);
        assert!(!seen.contains(&proxy) && !seen.contains(&client));
        seen.push(proxy);
        seen.push(client);
    }
    assert_eq!(seen.len(), 2 * 64);
    assert_eq!(seen[0], IpAddr::v4(10, 0, 0, 1));
    assert_eq!(seen[127], IpAddr::v4(10, 0, 0, 254));
    assert_eq!(pool.allocate(), Err(PoolError::Exhausted));
}

#[test]
fn pool_at_the_end_of_the_address_space() {
    let mut pool = IpPool::new("255.255.255.252/30").unwrap();
    assert_eq!(
        pool.allocate(),
        Ok((
            IpAddr::v4(255, 255, 255, 253),
            IpAddr::v4(255, 255, 255, 254),
            30
        ))
    );
    assert_eq!(pool.allocate(), Err(PoolError::Exhausted));
}

#[test]
fn pool_smaller_than_a_block_is_exhausted_at_once() {
    let mut pool = IpPool::new("10.0.0.3/32").unwrap();
    assert_eq!(pool.allocate(), Err(PoolError::Exhausted));
}

#[test]
fn pool_v6_blocks() {
    let mut pool = IpPool::new("fd00::/63").unwrap();
    let base: u128 = 0xfd00 << 112;
    assert_eq!(
        pool.allocate(),
        Ok((IpAddr::V6(base + 1), IpAddr::V6(base + 2), 64))
    );
    let next = base + (1 << 64);
    assert_eq!(
        pool.allocate(),
        Ok((IpAddr::V6(next + 1), IpAddr::V6(next + 2), 64))
    );
    assert_eq!(pool.allocate(), Err(PoolError::Exhausted));
    assert_eq!(
        IpPool::new("fd00::/65").unwrap_err(),
        PoolError::PrefixTooLong(65)
    );
    let mut all = IpPool::new("::/0").unwrap();
    assert_eq!(all.allocate(), Ok((IpAddr::V6(1), IpAddr::V6(2), 64)));
}

#[test]
fn cstr_to_string_handles_null_termination() {
    let buf = &b"tun3\0rest"[..];
    assert_eq!(cstr_to_string(buf), "tun3");
}

#[test]
fn cstr_to_string_without_a_zero_and_with_bad_bytes() {
    assert_eq!(cstr_to_string(b"auto0"), "auto0");
    assert_eq!(cstr_to_string(b"\0"), "");
    assert_eq!(cstr_to_string(b"a\xffb\0"), "a\u{fffd}b");
}

#[test]
fn forwarding_is_put_back_by_the_last_session() {
    let mut forward = IpForward::new();
    assert_eq!(forward.before_ensure(0), Some(1));
    assert!(forward.ensure_ip_forward(0));
    assert_eq!(forward.before_ensure(1), None);
    assert!(!forward.ensure_ip_forward(1));
    assert_eq!(forward.release_ip_forward(), None);
    assert_eq!(forward.release_ip_forward(), Some(0));
    assert_eq!(forward.release_ip_forward(), None);

    let mut up = IpForward::new();
    assert_eq!(up.before_ensure(1), None);
    assert!(!up.ensure_ip_forward(1));
    assert_eq!(up.release_ip_forward(), None);
}

#[test]
fn forwarding_flag_text() {
    assert_eq!(read_ip_forward("0\n"), Some(0));
    assert_eq!(read_ip_forward(" 1 \n"), Some(1));
    assert_eq!(read_ip_forward("2"), Some(1));
    assert_eq!(read_ip_forward("256"), None);
    assert_eq!(read_ip_forward(""), None);
    assert_eq!(forward_path(true), "/proc/sys/net/ipv4/ip_forward");
    assert_eq!(forward_path(false), "/proc/sys/net/ipv6/conf/all/forwarding");
}

#[test]
fn device_checks() {
    let a = IpAddr::v4(10, 0, 0, 1);
    let b = IpAddr::v4(10, 0, 0, 2);
    let refused = |hint, proxy, client| TunDevice::create(hint, proxy, client, 30, None).err();
    assert_eq!(refused("auto%d", a, b), None);
    assert_eq!(refused("auto%d", IpAddr::V6(1), IpAddr::V6(2)), None);
    assert_eq!(
        refused("auto%d", a, IpAddr::V6(2)),
        Some(TunError::FamilyMismatch)
    );
    assert_eq!(
        refused("sixteen-letters-", IpAddr::V6(2), a),
        Some(TunError::FamilyMismatch)
    );
    assert_eq!(
        refused("sixteen-letters-", a, b),
        Some(TunError::NameTooLong)
    );
    assert_eq!(refused("fifteen-letters", a, b), None);
}

#[test]
fn devices_do_nothing_before_they_are_opened() {
    let ends = (IpAddr::v4(198, 18, 0, 1), IpAddr::v4(198, 18, 0, 2));
    let device = TunDevice::create("auto%d", ends.0, ends.1, 30, Some(1152)).unwrap();
    assert_eq!(device.name(), "");
    assert!(device.next_step().is_none());
    assert!(device.teardown().is_empty());
    assert!(!device.holds_forwarding());
}

/// A device whose setup has come this far.
fn device_after(steps: usize) -> TunDevice {
    let ends = (IpAddr::v4(198, 18, 0, 1), IpAddr::v4(198, 18, 0, 2));
    let mut device = TunDevice::create("auto%d", ends.0, ends.1, 30, Some(1152)).unwrap();
    device.opened("auto0", "198.18.0.1", "198.18.0.2", "198.18.0.0");
    for _ in 0..steps {
        assert!(device.next_step().is_some());
        device.step_done();
    }
    device
}

/// What is done to set a device up.
fn setup_of(mut device: TunDevice) -> Vec<String> {
    let mut seen = Vec::new();
    while let Some(step) = device.next_step() {
        seen.push(match step {
            TunStep::Run(c) => text(c),
            TunStep::AddRoute(c) => format!("route {}", text(c)),
            TunStep::Forward => "forward".to_string(),
            TunStep::AddRule(c) => format!("rule {}", text(c)),
        });
        device.step_done();
    }
    seen
}

#[test]
fn rules_are_deleted() {
    assert_eq!(
        delete_rule(&vec!["-A".to_string(), "x".to_string()]),
        ["-D", "x"]
    );
}

#[test]
fn devices_are_set_up_in_order() {
    let device = device_after(0);
    assert_eq!(device.name(), "auto0");
    assert_eq!(
        setup_of(device),
        [
            "/usr/sbin/ip link set auto0 up",
            "/usr/sbin/ip link set auto0 mtu 1152",
            "/usr/sbin/ip addr add 198.18.0.1/30 peer 198.18.0.2 dev auto0",
            "route /usr/sbin/ip route add 198.18.0.0/30 dev auto0",
            "forward",
            "rule /usr/sbin/iptables -t nat -A POSTROUTING -s 198.18.0.2/30 -j MASQUERADE",
            "rule /usr/sbin/iptables -A FORWARD -s 198.18.0.2/30 -j ACCEPT",
            "rule /usr/sbin/iptables -A FORWARD -d 198.18.0.2/30 -j ACCEPT",
        ]
    );
}

#[test]
fn devices_take_back_what_they_did() {
    let undo = [
        "/usr/sbin/iptables -t nat -D POSTROUTING -s 198.18.0.2/30 -j MASQUERADE",
        "/usr/sbin/iptables -D FORWARD -s 198.18.0.2/30 -j ACCEPT",
        "/usr/sbin/iptables -D FORWARD -d 198.18.0.2/30 -j ACCEPT",
    ];
    for steps in 0..=8usize {
        let device = device_after(steps);
        let mut expected: Vec<&str> = undo[..steps.saturating_sub(5)].to_vec();
        if steps > 3 {
            expected.push("/usr/sbin/ip route del 198.18.0.0/30 dev auto0");
        }
        expected.push("/usr/sbin/ip link del auto0");
        let down: Vec<String> = device.teardown().iter().map(text).collect();
        assert_eq!(down, expected);
        assert_eq!(device.holds_forwarding(), steps > 4);
    }
}

#[test]
fn ipv6_devices() {
    let base = 0xfd00 << 112;
    let make = || {
        let ends = (IpAddr::V6(base + 1), IpAddr::V6(base + 2));
        let mut device = TunDevice::create("auto%d", ends.0, ends.1, 64, None).unwrap();
        device.opened("auto1", "fd00::1", "fd00::2", "fd00::");
        device
    };
    assert_eq!(
        setup_of(make()),
        [
            "/usr/sbin/ip link set auto1 up",
            "/usr/sbin/ip -6 addr add fd00::1/128 peer fd00::2/128 dev auto1",
            "route /usr/sbin/ip -6 route add fd00::/64 dev auto1",
            "forward",
            "rule /usr/sbin/ip6tables -t nat -A POSTROUTING -s fd00::2/64 -j MASQUERADE",
            "rule /usr/sbin/ip6tables -A FORWARD -s fd00::2/64 -j ACCEPT",
            "rule /usr/sbin/ip6tables -A FORWARD -d fd00::2/64 -j ACCEPT",
        ]
    );
    let mut device = make();
    for _ in 0..3 {
        device.step_done();
    }
    let down: Vec<String> = device.teardown().iter().map(text).collect();
    assert_eq!(
        down,
        [
            "/usr/sbin/ip -6 route del fd00::/64 dev auto1",
            "/usr/sbin/ip link del auto1",
        ]
    );
}

#[test]
fn networks_of_clients() {
    let client = IpAddr::v4(198, 19, 255, 254);
    assert_eq!(network_address(client, 30), IpAddr::v4(198, 19, 255, 252));
    assert_eq!(network_address(client, 15), IpAddr::v4(198, 18, 0, 0));
    assert_eq!(network_address(client, 0), IpAddr::V4(0));
    assert_eq!(network_address(client, 32), client);
    let six = IpAddr::V6((0xfd00 << 112) + 2);
    assert_eq!(network_address(six, 64), IpAddr::V6(0xfd00 << 112));
    assert_eq!(network_address(six, 0), IpAddr::V6(0));
    assert_eq!(network_address(six, 128), six);

    // The network of a client is the block that it was handed.
    let mut pool = IpPool::new("198.18.0.0/15").unwrap();
    for k in 0..3u32 {
        let (_, client, prefix) = pool.allocate().unwrap();
        assert_eq!(network_address(client, prefix), IpAddr::V4(0xc612_0000 + 4 * k));
    }
}
