use auto_server::addr::IpAddr;
use auto_server::capsule::{
    decode_address_assign, decode_address_value, decode_capsule, decode_route_advertisement,
    decode_route_value, encode_address_assign, encode_address_request, encode_capsule,
    encode_route_advertisement, encode_route_value, get_varint, put_varint, split_capsule, strip_context_id,
    AssignedAddress, IpRange, CAPSULE_ADDRESS_ASSIGN, CAPSULE_ADDRESS_REQUEST,
    CAPSULE_ROUTE_ADVERTISEMENT,
};
use bytes::BytesMut;

/// The address with these eight segments.
fn v6(s: [u16; 8]) -> IpAddr {
    let mut octets = Vec::new();
    for x in s {
        octets.extend_from_slice(&x.to_be_bytes());
    }
    IpAddr::from_octets(&octets)
}

fn encoded_len(v: u64) -> usize {
    let mut buf = BytesMut::new();
    put_varint(&mut buf, v);
    buf.len()
}

#[test]
fn varint_round_trip_all_forms() {
    for v in [
        0u64,
        1,
        63,
        64,
        16383,
        16384,
        16385,
        0xffff_ffff,
        0x1_0000_0000,
    ] {
        let mut buf = BytesMut::new();
        put_varint(&mut buf, v);
        let bytes = buf.freeze();
        let mut slice = bytes.as_ref();
        let decoded = get_varint(&mut slice).expect("decode");
        assert_eq!(decoded, v, "varint round trip failed for {v}");
        assert!(slice.is_empty(), "varint left trailing bytes for {v}");
    }
}

#[test]
fn varint_encoding_lengths() {
    assert_eq!(encoded_len(0), 1);
    assert_eq!(encoded_len(63), 1);
    assert_eq!(encoded_len(64), 2);
    assert_eq!(encoded_len(16383), 2);
    assert_eq!(encoded_len(16384), 4);
    assert_eq!(encoded_len(0x3fff_ffff), 4);
    assert_eq!(encoded_len(0x4000_0000), 8);
    assert_eq!(encoded_len(0x1_0000_0000), 8);
}

#[test]
fn varint_exact_bytes() {
    for (v, expected) in [
        (37u64, vec![0x25u8]),
        (15293, vec![0x7b, 0xbd]),
        (494878333, vec![0x9d, 0x7f, 0x3e, 0x7d]),
        (
            151288809941952652,
            vec![0xc2, 0x19, 0x7c, 0x5e, 0xff, 0x14, 0xe8, 0x8c],
        ),
    ] {
        let mut buf = BytesMut::new();
        put_varint(&mut buf, v);
        assert_eq!(buf.as_ref(), &expected[..]);
        let mut slice = &expected[..];
        assert_eq!(get_varint(&mut slice), Some(v));
    }
}

#[test]
fn varint_above_the_limit_keeps_its_low_bits() {
    let mut buf = BytesMut::new();
    put_varint(&mut buf, 0x4000_0000_0000_0005);
    let bytes = buf.freeze();
    let mut slice = bytes.as_ref();
    assert_eq!(get_varint(&mut slice), Some(5));
}

#[test]
fn varint_truncated_leaves_the_buffer() {
    let raw = [0x80u8, 1, 2];
    let mut slice = &raw[..];
    assert_eq!(get_varint(&mut slice), None);
    assert_eq!(slice, &raw[..]);
    let mut nothing: &[u8] = &[];
    assert_eq!(get_varint(&mut nothing), None);
}

#[test]
fn generic_capsule_round_trip_and_rejects() {
    for (typ, payload) in [
        (CAPSULE_ADDRESS_ASSIGN, vec![0xAB; 1]),
        (CAPSULE_ROUTE_ADVERTISEMENT, vec![0xCD; 40]),
    ] {
        let capsule = encode_capsule(typ, &payload);
        let (t, v) = decode_capsule(&capsule).expect("decode");
        assert_eq!(t, typ);
        assert_eq!(v.as_ref(), &payload[..]);
    }

    let big = vec![0x11u8; 20_000];
    let capsule = encode_capsule(CAPSULE_ADDRESS_ASSIGN, &big);
    assert!(capsule[1] & 0xC0 == 0x80, "length should be 4-byte form");
    let (t, v) = decode_capsule(&capsule).expect("decode big");
    assert_eq!(t, CAPSULE_ADDRESS_ASSIGN);
    assert_eq!(v.len(), 20_000);

    let trunc = vec![0x01u8, 0x0A, 0x01, 0x02, 0x03];
    assert!(decode_capsule(&trunc).is_none());

    assert!(decode_capsule(&[0x40]).is_none());
}

#[test]
fn split_capsule_reports_consumed_bytes() {
    let c1 = encode_capsule(CAPSULE_ADDRESS_ASSIGN, &[0xAA, 0xBB]);
    let c2 = encode_capsule(CAPSULE_ADDRESS_REQUEST, &[0xCC]);
    let mut both = c1.to_vec();
    both.extend_from_slice(&c2);

    let (t1, v1, used1) = split_capsule(&both).expect("first");
    assert_eq!((t1, v1), (CAPSULE_ADDRESS_ASSIGN, &[0xAA, 0xBB][..]));
    let (t2, v2, used2) = split_capsule(&both[used1..]).expect("second");
    assert_eq!((t2, v2), (CAPSULE_ADDRESS_REQUEST, &[0xCC][..]));
    assert_eq!(used1 + used2, both.len());
}

#[test]
fn incomplete_capsules_are_never_split_off() {
    let capsule = encode_capsule(0x4321, &[7u8; 100]);
    for k in 0..capsule.len() {
        assert!(split_capsule(&capsule[..k]).is_none(), "split at {k}");
    }
    assert!(split_capsule(&capsule).is_some());
}

#[test]
fn context_id_zero_is_stripped_and_nonzero_dropped() {
    let dgram = [0x00u8, 0x45, 0x00, 0x01];
    assert_eq!(strip_context_id(&dgram), Some(&[0x45u8, 0x00, 0x01][..]));

    assert_eq!(strip_context_id(&[0x00]), Some(&[][..]));

    assert_eq!(strip_context_id(&[0x01, 0x45, 0x00]), None);

    assert_eq!(strip_context_id(&[0x40, 0x2A, 0xDE, 0xAD]), None);

    assert_eq!(strip_context_id(&[0x40]), None);

    assert_eq!(strip_context_id(&[]), None);
}

#[test]
fn address_assign_v4_exact_bytes() {
    let capsule = encode_address_assign(&[AssignedAddress {
        request_id: 0,
        address: IpAddr::v4(198, 18, 0, 2),
        prefix_len: 32,
    }]);
    let expected: &[u8] = &[
        0x01, // Type = ADDRESS_ASSIGN
        0x07, // Length = 7
        0x00, // Request ID = 0 (1-byte varint)
        0x04, // IP Version = 4
        0xC6, 0x12, 0x00, 0x02, // 198.18.0.2
        0x20, // Prefix Length = 32
    ];
    assert_eq!(capsule.as_ref(), expected);
    let parsed = decode_address_value(&expected[2..]).expect("parse");
    assert_eq!(
        parsed,
        vec![AssignedAddress {
            request_id: 0,
            address: IpAddr::v4(198, 18, 0, 2),
            prefix_len: 32,
        }]
    );
}

#[test]
fn address_request_v6_exact_bytes() {
    let capsule = encode_address_request(&[AssignedAddress {
        request_id: 5,
        address: v6([0x2001, 0xdb8, 0, 0, 0, 0, 0, 1]),
        prefix_len: 64,
    }]);
    let expected: &[u8] = &[
        0x02, // Type = ADDRESS_REQUEST
        0x13, // Length = 19
        0x05, // Request ID = 5
        0x06, // IP Version = 6
        0x20, 0x01, 0x0D, 0xB8, 0, 0, 0, 0, 0, 0, 0, 0, 0, 0, 0, 0x01, // 2001:db8::1
        0x40, // Prefix Length = 64
    ];
    assert_eq!(capsule.as_ref(), expected);
    let parsed = decode_address_value(&expected[2..]).expect("parse");
    assert_eq!(
        parsed,
        vec![AssignedAddress {
            request_id: 5,
            address: v6([0x2001, 0xdb8, 0, 0, 0, 0, 0, 1]),
            prefix_len: 64,
        }]
    );
}

#[test]
fn route_advertisement_v4_default_route_exact_bytes() {
    let capsule = encode_route_advertisement(&[IpRange {
        start: IpAddr::v4(0, 0, 0, 0),
        end: IpAddr::v4(255, 255, 255, 255),
        ip_protocol: 0,
    }]);
    let expected: &[u8] = &[
        0x03, // Type = ROUTE_ADVERTISEMENT
        0x0A, // Length = 10 (1 + 4 + 4 + 1)
        0x04, // IP Version = 4
        0x00, 0x00, 0x00, 0x00, // Start IP Address = 0.0.0.0
        0xFF, 0xFF, 0xFF, 0xFF, // End IP Address = 255.255.255.255
        0x00, // IP Protocol = 0 (all)
    ];
    assert_eq!(capsule.as_ref(), expected);
    let parsed = decode_route_value(&expected[2..]).expect("parse");
    assert_eq!(
        parsed,
        vec![IpRange {
            start: IpAddr::v4(0, 0, 0, 0),
            end: IpAddr::v4(255, 255, 255, 255),
            ip_protocol: 0,
        }]
    );
}

#[test]
fn address_value_round_trip_multiple_entries() {
    let entries = vec![
        AssignedAddress {
            request_id: 7,
            address: IpAddr::v4(198, 18, 0, 6),
            prefix_len: 30,
        },
        AssignedAddress {
            request_id: 0,
            address: v6([0x2001, 0xdb8, 0, 0, 0, 0, 0, 2]),
            prefix_len: 128,
        },
    ];
    let capsule = encode_address_assign(&entries);
    let (t, v) = decode_capsule(&capsule).expect("decode assign");
    assert_eq!(t, CAPSULE_ADDRESS_ASSIGN);
    let parsed = decode_address_value(&v).expect("parse assign value");
    assert_eq!(parsed, entries);
    assert_eq!(decode_address_assign(&capsule), Some(entries));
}

#[test]
fn address_value_rejects_malformed() {
    // IP Version not 4/6.
    assert!(decode_address_value(&[0x00, 0x05, 1, 2, 3, 4, 24]).is_none());

    // Truncated IPv4 address (3 bytes).
    assert!(decode_address_value(&[0x00, 0x04, 1, 2, 3, 32]).is_none());

    // Truncated IPv6 address (15 bytes).
    let mut v = vec![0x00, 0x06];
    v.extend_from_slice(&[0u8; 15]);
    v.push(128);
    assert!(decode_address_value(&v).is_none());

    // Missing prefix length byte.
    assert!(decode_address_value(&[0x00, 0x04, 1, 2, 3, 4]).is_none());

    // Prefix length exceeds address size (33 for v4).
    assert!(decode_address_value(&[0x00, 0x04, 1, 2, 3, 4, 33]).is_none());
    // (129 for v6)
    let mut v = vec![0x00, 0x06];
    v.extend_from_slice(&[0u8; 16]);
    v.push(129);
    assert!(decode_address_value(&v).is_none());

    // Empty payload is a valid zero-entry capsule.
    assert_eq!(decode_address_value(&[]), Some(Vec::new()));
}

#[test]
fn route_value_round_trip_v4_and_v6() {
    let ranges = vec![
        IpRange {
            start: IpAddr::v4(10, 0, 0, 0),
            end: IpAddr::v4(10, 255, 255, 255),
            ip_protocol: 6,
        },
        IpRange {
            start: v6([0x2001, 0xdb8, 0, 0, 0, 0, 0, 0]),
            end: v6([0x2001, 0xdb8, 0, 0, 0xffff, 0xffff, 0xffff, 0xffff]),
            ip_protocol: 0,
        },
    ];
    let capsule = encode_route_advertisement(&ranges);
    let (t, v) = decode_capsule(&capsule).expect("decode route");
    assert_eq!(t, CAPSULE_ROUTE_ADVERTISEMENT);
    let parsed = decode_route_value(&v).expect("parse route value");
    assert_eq!(parsed, ranges);
    assert_eq!(decode_route_advertisement(&capsule), Some(ranges));
}

#[test]
fn route_value_rejects_malformed() {
    // IP Version not 4/6.
    assert!(decode_route_value(&[0x05, 1, 2, 3, 4, 5, 6, 7, 8, 0]).is_none());

    // Truncated (missing End address + protocol).
    assert!(decode_route_value(&[0x04, 1, 2, 3, 4]).is_none());

    // Start > End.
    assert!(
        decode_route_value(&[0x04, 10, 0, 0, 5, 10, 0, 0, 1, 0]).is_none(),
        "Start IP Address > End IP Address must be rejected"
    );

    // Start (v4) and End (length implied by version) of wrong total size.
    assert!(decode_route_value(&[0x04, 1, 2, 3, 4, 5, 6, 7, 0]).is_none());

    // Empty payload is a valid zero-range capsule.
    assert_eq!(decode_route_value(&[]), Some(Vec::new()));
}

#[test]
fn route_payloads_have_one_form() {
    let raw: &[u8] = &[
        0x04, 10, 0, 0, 0, 10, 0, 0, 255, 17, // 10.0.0.0 - 10.0.0.255, UDP
        0x04, 1, 2, 3, 4, 1, 2, 3, 4, 0, // one address, all protocols
    ];
    let ranges = decode_route_value(raw).expect("well-formed");
    assert_eq!(encode_route_value(&ranges).as_ref(), raw);
}

#[test]
fn whole_capsules_of_another_type_are_refused() {
    let assign = encode_address_assign(&[]);
    let route = encode_route_advertisement(&[]);
    assert_eq!(decode_address_assign(&route), None);
    assert_eq!(decode_route_advertisement(&assign), None);
    assert_eq!(decode_address_assign(&assign), Some(Vec::new()));
    assert_eq!(decode_address_assign(&assign[..1]), None);
}
