//! Capsule framing, HTTP datagram context IDs and CONNECT-IP capsule payloads.
//!
//! A capsule is `Type (varint) + Length (varint) + Value`. CONNECT-IP exchanges
//! them on the request stream; its datagrams are `Context ID (varint) + packet`.
use bytes::{Bytes, BytesMut};
use vstd::prelude::*;
use vstd::slice::slice_subrange;
use crate::addr;
use crate::addr::IpAddr;
use crate::be;
use crate::wire;

verus! {

/// `ADDRESS_ASSIGN`: an endpoint assigns its peer IP addresses or prefixes.
pub const CAPSULE_ADDRESS_ASSIGN: u64 = 0x01;

/// `ADDRESS_REQUEST`: an endpoint requests addresses from its peer.
pub const CAPSULE_ADDRESS_REQUEST: u64 = 0x02;

/// `ROUTE_ADVERTISEMENT`: an endpoint advertises the ranges it routes.
pub const CAPSULE_ROUTE_ADVERTISEMENT: u64 = 0x03;

/// The first number that has no exact variable-length form.
pub const VARINT_LIMIT: u64 = 0x4000_0000_0000_0000;

/// One assigned or requested address. The prefix length is 32 for a single
/// IPv4 host and 128 for a single IPv6 host.
#[derive(Debug, Clone, Copy, PartialEq, Eq, Structural)]
pub struct AssignedAddress {
    /// Echoed in the response; 0 for an unprompted assignment.
    pub request_id: u64,
    pub address: IpAddr,
    pub prefix_len: u8,
}

/// The inclusive address range `start..=end` for `ip_protocol` (0 for all).
#[derive(Debug, Clone, Copy, PartialEq, Eq, Structural)]
pub struct IpRange {
    pub start: IpAddr,
    pub end: IpAddr,
    pub ip_protocol: u8,
}

// ---------------------------------------------------------------------------
// Variable-length integers
// ---------------------------------------------------------------------------

/// How many bytes the variable-length form of `v` takes.
pub open spec fn varint_len(v: u64) -> nat {
    if v < 0x40 {
        1
    } else if v < 0x4000 {
        2
    } else if v < 0x4000_0000 {
        4
    } else {
        8
    }
}

/// The two-bit length mark in front of the variable-length form of `v`.
pub open spec fn varint_mark(v: u64) -> nat {
    if v < 0x40 {
        0
    } else if v < 0x4000 {
        1
    } else if v < 0x4000_0000 {
        2
    } else {
        3
    }
}

/// The variable-length form of `v`: its low 62 bits, big-endian, with the
/// length mark in the two high bits of the first byte.
pub open spec fn varint(v: u64) -> Seq<u8> {
    let raw = be::bytes((v % VARINT_LIMIT) as nat, varint_len(v));
    raw.update(0, (raw[0] + 64 * varint_mark(v)) as u8)
}

/// How many bytes a form with this first byte takes.
pub open spec fn marked_len(first: u8) -> nat {
    if first < 0x40 {
        1
    } else if first < 0x80 {
        2
    } else if first < 0xc0 {
        4
    } else {
        8
    }
}

/// The number at the front of `s` and how many bytes it takes, if all are there.
pub open spec fn varint_at(s: Seq<u8>) -> Option<(u64, nat)> {
    if s.len() == 0 || s.len() < marked_len(s[0]) {
        None
    } else {
        let n = marked_len(s[0]);
        Some((be::value(s.take(n as int).update(0, s[0] % 64)) as u64, n))
    }
}

/// The shape of the four forms.
pub proof fn lemma_varint_shape(v: u64)
    ensures
        varint(v).len() == varint_len(v),
        be::bytes((v % VARINT_LIMIT) as nat, varint_len(v)).len() == varint_len(v),
        be::bytes((v % VARINT_LIMIT) as nat, varint_len(v))[0] < 64,
        marked_len(varint(v)[0]) == varint_len(v),
        varint(v).update(0, varint(v)[0] % 64) == be::bytes(
            (v % VARINT_LIMIT) as nat,
            varint_len(v),
        ),
{
    let n = (v % VARINT_LIMIT) as nat;
    be::lemma_pow256_values();
    be::lemma_be_first_byte(n, varint_len(v), 64);
}

/// A number below the limit is read back from its variable-length form, which
/// is consumed whole, whatever follows it.
pub proof fn lemma_varint_round_trip(v: u64, rest: Seq<u8>)
    requires
        v < VARINT_LIMIT,
    ensures
        varint_at(varint(v) + rest) == Some((v, varint(v).len())),
        varint_at(varint(v)) == Some((v, varint(v).len())),
{
    lemma_varint_shape(v);
    be::lemma_pow256_values();
    be::lemma_be_round_trip(v as nat, varint_len(v));
    assert((varint(v) + rest).take(varint_len(v) as int) == varint(v));
    assert(varint(v).take(varint_len(v) as int) == varint(v));
}

/// A strict prefix of a variable-length form is not read as a number.
pub proof fn lemma_varint_prefix(v: u64, k: int)
    requires
        0 <= k < varint(v).len(),
    ensures
        varint_at(varint(v).take(k)) is None,
{
    lemma_varint_shape(v);
    if k > 0 {
        assert(varint(v).take(k)[0] == varint(v)[0]);
    }
}

/// Bytes behind a complete form do not change what is read.
pub proof fn lemma_varint_extend(s: Seq<u8>, rest: Seq<u8>)
    requires
        varint_at(s) is Some,
    ensures
        varint_at(s + rest) == varint_at(s),
        varint_at(s).unwrap().1 <= s.len(),
        varint_at(s).unwrap().1 >= 1,
{
    let n = marked_len(s[0]) as int;
    assert((s + rest)[0] == s[0]);
    assert((s + rest).take(n) == s.take(n));
}

/// Appends the variable-length form of `value` to `buf`.
pub fn put_varint(buf: &mut BytesMut, value: u64)
    requires
        wire::fits(wire::written(*old(buf)).len() + varint_len(value)),
    ensures
        wire::written(*final(buf)) == wire::written(*old(buf)) + varint(value),
{
    proof {
        lemma_varint_shape(value);
        be::lemma_pow256_values();
    }
    let ghost n = (value % VARINT_LIMIT) as nat;
    if value < 0x40 {
        proof {
            let l0: nat = 0;
            assert(be::bytes(n / 256, l0) == Seq::<u8>::empty());
            assert(be::bytes(n, 1) == seq![value as u8]);
            assert(varint(value) == seq![value as u8]);
        }
        wire::put_u8(buf, value as u8);
    } else if value < 0x4000 {
        assert((value | 0x4000) == value + 0x4000) by (bit_vector)
            requires
                value < 0x4000,
        ;
        proof {
            be::lemma_be_add_top(n, 64, 2);
        }
        wire::put_u16(buf, (value | 0x4000) as u16);
    } else if value < 0x4000_0000 {
        assert((value | 0x8000_0000) == value + 0x8000_0000) by (bit_vector)
            requires
                value < 0x4000_0000,
        ;
        proof {
            be::lemma_be_add_top(n, 128, 4);
        }
        wire::put_u32(buf, (value | 0x8000_0000) as u32);
    } else {
        assert((value | 0xc000_0000_0000_0000) == value % 0x4000_0000_0000_0000
            + 0xc000_0000_0000_0000) by (bit_vector);
        proof {
            be::lemma_be_add_top(n, 192, 8);
        }
        wire::put_u64(buf, value | 0xc000_0000_0000_0000);
    }
}

/// Reads the number at the front of `buf` and moves past it. On a truncated
/// form nothing is read and `buf` stays where it was.
pub fn get_varint(buf: &mut &[u8]) -> (r: Option<u64>)
    ensures
        match varint_at(old(buf)@) {
            Some((v, n)) => r == Some(v) && final(buf)@ == old(buf)@.skip(n as int),
            None => r is None && final(buf)@ == old(buf)@,
        },
{
    let s: &[u8] = *buf;
    if s.len() == 0 {
        return None;
    }
    let first: u8 = s[0];
    let len: usize = if first < 0x40 {
        1
    } else if first < 0x80 {
        2
    } else if first < 0xc0 {
        4
    } else {
        8
    };
    if s.len() < len {
        return None;
    }
    let ghost plain = s@.take(len as int).update(0, first % 64);
    let mut value: u64 = (first % 64) as u64;
    proof {
        be::lemma_pow256_values();
        let one = plain.take(1);
        assert(one.drop_last() == Seq::<u8>::empty());
        assert(be::value(Seq::<u8>::empty()) == 0);
        assert(one.last() == first % 64);
    }
    for i in 1..len
        invariant
            s@.len() >= len,
            len <= 8,
            plain.len() == len,
            forall|k: int| 1 <= k < len ==> plain[k] == s@[k],
            value == be::value(plain.take(i as int)),
    {
        let ghost longer = plain.take(i + 1);
        proof {
            assert(longer.drop_last() == plain.take(i as int));
            be::lemma_be_value_bound(longer);
            be::lemma_pow256_grows((i + 1) as nat, 8);
            be::lemma_pow256_values();
        }
        value = value * 256 + s[i] as u64;
    }
    assert(plain.take(len as int) == plain);
    *buf = slice_subrange(s, len, s.len());
    Some(value)
}

// ---------------------------------------------------------------------------
// Capsule framing
// ---------------------------------------------------------------------------

/// The bytes of a capsule.
pub open spec fn capsule_bytes(typ: u64, value: Seq<u8>) -> Seq<u8> {
    varint(typ) + varint(value.len() as u64) + value
}

/// The type and value of the capsule at the front of `s`, and how many bytes it
/// takes, if it is complete.
pub open spec fn capsule_at(s: Seq<u8>) -> Option<(u64, Seq<u8>, nat)> {
    match varint_at(s) {
        None => None,
        Some((typ, n)) => match varint_at(s.skip(n as int)) {
            None => None,
            Some((len, m)) => if s.len() < n + m + len {
                None
            } else {
                Some((typ, s.subrange((n + m) as int, (n + m + len) as int), n + m + len as nat))
            },
        },
    }
}

/// A capsule is read back from its bytes, and exactly those are consumed,
/// whatever follows them on the stream.
pub proof fn lemma_capsule_round_trip(typ: u64, value: Seq<u8>, rest: Seq<u8>)
    requires
        typ < VARINT_LIMIT,
        value.len() < VARINT_LIMIT,
    ensures
        capsule_at(capsule_bytes(typ, value) + rest) == Some(
            (typ, value, capsule_bytes(typ, value).len()),
        ),
{
    let len = value.len() as u64;
    let s = capsule_bytes(typ, value) + rest;
    let tail = value + rest;
    let n = varint(typ).len();
    let m = varint(len).len();
    lemma_varint_round_trip(typ, varint(len) + tail);
    lemma_varint_round_trip(len, tail);
    assert(s == varint(typ) + (varint(len) + tail));
    assert(s.skip(n as int) == varint(len) + tail);
    assert(s.subrange((n + m) as int, (n + m + len) as int) == value);
}

/// While bytes of a capsule are still missing, no capsule is read.
pub proof fn lemma_capsule_prefix(typ: u64, value: Seq<u8>, k: int)
    requires
        typ < VARINT_LIMIT,
        value.len() < VARINT_LIMIT,
        0 <= k < capsule_bytes(typ, value).len(),
    ensures
        capsule_at(capsule_bytes(typ, value).take(k)) is None,
{
    let len = value.len() as u64;
    let whole = capsule_bytes(typ, value);
    let s = whole.take(k);
    let n = varint(typ).len() as int;
    let m = varint(len).len() as int;
    if k < n {
        assert(s == varint(typ).take(k));
        lemma_varint_prefix(typ, k);
    } else {
        let t = s.skip(n);
        assert(s == varint(typ) + t);
        lemma_varint_round_trip(typ, t);
        if k < n + m {
            assert(t == varint(len).take(k - n));
            lemma_varint_prefix(len, k - n);
        } else {
            assert(t == varint(len) + value.take(k - n - m));
            lemma_varint_round_trip(len, value.take(k - n - m));
        }
    }
}

/// Once a capsule is read, further bytes on the stream do not change it.
pub proof fn lemma_capsule_extend(s: Seq<u8>, rest: Seq<u8>)
    requires
        capsule_at(s) is Some,
    ensures
        capsule_at(s + rest) == capsule_at(s),
        2 <= capsule_at(s).unwrap().2 <= s.len(),
{
    let (_, n) = varint_at(s)->0;
    lemma_varint_extend(s, rest);
    let t = s.skip(n as int);
    assert((s + rest).skip(n as int) == t + rest);
    lemma_varint_extend(t, rest);
    let (len, m) = varint_at(t)->0;
    assert((s + rest).subrange((n + m) as int, (n + m + len) as int) == s.subrange(
        (n + m) as int,
        (n + m + len) as int,
    ));
}

/// Encodes a capsule.
pub fn encode_capsule(typ: u64, value: &[u8]) -> (r: Bytes)
    requires
        wire::fits(capsule_bytes(typ, value@).len()),
    ensures
        wire::held(r) == capsule_bytes(typ, value@),
{
    proof {
        lemma_varint_shape(typ);
        lemma_varint_shape(value@.len() as u64);
    }
    let mut buf = wire::new_buf();
    put_varint(&mut buf, typ);
    put_varint(&mut buf, value.len() as u64);
    wire::put_slice(&mut buf, value);
    wire::freeze(buf)
}

/// Splits the first capsule off the front of `bytes`: its type, its value and
/// how many bytes it takes. `None` asks for more bytes.
pub fn split_capsule(bytes: &[u8]) -> (r: Option<(u64, &[u8], usize)>)
    ensures
        match capsule_at(bytes@) {
            Some((typ, value, used)) => r matches Some((t, v, n)) && t == typ && v@ == value && n
                == used,
            None => r is None,
        },
{
    let mut buf: &[u8] = bytes;
    let typ: u64 = get_varint(&mut buf)?;
    let len: u64 = get_varint(&mut buf)?;
    proof {
        lemma_varint_extend(bytes@, Seq::empty());
        lemma_varint_extend(bytes@.skip(varint_at(bytes@).unwrap().1 as int), Seq::empty());
    }
    if (buf.len() as u64) < len {
        return None;
    }
    let len: usize = len as usize;
    let value = slice_subrange(buf, 0, len);
    let consumed: usize = bytes.len() - buf.len() + len;
    proof {
        let (_, n) = varint_at(bytes@)->0;
        let (_, m) = varint_at(bytes@.skip(n as int))->0;
        assert(value@ == bytes@.subrange((n + m) as int, (n + m + len) as int));
    }
    Some((typ, value, consumed))
}

/// Decodes the first capsule: its type and its value.
pub fn decode_capsule(bytes: &[u8]) -> (r: Option<(u64, Bytes)>)
    ensures
        match capsule_at(bytes@) {
            Some((typ, value, _)) => r matches Some((t, v)) && t == typ && wire::held(v) == value,
            None => r is None,
        },
{
    let (typ, value, _) = split_capsule(bytes)?;
    Some((typ, wire::copy_bytes(value)))
}

/// The data of a datagram payload, when its context ID is zero.
pub open spec fn context_zero(s: Seq<u8>) -> Option<Seq<u8>> {
    match varint_at(s) {
        Some((cid, n)) => if cid == 0 {
            Some(s.skip(n as int))
        } else {
            None
        },
        None => None,
    }
}

/// Strips the context ID from a datagram payload. `None` means that the
/// datagram is dropped: another context, or a truncated number.
pub fn strip_context_id(dgram: &[u8]) -> (r: Option<&[u8]>)
    ensures
        match context_zero(dgram@) {
            Some(data) => r matches Some(d) && d@ == data,
            None => r is None,
        },
{
    let mut buf: &[u8] = dgram;
    let cid: u64 = get_varint(&mut buf)?;
    if cid == 0 {
        Some(buf)
    } else {
        None
    }
}

// ---------------------------------------------------------------------------
// ADDRESS_ASSIGN and ADDRESS_REQUEST payloads
// ---------------------------------------------------------------------------

/// The IP version byte of an address.
pub open spec fn version(ip: IpAddr) -> u8 {
    if ip is V4 {
        4
    } else {
        6
    }
}

/// The number of octets that an IP version byte announces; 0 for no version.
pub open spec fn version_octets(version: u8) -> nat {
    if version == 4 {
        4
    } else if version == 6 {
        16
    } else {
        0
    }
}

/// The longest prefix length of an address: its number of bits.
pub open spec fn max_prefix(ip: IpAddr) -> u8 {
    if ip is V4 {
        32
    } else {
        128
    }
}

impl AssignedAddress {
    /// Whether the entry can be sent and read back.
    pub open spec fn wf(self) -> bool {
        self.request_id < VARINT_LIMIT && self.prefix_len <= max_prefix(self.address)
    }
}

impl IpRange {
    /// Whether the range is of one family and not backwards.
    pub open spec fn wf(self) -> bool {
        match (self.start, self.end) {
            (IpAddr::V4(a), IpAddr::V4(b)) => a <= b,
            (IpAddr::V6(a), IpAddr::V6(b)) => a <= b,
            _ => false,
        }
    }
}

/// The bytes of one address entry.
pub open spec fn address_entry(e: AssignedAddress) -> Seq<u8> {
    varint(e.request_id) + seq![version(e.address)] + e.address.spec_octets() + seq![e.prefix_len]
}

/// The bytes of a sequence of address entries.
pub open spec fn address_bytes(entries: Seq<AssignedAddress>) -> Seq<u8>
    decreases entries.len(),
{
    if entries.len() == 0 {
        Seq::empty()
    } else {
        address_entry(entries[0]) + address_bytes(entries.drop_first())
    }
}

/// The address entry at the front of `s` and how many bytes it takes.
pub open spec fn address_at(s: Seq<u8>) -> Option<(AssignedAddress, nat)> {
    match varint_at(s) {
        None => None,
        Some((request_id, n)) => {
            let t = s.skip(n as int);
            let w = version_octets(t[0]);
            if t.len() == 0 || w == 0 || t.len() < w + 2 || t[w as int + 1] > 8 * w {
                None
            } else {
                let address = IpAddr::from_octets_spec(t.subrange(1, w as int + 1));
                Some((AssignedAddress { request_id, address, prefix_len: t[w as int + 1] }, n + w + 2))
            }
        },
    }
}

/// The address entries that make up the whole of `s`.
pub open spec fn addresses_of(s: Seq<u8>) -> Option<Seq<AssignedAddress>>
    decreases s.len(),
{
    if s.len() == 0 {
        Some(Seq::empty())
    } else {
        match address_at(s) {
            Some((e, n)) => if n > 0 {
                match addresses_of(s.skip(n as int)) {
                    Some(rest) => Some(seq![e] + rest),
                    None => None,
                }
            } else {
                None
            },
            None => None,
        }
    }
}

/// An entry is read back from its bytes, whatever follows.
pub proof fn lemma_address_entry(e: AssignedAddress, rest: Seq<u8>)
    requires
        e.wf(),
    ensures
        address_at(address_entry(e) + rest) == Some((e, address_entry(e).len())),
        address_entry(e).len() > 0,
{
    let s = address_entry(e) + rest;
    let octets = e.address.spec_octets();
    let tail = seq![version(e.address)] + octets + seq![e.prefix_len] + rest;
    crate::addr::lemma_octets_round_trip(e.address);
    lemma_varint_round_trip(e.request_id, tail);
    lemma_varint_shape(e.request_id);
    assert(s == varint(e.request_id) + tail);
    assert(s.skip(varint(e.request_id).len() as int) == tail);
    assert(tail.subrange(1, octets.len() as int + 1) == octets);
}

/// A payload of valid entries is read back entry by entry.
pub proof fn lemma_address_round_trip(entries: Seq<AssignedAddress>)
    requires
        forall|i: int| 0 <= i < entries.len() ==> (#[trigger] entries[i]).wf(),
    ensures
        addresses_of(address_bytes(entries)) == Some(entries),
    decreases entries.len(),
{
    if entries.len() > 0 {
        let e = entries[0];
        let rest = address_bytes(entries.drop_first());
        let s = address_bytes(entries);
        lemma_address_entry(e, rest);
        lemma_address_round_trip(entries.drop_first());
        assert(s.skip(address_entry(e).len() as int) == rest);
        assert(seq![e] + entries.drop_first() == entries);
    }
}

/// A payload that is accepted holds valid entries only.
pub proof fn lemma_addresses_wf(s: Seq<u8>)
    requires
        addresses_of(s) is Some,
    ensures
        forall|i: int| 0 <= i < addresses_of(s).unwrap().len() ==> (#[trigger] addresses_of(
            s,
        ).unwrap()[i]).wf(),
    decreases s.len(),
{
    if s.len() > 0 {
        let (e, n) = address_at(s).unwrap();
        lemma_varint_value_bound(s);
        lemma_addresses_wf(s.skip(n as int));
    }
}

/// A number that is read is below the limit.
pub proof fn lemma_varint_value_bound(s: Seq<u8>)
    requires
        varint_at(s) is Some,
    ensures
        varint_at(s).unwrap().0 < VARINT_LIMIT,
{
    let n = marked_len(s[0]);
    let raw = s.take(n as int).update(0, s[0] % 64);
    be::lemma_be_value_top(raw, 64);
    be::lemma_pow256_values();
    be::lemma_pow256_grows((n - 1) as nat, 7);
}

/// One more entry at the end appends its bytes.
pub proof fn lemma_address_push(entries: Seq<AssignedAddress>, e: AssignedAddress)
    ensures
        address_bytes(entries.push(e)) == address_bytes(entries) + address_entry(e),
    decreases entries.len(),
{
    let more = entries.push(e);
    if entries.len() == 0 {
        assert(more.drop_first() == entries);
        assert(address_bytes(entries) == Seq::<u8>::empty());
        assert(address_bytes(more) == address_entry(e) + address_bytes(entries));
    } else {
        lemma_address_push(entries.drop_first(), e);
        assert(more.drop_first() == entries.drop_first().push(e));
        assert(address_bytes(more) == address_entry(entries[0]) + address_bytes(more.drop_first()));
    }
}

/// The first entries take no more bytes than all of them.
pub proof fn lemma_address_take(entries: Seq<AssignedAddress>, k: int)
    requires
        0 <= k <= entries.len(),
    ensures
        address_bytes(entries.take(k)).len() <= address_bytes(entries).len(),
    decreases entries.len() - k,
{
    if k < entries.len() {
        assert(entries.take(k + 1) == entries.take(k).push(entries[k]));
        lemma_address_push(entries.take(k), entries[k]);
        lemma_address_take(entries, k + 1);
    } else {
        assert(entries.take(k) == entries);
    }
}

/// Appends the version byte and the octets of an address.
fn put_address(buf: &mut BytesMut, ip: IpAddr)
    requires
        wire::fits(wire::written(*old(buf)).len() + 1 + ip.spec_octets().len()),
    ensures
        wire::written(*final(buf)) == wire::written(*old(buf)) + seq![version(ip)]
            + ip.spec_octets(),
{
    let v: u8 = if ip.is_ipv4() {
        4
    } else {
        6
    };
    wire::put_u8(buf, v);
    let octets = ip.octets();
    wire::put_slice(buf, octets.as_slice());
    assert(wire::written(*old(buf)).push(v) == wire::written(*old(buf)) + seq![v]);
}

/// Encodes the payload of an `ADDRESS_ASSIGN` or `ADDRESS_REQUEST` capsule.
pub fn encode_address_value(entries: &[AssignedAddress]) -> (r: Bytes)
    requires
        wire::fits(address_bytes(entries@).len()),
    ensures
        wire::held(r) == address_bytes(entries@),
{
    let mut v = wire::new_buf();
    let n: usize = entries.len();
    assert(entries@.take(0) == Seq::<AssignedAddress>::empty());
    for i in 0..n
        invariant
            n == entries@.len(),
            wire::fits(address_bytes(entries@).len()),
            wire::written(v) == address_bytes(entries@.take(i as int)),
    {
        let e = entries[i];
        let ghost before = entries@.take(i as int);
        proof {
            assert(entries@.take(i + 1) == before.push(e));
            lemma_address_push(before, e);
            lemma_address_take(entries@, i + 1);
            lemma_varint_shape(e.request_id);
        }
        put_varint(&mut v, e.request_id);
        put_address(&mut v, e.address);
        wire::put_u8(&mut v, e.prefix_len);
        assert(wire::written(v) == address_bytes(before) + address_entry(e));
    }
    assert(entries@.take(n as int) == entries@);
    wire::freeze(v)
}

/// Reads an IP version byte and the octets it announces.
fn take_address<'a>(buf: &'a [u8]) -> (r: Option<(IpAddr, &'a [u8])>)
    ensures
        ({
            let w = version_octets(buf@[0]);
            if buf@.len() == 0 || w == 0 || buf@.len() < w + 1 {
                r is None
            } else {
                r matches Some((ip, rest)) && ip == IpAddr::from_octets_spec(
                    buf@.subrange(1, w as int + 1),
                ) && (ip is V4 <==> buf@[0] == 4) && rest@ == buf@.skip(w as int + 1)
            }
        }),
{
    if buf.len() == 0 {
        return None;
    }
    let width: usize = match buf[0] {
        4 => 4,
        6 => 16,
        _ => return None,
    };
    if buf.len() - 1 < width {
        return None;
    }
    let ip = IpAddr::from_octets(slice_subrange(buf, 1, width + 1));
    Some((ip, slice_subrange(buf, width + 1, buf.len())))
}

/// Parses the payload of an `ADDRESS_ASSIGN` or `ADDRESS_REQUEST` capsule.
pub fn decode_address_value(value: &[u8]) -> (r: Option<Vec<AssignedAddress>>)
    ensures
        match addresses_of(value@) {
            Some(entries) => r matches Some(v) && v@ == entries,
            None => r is None,
        },
{
    let mut entries: Vec<AssignedAddress> = Vec::new();
    let mut buf: &[u8] = value;
    proof {
        if addresses_of(value@) is Some {
            let all = addresses_of(value@).unwrap();
            assert(entries@ + all == all);
        }
    }
    while buf.len() > 0
        invariant
            match addresses_of(buf@) {
                Some(rest) => addresses_of(value@) == Some(entries@ + rest),
                None => addresses_of(value@) is None,
            },
        decreases buf@.len(),
    {
        let ghost front = buf@;
        let request_id: u64 = get_varint(&mut buf)?;
        proof {
            lemma_varint_extend(front, Seq::empty());
        }
        let ghost t = buf@;
        let (address, rest) = take_address(buf)?;
        let ghost w = version_octets(t[0]);
        buf = rest;
        if buf.len() == 0 {
            return None;
        }
        let prefix_len: u8 = buf[0];
        buf = slice_subrange(buf, 1, buf.len());
        let max_prefix: u8 = if address.is_ipv4() {
            32
        } else {
            128
        };
        if prefix_len > max_prefix {
            return None;
        }
        let e = AssignedAddress { request_id, address, prefix_len };
        proof {
            let (_, n) = varint_at(front).unwrap();
            assert(address_at(front) == Some((e, n + w + 2)));
            assert(buf@ == front.skip((n + w + 2) as int));
            if addresses_of(buf@) is Some {
                let tail = addresses_of(buf@).unwrap();
                assert(entries@ + (seq![e] + tail) == entries@.push(e) + tail);
            }
        }
        entries.push(e);
    }
    assert(entries@ + Seq::<AssignedAddress>::empty() == entries@);
    Some(entries)
}

/// Encodes a whole `ADDRESS_ASSIGN` capsule.
pub fn encode_address_assign(entries: &[AssignedAddress]) -> (r: Bytes)
    requires
        wire::fits(capsule_bytes(CAPSULE_ADDRESS_ASSIGN, address_bytes(entries@)).len()),
    ensures
        wire::held(r) == capsule_bytes(CAPSULE_ADDRESS_ASSIGN, address_bytes(entries@)),
{
    let value = encode_address_value(entries);
    encode_capsule(CAPSULE_ADDRESS_ASSIGN, wire::as_slice(&value))
}

/// Encodes a whole `ADDRESS_REQUEST` capsule.
pub fn encode_address_request(entries: &[AssignedAddress]) -> (r: Bytes)
    requires
        wire::fits(capsule_bytes(CAPSULE_ADDRESS_REQUEST, address_bytes(entries@)).len()),
    ensures
        wire::held(r) == capsule_bytes(CAPSULE_ADDRESS_REQUEST, address_bytes(entries@)),
{
    let value = encode_address_value(entries);
    encode_capsule(CAPSULE_ADDRESS_REQUEST, wire::as_slice(&value))
}

/// The entries of the `ADDRESS_ASSIGN` capsule at the front of `s`.
pub open spec fn assignment_of(s: Seq<u8>) -> Option<Seq<AssignedAddress>> {
    match capsule_at(s) {
        Some((typ, value, _)) => if typ == CAPSULE_ADDRESS_ASSIGN {
            addresses_of(value)
        } else {
            None
        },
        None => None,
    }
}

/// Decodes a whole `ADDRESS_ASSIGN` capsule. `None` for another type, an
/// incomplete capsule or a malformed payload.
pub fn decode_address_assign(capsule: &[u8]) -> (r: Option<Vec<AssignedAddress>>)
    ensures
        match assignment_of(capsule@) {
            Some(entries) => r matches Some(v) && v@ == entries,
            None => r is None,
        },
{
    let (typ, value) = decode_capsule(capsule)?;
    if typ == CAPSULE_ADDRESS_ASSIGN {
        decode_address_value(wire::as_slice(&value))
    } else {
        None
    }
}

// ---------------------------------------------------------------------------
// ROUTE_ADVERTISEMENT payloads
// ---------------------------------------------------------------------------

/// The bytes of one range.
pub open spec fn route_entry(r: IpRange) -> Seq<u8> {
    seq![version(r.start)] + r.start.spec_octets() + r.end.spec_octets() + seq![r.ip_protocol]
}

/// The bytes of a sequence of ranges.
pub open spec fn route_bytes(ranges: Seq<IpRange>) -> Seq<u8>
    decreases ranges.len(),
{
    if ranges.len() == 0 {
        Seq::empty()
    } else {
        route_entry(ranges[0]) + route_bytes(ranges.drop_first())
    }
}

/// The range at the front of `s` and how many bytes it takes.
pub open spec fn route_at(s: Seq<u8>) -> Option<(IpRange, nat)> {
    let w = version_octets(s[0]);
    if s.len() == 0 || w == 0 || s.len() < 2 * w + 2 {
        None
    } else {
        let r = IpRange {
            start: IpAddr::from_octets_spec(s.subrange(1, w as int + 1)),
            end: IpAddr::from_octets_spec(s.subrange(w as int + 1, 2 * w as int + 1)),
            ip_protocol: s[2 * w as int + 1],
        };
        if r.wf() {
            Some((r, 2 * w + 2))
        } else {
            None
        }
    }
}

/// The ranges that make up the whole of `s`.
pub open spec fn routes_of(s: Seq<u8>) -> Option<Seq<IpRange>>
    decreases s.len(),
{
    if s.len() == 0 {
        Some(Seq::empty())
    } else {
        match route_at(s) {
            Some((r, n)) => if n > 0 {
                match routes_of(s.skip(n as int)) {
                    Some(rest) => Some(seq![r] + rest),
                    None => None,
                }
            } else {
                None
            },
            None => None,
        }
    }
}

/// A range is read back from its bytes, whatever follows.
pub proof fn lemma_route_entry(r: IpRange, rest: Seq<u8>)
    requires
        r.wf(),
    ensures
        route_at(route_entry(r) + rest) == Some((r, route_entry(r).len())),
        route_entry(r).len() > 0,
{
    let s = route_entry(r) + rest;
    let a = r.start.spec_octets();
    let b = r.end.spec_octets();
    crate::addr::lemma_octets_round_trip(r.start);
    crate::addr::lemma_octets_round_trip(r.end);
    assert(s.subrange(1, a.len() as int + 1) == a);
    assert(s.subrange(a.len() as int + 1, 2 * a.len() as int + 1) == b);
}

/// A payload of valid ranges is read back range by range.
pub proof fn lemma_route_round_trip(ranges: Seq<IpRange>)
    requires
        forall|i: int| 0 <= i < ranges.len() ==> (#[trigger] ranges[i]).wf(),
    ensures
        routes_of(route_bytes(ranges)) == Some(ranges),
    decreases ranges.len(),
{
    if ranges.len() > 0 {
        let r = ranges[0];
        let rest = route_bytes(ranges.drop_first());
        lemma_route_entry(r, rest);
        lemma_route_round_trip(ranges.drop_first());
        assert(route_bytes(ranges).skip(route_entry(r).len() as int) == rest);
        assert(seq![r] + ranges.drop_first() == ranges);
    }
}

/// A payload that is accepted is the encoding of the ranges read from it, all
/// of them valid.
pub proof fn lemma_route_canonical(s: Seq<u8>)
    requires
        routes_of(s) is Some,
    ensures
        route_bytes(routes_of(s).unwrap()) == s,
        forall|i: int| 0 <= i < routes_of(s).unwrap().len() ==> (#[trigger] routes_of(
            s,
        ).unwrap()[i]).wf(),
    decreases s.len(),
{
    if s.len() > 0 {
        let (r, n) = route_at(s).unwrap();
        let rest = s.skip(n as int);
        let w = version_octets(s[0]) as int;
        lemma_route_canonical(rest);
        let a = s.subrange(1, w + 1);
        let b = s.subrange(w + 1, 2 * w + 1);
        be::lemma_pow256_values();
        be::lemma_be_value_bound(a);
        be::lemma_be_value_bound(b);
        be::lemma_be_value_round_trip(a);
        be::lemma_be_value_round_trip(b);
        assert(r.start.spec_octets() == a);
        assert(r.end.spec_octets() == b);
        assert(s.take(n as int) == route_entry(r));
        let tail = routes_of(rest).unwrap();
        assert((seq![r] + tail).drop_first() == tail);
        assert(s == s.take(n as int) + rest);
    }
}

/// One more range at the end appends its bytes.
pub proof fn lemma_route_push(ranges: Seq<IpRange>, r: IpRange)
    ensures
        route_bytes(ranges.push(r)) == route_bytes(ranges) + route_entry(r),
    decreases ranges.len(),
{
    let more = ranges.push(r);
    if ranges.len() == 0 {
        assert(more.drop_first() == ranges);
        assert(route_bytes(ranges) == Seq::<u8>::empty());
        assert(route_bytes(more) == route_entry(r) + route_bytes(ranges));
    } else {
        lemma_route_push(ranges.drop_first(), r);
        assert(more.drop_first() == ranges.drop_first().push(r));
        assert(route_bytes(more) == route_entry(ranges[0]) + route_bytes(more.drop_first()));
    }
}

/// The first ranges take no more bytes than all of them.
pub proof fn lemma_route_take(ranges: Seq<IpRange>, k: int)
    requires
        0 <= k <= ranges.len(),
    ensures
        route_bytes(ranges.take(k)).len() <= route_bytes(ranges).len(),
    decreases ranges.len() - k,
{
    if k < ranges.len() {
        assert(ranges.take(k + 1) == ranges.take(k).push(ranges[k]));
        lemma_route_push(ranges.take(k), ranges[k]);
        lemma_route_take(ranges, k + 1);
    } else {
        assert(ranges.take(k) == ranges);
    }
}

/// Encodes the payload of a `ROUTE_ADVERTISEMENT` capsule.
pub fn encode_route_value(ranges: &[IpRange]) -> (r: Bytes)
    requires
        wire::fits(route_bytes(ranges@).len()),
    ensures
        wire::held(r) == route_bytes(ranges@),
{
    let mut v = wire::new_buf();
    let n: usize = ranges.len();
    assert(ranges@.take(0) == Seq::<IpRange>::empty());
    for i in 0..n
        invariant
            n == ranges@.len(),
            wire::fits(route_bytes(ranges@).len()),
            wire::written(v) == route_bytes(ranges@.take(i as int)),
    {
        let range = ranges[i];
        let ghost before = ranges@.take(i as int);
        proof {
            assert(ranges@.take(i + 1) == before.push(range));
            lemma_route_push(before, range);
            lemma_route_take(ranges@, i + 1);
        }
        put_address(&mut v, range.start);
        let end = range.end.octets();
        wire::put_slice(&mut v, end.as_slice());
        wire::put_u8(&mut v, range.ip_protocol);
        assert(wire::written(v) == route_bytes(before) + route_entry(range));
    }
    assert(ranges@.take(n as int) == ranges@);
    wire::freeze(v)
}

/// Whether `a` comes after `b` in the same family.
fn is_after(a: IpAddr, b: IpAddr) -> (r: bool)
    requires
        a is V4 <==> b is V4,
    ensures
        r == !(IpRange { start: a, end: b, ip_protocol: 0 }).wf(),
{
    match (a, b) {
        (IpAddr::V4(x), IpAddr::V4(y)) => x > y,
        (IpAddr::V6(x), IpAddr::V6(y)) => x > y,
        _ => true,
    }
}

/// Parses the payload of a `ROUTE_ADVERTISEMENT` capsule.
pub fn decode_route_value(value: &[u8]) -> (r: Option<Vec<IpRange>>)
    ensures
        match routes_of(value@) {
            Some(ranges) => r matches Some(v) && v@ == ranges,
            None => r is None,
        },
{
    let mut ranges: Vec<IpRange> = Vec::new();
    let mut buf: &[u8] = value;
    proof {
        if routes_of(value@) is Some {
            let all = routes_of(value@).unwrap();
            assert(ranges@ + all == all);
        }
    }
    while buf.len() > 0
        invariant
            match routes_of(buf@) {
                Some(rest) => routes_of(value@) == Some(ranges@ + rest),
                None => routes_of(value@) is None,
            },
        decreases buf@.len(),
    {
        let ghost front = buf@;
        let addr_len: usize = match buf[0] {
            4 => 4,
            6 => 16,
            _ => return None,
        };
        if buf.len() - 1 < addr_len * 2 + 1 {
            return None;
        }
        let start = IpAddr::from_octets(slice_subrange(buf, 1, addr_len + 1));
        let end = IpAddr::from_octets(slice_subrange(buf, addr_len + 1, addr_len * 2 + 1));
        let ip_protocol: u8 = buf[addr_len * 2 + 1];
        buf = slice_subrange(buf, addr_len * 2 + 2, buf.len());
        if is_after(start, end) {
            return None;
        }
        let range = IpRange { start, end, ip_protocol };
        proof {
            assert(route_at(front) == Some((range, (2 * addr_len + 2) as nat)));
            if routes_of(buf@) is Some {
                let tail = routes_of(buf@).unwrap();
                assert(ranges@ + (seq![range] + tail) == ranges@.push(range) + tail);
            }
        }
        ranges.push(range);
    }
    assert(ranges@ + Seq::<IpRange>::empty() == ranges@);
    Some(ranges)
}

/// Encodes a whole `ROUTE_ADVERTISEMENT` capsule.
pub fn encode_route_advertisement(ranges: &[IpRange]) -> (r: Bytes)
    requires
        wire::fits(capsule_bytes(CAPSULE_ROUTE_ADVERTISEMENT, route_bytes(ranges@)).len()),
    ensures
        wire::held(r) == capsule_bytes(CAPSULE_ROUTE_ADVERTISEMENT, route_bytes(ranges@)),
{
    let value = encode_route_value(ranges);
    encode_capsule(CAPSULE_ROUTE_ADVERTISEMENT, wire::as_slice(&value))
}

/// The ranges of the `ROUTE_ADVERTISEMENT` capsule at the front of `s`.
pub open spec fn advertisement_of(s: Seq<u8>) -> Option<Seq<IpRange>> {
    match capsule_at(s) {
        Some((typ, value, _)) => if typ == CAPSULE_ROUTE_ADVERTISEMENT {
            routes_of(value)
        } else {
            None
        },
        None => None,
    }
}

/// Decodes a whole `ROUTE_ADVERTISEMENT` capsule. `None` for another type, an
/// incomplete capsule or a malformed payload.
pub fn decode_route_advertisement(capsule: &[u8]) -> (r: Option<Vec<IpRange>>)
    ensures
        match advertisement_of(capsule@) {
            Some(ranges) => r matches Some(v) && v@ == ranges,
            None => r is None,
        },
{
    let (typ, value) = decode_capsule(capsule)?;
    if typ == CAPSULE_ROUTE_ADVERTISEMENT {
        decode_route_value(wire::as_slice(&value))
    } else {
        None
    }
}

/// An `ADDRESS_ASSIGN` capsule of valid entries is read back, whatever follows
/// it, and is no `ROUTE_ADVERTISEMENT`.
pub proof fn lemma_assignment_round_trip(entries: Seq<AssignedAddress>, rest: Seq<u8>)
    requires
        forall|i: int| 0 <= i < entries.len() ==> (#[trigger] entries[i]).wf(),
        address_bytes(entries).len() < VARINT_LIMIT,
    ensures
        assignment_of(capsule_bytes(CAPSULE_ADDRESS_ASSIGN, address_bytes(entries)) + rest) == Some(
            entries,
        ),
        advertisement_of(capsule_bytes(CAPSULE_ADDRESS_ASSIGN, address_bytes(entries)) + rest)
            is None,
{
    lemma_address_round_trip(entries);
    lemma_capsule_round_trip(CAPSULE_ADDRESS_ASSIGN, address_bytes(entries), rest);
}

/// A `ROUTE_ADVERTISEMENT` capsule of valid ranges is read back, whatever follows
/// it, and is no `ADDRESS_ASSIGN`.
pub proof fn lemma_advertisement_round_trip(ranges: Seq<IpRange>, rest: Seq<u8>)
    requires
        forall|i: int| 0 <= i < ranges.len() ==> (#[trigger] ranges[i]).wf(),
        route_bytes(ranges).len() < VARINT_LIMIT,
    ensures
        advertisement_of(capsule_bytes(CAPSULE_ROUTE_ADVERTISEMENT, route_bytes(ranges)) + rest)
            == Some(ranges),
        assignment_of(capsule_bytes(CAPSULE_ROUTE_ADVERTISEMENT, route_bytes(ranges)) + rest)
            is None,
{
    lemma_route_round_trip(ranges);
    lemma_capsule_round_trip(CAPSULE_ROUTE_ADVERTISEMENT, route_bytes(ranges), rest);
}

// ---------------------------------------------------------------------------
// Laws of the wire format
// ---------------------------------------------------------------------------

/// The variable-length form of a number, byte by byte: below 2^6 the number
/// itself; below 2^14 two bytes with 64 added to the first; below 2^30 four bytes
/// with 128 added to the first; below 2^62 eight bytes with 192 added.
pub proof fn lemma_varint_bytes(v: u64)
    ensures
        v < 64 ==> varint(v) == seq![v as u8],
        64 <= v < 0x4000 ==> varint(v) == seq![(0x40 + v / 0x100) as u8, (v % 0x100) as u8],
        0x4000 <= v < 0x4000_0000 ==> varint(v) == seq![
            (0x80 + v / 0x100_0000) as u8,
            ((v / 0x1_0000) % 0x100) as u8,
            ((v / 0x100) % 0x100) as u8,
            (v % 0x100) as u8,
        ],
        0x4000_0000 <= v < 0x4000_0000_0000_0000 ==> varint(v) == seq![
            (0xc0 + v / 0x100_0000_0000_0000) as u8,
            ((v / 0x1_0000_0000_0000) % 0x100) as u8,
            ((v / 0x100_0000_0000) % 0x100) as u8,
            ((v / 0x1_0000_0000) % 0x100) as u8,
            ((v / 0x100_0000) % 0x100) as u8,
            ((v / 0x1_0000) % 0x100) as u8,
            ((v / 0x100) % 0x100) as u8,
            (v % 0x100) as u8,
        ],
{
    if v < 0x4000_0000_0000_0000 {
        let n = v as nat;
        assert(v % VARINT_LIMIT == v);
        be::lemma_be_one(n);
        be::lemma_be_two(n);
        be::lemma_be_four(n);
        be::lemma_be_eight(n);
    }
}

/// A capsule with a small type and a short value is the type, the length and the
/// value.
pub proof fn lemma_short_capsule(typ: u64, value: Seq<u8>)
    requires
        typ < 64,
        value.len() < 64,
    ensures
        capsule_bytes(typ, value) == seq![typ as u8, value.len() as u8] + value,
{
    lemma_varint_bytes(typ);
    lemma_varint_bytes(value.len() as u64);
}

/// The capsules of an IP tunnel are of the types 1, 2 and 3.
pub proof fn lemma_capsule_types(value: Seq<u8>, rest: Seq<u8>)
    requires
        value.len() < 64,
    ensures
        assignment_of(seq![1u8, value.len() as u8] + value + rest) == addresses_of(value),
        advertisement_of(seq![3u8, value.len() as u8] + value + rest) == routes_of(value),
        capsule_bytes(CAPSULE_ADDRESS_REQUEST, value) == seq![2u8, value.len() as u8] + value,
{
    lemma_short_capsule(1, value);
    lemma_short_capsule(2, value);
    lemma_short_capsule(3, value);
    lemma_capsule_round_trip(1, value, rest);
    lemma_capsule_round_trip(3, value, rest);
}

/// A datagram of context zero carries what follows that number, and one of any
/// other context carries nothing.
pub proof fn lemma_contexts(context: u64, data: Seq<u8>)
    requires
        context < VARINT_LIMIT,
    ensures
        context_zero(seq![0u8] + data) == Some(data),
        context > 0 ==> context_zero(varint(context) + data) is None,
        context_zero(Seq::<u8>::empty()) is None,
{
    lemma_varint_bytes(0);
    lemma_varint_round_trip(0, data);
    lemma_varint_round_trip(context, data);
    assert((seq![0u8] + data).skip(1) == data);
}

/// An address entry on the wire: the request number, 4 or 6, the octets of that
/// family, and the prefix length.
pub proof fn lemma_address_layout(request_id: u64, n4: u32, n6: u128, prefix_len: u8)
    requires
        request_id < 64,
    ensures
        address_entry(AssignedAddress { request_id, address: IpAddr::V4(n4), prefix_len }) == seq![
            request_id as u8,
            4u8,
        ] + be::bytes(n4 as nat, 4) + seq![prefix_len],
        address_entry(AssignedAddress { request_id, address: IpAddr::V6(n6), prefix_len }) == seq![
            request_id as u8,
            6u8,
        ] + be::bytes(n6 as nat, 16) + seq![prefix_len],
{
    lemma_varint_bytes(request_id);
}

/// A prefix length is accepted up to the number of bits of its address, and no
/// further; another version than 4 and 6 is refused.
pub proof fn lemma_address_bounds(octets: Seq<u8>, version: u8, prefix_len: u8)
    ensures
        octets.len() == 4 && version == 4 ==> (addresses_of(
            seq![0u8, version] + octets + seq![prefix_len],
        ) is Some <==> prefix_len <= 32),
        octets.len() == 16 && version == 6 ==> (addresses_of(
            seq![0u8, version] + octets + seq![prefix_len],
        ) is Some <==> prefix_len <= 128),
        version != 4 && version != 6 ==> addresses_of(
            seq![0u8, version] + octets + seq![prefix_len],
        ) is None,
        octets.len() < 4 && version == 4 ==> addresses_of(
            seq![0u8, version] + octets + seq![prefix_len],
        ) is None,
        octets.len() < 16 && version == 6 ==> addresses_of(
            seq![0u8, version] + octets + seq![prefix_len],
        ) is None,
{
    let tail = seq![version] + octets + seq![prefix_len];
    let s = seq![0u8, version] + octets + seq![prefix_len];
    lemma_varint_bytes(0);
    lemma_varint_round_trip(0, tail);
    assert(s == varint(0) + tail);
    assert(s.skip(1) == tail);
    reveal_with_fuel(addresses_of, 2);
    if octets.len() == 4 && version == 4 && prefix_len <= 32 {
        assert(s.skip(7).len() == 0);
    }
    if octets.len() == 16 && version == 6 && prefix_len <= 128 {
        assert(s.skip(19).len() == 0);
    }
}

/// A range on the wire: 4 or 6, the octets of the start, the octets of the end,
/// and the protocol.
pub proof fn lemma_route_layout(a4: u32, b4: u32, a6: u128, b6: u128, ip_protocol: u8)
    ensures
        route_entry(IpRange { start: IpAddr::V4(a4), end: IpAddr::V4(b4), ip_protocol }) == seq![
            4u8,
        ] + be::bytes(a4 as nat, 4) + be::bytes(b4 as nat, 4) + seq![ip_protocol],
        route_entry(IpRange { start: IpAddr::V6(a6), end: IpAddr::V6(b6), ip_protocol }) == seq![
            6u8,
        ] + be::bytes(a6 as nat, 16) + be::bytes(b6 as nat, 16) + seq![ip_protocol],
{
}

/// A range is accepted exactly when it does not run backwards.
pub proof fn lemma_route_order(a4: u32, b4: u32, a6: u128, b6: u128, ip_protocol: u8)
    ensures
        routes_of(
            seq![4u8] + be::bytes(a4 as nat, 4) + be::bytes(b4 as nat, 4) + seq![ip_protocol],
        ) is Some <==> a4 <= b4,
        routes_of(
            seq![6u8] + be::bytes(a6 as nat, 16) + be::bytes(b6 as nat, 16) + seq![ip_protocol],
        ) is Some <==> a6 <= b6,
{
    let r4 = IpRange { start: IpAddr::V4(a4), end: IpAddr::V4(b4), ip_protocol };
    let r6 = IpRange { start: IpAddr::V6(a6), end: IpAddr::V6(b6), ip_protocol };
    let s4 = route_entry(r4);
    let s6 = route_entry(r6);
    addr::lemma_octets_round_trip(r4.start);
    addr::lemma_octets_round_trip(r4.end);
    addr::lemma_octets_round_trip(r6.start);
    addr::lemma_octets_round_trip(r6.end);
    assert(s4.subrange(1, 5) == r4.start.spec_octets());
    assert(s4.subrange(5, 9) == r4.end.spec_octets());
    assert(s6.subrange(1, 17) == r6.start.spec_octets());
    assert(s6.subrange(17, 33) == r6.end.spec_octets());
    reveal_with_fuel(routes_of, 2);
    assert(s4.skip(10).len() == 0);
    assert(s6.skip(34).len() == 0);
}

/// A number is read by the two highest bits of its first byte: they say whether
/// it takes one, two, four or eight bytes, and the others are its digits. It need
/// not be in its shortest form.
pub proof fn lemma_varint_read(a: u8, b: u8, c: u8, d: u8, low: Seq<u8>, rest: Seq<u8>)
    requires
        a < 64,
        low.len() == 4,
    ensures
        varint_at(seq![a] + rest) == Some((a as u64, 1nat)),
        varint_at(seq![(64 + a) as u8, b] + rest) == Some(((a * 0x100 + b) as u64, 2nat)),
        varint_at(seq![(128 + a) as u8, b, c, d] + rest) == Some(
            ((a * 0x100_0000 + b * 0x1_0000 + c * 0x100 + d) as u64, 4nat),
        ),
        varint_at(seq![(192 + a) as u8, b, c, d] + low + rest) == Some(
            (
                ((a * 0x100_0000 + b * 0x1_0000 + c * 0x100 + d) * 0x1_0000_0000 + be::value(
                    low,
                )) as u64,
                8nat,
            ),
        ),
{
    be::lemma_be_weights(a, b, c, d);
    be::lemma_be_weights(a, b, 0, 0);
    reveal_with_fuel(be::value, 2);
    let s1 = seq![a] + rest;
    assert(s1.take(1).update(0, s1[0] % 64) == seq![a]);
    assert(seq![a].drop_last() == Seq::<u8>::empty());
    let s2 = seq![(64 + a) as u8, b] + rest;
    assert(s2.take(2).update(0, s2[0] % 64) == seq![a, b]);
    let s4 = seq![(128 + a) as u8, b, c, d] + rest;
    assert(s4.take(4).update(0, s4[0] % 64) == seq![a, b, c, d]);
    let s8 = seq![(192 + a) as u8, b, c, d] + low + rest;
    assert(s8.take(8).update(0, s8[0] % 64) == seq![a, b, c, d] + low);
    be::lemma_be_concat(seq![a, b, c, d], low);
    be::lemma_pow256_values();
}

/// A number that is cut off is not read.
pub proof fn lemma_varint_cut(s: Seq<u8>)
    ensures
        varint_at(Seq::<u8>::empty()) is None,
        s.len() == 1 && s[0] >= 64 ==> varint_at(s) is None,
        0 < s.len() < 4 && s[0] >= 128 ==> varint_at(s) is None,
        0 < s.len() < 8 && s[0] >= 192 ==> varint_at(s) is None,
{
}

/// A capsule is a type, a length and as many bytes, however the two numbers are
/// written; while there are fewer bytes it is not there yet.
pub proof fn lemma_capsule_read(s: Seq<u8>, typ: u64, n: nat, len: u64, m: nat)
    requires
        varint_at(s) == Some((typ, n)),
        varint_at(s.skip(n as int)) == Some((len, m)),
    ensures
        s.len() < n + m + len ==> capsule_at(s) is None,
        s.len() >= n + m + len ==> capsule_at(s) == Some(
            (typ, s.subrange((n + m) as int, (n + m + len) as int), n + m + len as nat),
        ),
{
}

/// A list of addresses is read entry by entry, to its end: one more entry in
/// front is one more address, and what is malformed behind it spoils the list.
pub proof fn lemma_address_lists(e: AssignedAddress, s: Seq<u8>)
    requires
        e.wf(),
    ensures
        addresses_of(s) matches Some(rest) ==> addresses_of(address_entry(e) + s) == Some(
            seq![e] + rest,
        ),
        addresses_of(s) is None ==> addresses_of(address_entry(e) + s) is None,
        addresses_of(Seq::<u8>::empty()) == Some(Seq::<AssignedAddress>::empty()),
{
    let n = address_entry(e).len();
    lemma_address_entry(e, s);
    assert((address_entry(e) + s).skip(n as int) == s);
}

/// A list of ranges is read range by range, to its end: one more range in front
/// is one more range, and what is malformed behind it spoils the list.
pub proof fn lemma_route_lists(r: IpRange, s: Seq<u8>)
    requires
        r.wf(),
    ensures
        routes_of(s) matches Some(rest) ==> routes_of(route_entry(r) + s) == Some(seq![r] + rest),
        routes_of(s) is None ==> routes_of(route_entry(r) + s) is None,
        routes_of(Seq::<u8>::empty()) == Some(Seq::<IpRange>::empty()),
{
    let n = route_entry(r).len();
    lemma_route_entry(r, s);
    assert((route_entry(r) + s).skip(n as int) == s);
}

/// What can be sent and read back: an address with a prefix of at most its bits
/// and a number below 2^62, and a range of one family that does not run
/// backwards.
pub proof fn lemma_sound_entries(id: u64, a4: u32, b4: u32, a6: u128, b6: u128, x: u8)
    ensures
        (AssignedAddress { request_id: id, address: IpAddr::V4(a4), prefix_len: x }).wf() <==> id
            < 0x4000_0000_0000_0000 && x <= 32,
        (AssignedAddress { request_id: id, address: IpAddr::V6(a6), prefix_len: x }).wf() <==> id
            < 0x4000_0000_0000_0000 && x <= 128,
        (IpRange { start: IpAddr::V4(a4), end: IpAddr::V4(b4), ip_protocol: x }).wf() <==> a4 <= b4,
        (IpRange { start: IpAddr::V6(a6), end: IpAddr::V6(b6), ip_protocol: x }).wf() <==> a6 <= b6,
        !(IpRange { start: IpAddr::V4(a4), end: IpAddr::V6(b6), ip_protocol: x }).wf(),
        !(IpRange { start: IpAddr::V6(a6), end: IpAddr::V4(b4), ip_protocol: x }).wf(),
{
}

} // verus!
