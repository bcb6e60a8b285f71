//! IP addresses as numbers, their octets and their textual form.
use vstd::prelude::*;
use vstd::string::StrSliceExecFns;
use crate::be;
use crate::text;

verus! {

/// An IP address: the 32 or 128 bits of it as a big-endian number.
#[derive(Debug, Clone, Copy, PartialEq, Eq, Structural)]
pub enum IpAddr {
    V4(u32),
    V6(u128),
}

/// An IP address and a port.
#[derive(Debug, Clone, Copy, PartialEq, Eq, Structural)]
pub struct SocketAddr {
    pub ip: IpAddr,
    pub port: u16,
}

impl IpAddr {
    /// The octets of the address in network order.
    pub open spec fn spec_octets(self) -> Seq<u8> {
        match self {
            IpAddr::V4(n) => be::bytes(n as nat, 4),
            IpAddr::V6(n) => be::bytes(n as nat, 16),
        }
    }

    /// The address of either family whose octets are `s` (4 or 16 of them).
    pub open spec fn from_octets_spec(s: Seq<u8>) -> IpAddr {
        if s.len() == 4 {
            IpAddr::V4(be::value(s) as u32)
        } else {
            IpAddr::V6(be::value(s) as u128)
        }
    }

    /// The IPv4 address `a.b.c.d`.
    pub fn v4(a: u8, b: u8, c: u8, d: u8) -> (r: IpAddr)
        ensures
            r == IpAddr::from_octets_spec(seq![a, b, c, d]),
            r.spec_octets() == seq![a, b, c, d],
    {
        let raw: [u8; 4] = [a, b, c, d];
        assert(raw@ == seq![a, b, c, d]);
        IpAddr::from_octets(raw.as_slice())
    }

    /// The address of either family whose octets are `raw`.
    pub fn from_octets(raw: &[u8]) -> (r: IpAddr)
        requires
            raw@.len() == 4 || raw@.len() == 16,
        ensures
            r == IpAddr::from_octets_spec(raw@),
            r.spec_octets() == raw@,
            r is V4 <==> raw@.len() == 4,
    {
        let n: u128 = be::read_be(raw);
        proof {
            be::lemma_be_value_bound(raw@);
            be::lemma_pow256_values();
            be::lemma_be_value_round_trip(raw@);
        }
        if raw.len() == 4 {
            IpAddr::V4(n as u32)
        } else {
            IpAddr::V6(n)
        }
    }

    /// The octets of the address in network order.
    pub fn octets(&self) -> (r: Vec<u8>)
        ensures
            r@ == self.spec_octets(),
            r@.len() == (if *self is V4 {
                4nat
            } else {
                16nat
            }),
            IpAddr::from_octets_spec(r@) == *self,
    {
        proof {
            lemma_octets_round_trip(*self);
        }
        match self {
            IpAddr::V4(n) => be::write_be(*n as u128, 4),
            IpAddr::V6(n) => be::write_be(*n, 16),
        }
    }

    /// Whether this is an IPv4 address.
    pub fn is_ipv4(&self) -> (r: bool)
        ensures
            r == (*self is V4),
    {
        match self {
            IpAddr::V4(_) => true,
            IpAddr::V6(_) => false,
        }
    }
}

/// An address is the one that its octets denote.
pub proof fn lemma_octets_round_trip(ip: IpAddr)
    ensures
        IpAddr::from_octets_spec(ip.spec_octets()) == ip,
        ip.spec_octets().len() == (if ip is V4 {
            4nat
        } else {
            16nat
        }),
{
    be::lemma_pow256_values();
    match ip {
        IpAddr::V4(n) => be::lemma_be_round_trip(n as nat, 4),
        IpAddr::V6(n) => be::lemma_be_round_trip(n as nat, 16),
    }
}

// ---------------------------------------------------------------------------
// Textual addresses
// ---------------------------------------------------------------------------

/// The number that one part of a dotted IPv4 literal denotes: one to three
/// digits without a leading zero, at most 255.
pub open spec fn octet_of(s: Seq<char>) -> Option<u8> {
    if 1 <= s.len() <= 3 && text::all_digits(s) && (s.len() == 1 || s[0] != '0')
        && text::digits_value(s) <= 255 {
        Some(text::digits_value(s) as u8)
    } else {
        None
    }
}

/// The address that a dotted IPv4 literal denotes.
pub open spec fn ipv4_of(s: Seq<char>) -> Option<u32> {
    let p = text::split_seq(s, '.');
    if p.len() == 4 && octet_of(p[0]) is Some && octet_of(p[1]) is Some && octet_of(p[2]) is Some
        && octet_of(p[3]) is Some {
        Some(
            be::value(
                seq![
                    octet_of(p[0]).unwrap(),
                    octet_of(p[1]).unwrap(),
                    octet_of(p[2]).unwrap(),
                    octet_of(p[3]).unwrap(),
                ],
            ) as u32,
        )
    } else {
        None
    }
}

/// The value of a hexadecimal digit, in either case.
pub open spec fn hex_digit(c: char) -> Option<nat> {
    if '0' <= c <= '9' {
        Some((c as nat - '0' as nat) as nat)
    } else if 'a' <= c <= 'f' {
        Some((c as nat - 'a' as nat + 10) as nat)
    } else if 'A' <= c <= 'F' {
        Some((c as nat - 'A' as nat + 10) as nat)
    } else {
        None
    }
}

/// Whether every character is a hexadecimal digit.
pub open spec fn all_hex(s: Seq<char>) -> bool {
    forall|i: int| 0 <= i < s.len() ==> hex_digit(#[trigger] s[i]) is Some
}

/// The number that hexadecimal digits denote.
pub open spec fn hex_value(s: Seq<char>) -> nat
    decreases s.len(),
{
    if s.len() == 0 {
        0
    } else {
        hex_value(s.drop_last()) * 16 + hex_digit(s.last()).unwrap()
    }
}

/// The number that one group of an IPv6 literal denotes: one to four
/// hexadecimal digits.
pub open spec fn group_of(s: Seq<char>) -> Option<u16> {
    if 1 <= s.len() <= 4 && all_hex(s) {
        Some(hex_value(s) as u16)
    } else {
        None
    }
}

/// The groups that the parts denote, when each of them is a group.
pub open spec fn hex_groups(parts: Seq<Seq<char>>) -> Option<Seq<u16>> {
    if forall|i: int| 0 <= i < parts.len() ==> group_of(#[trigger] parts[i]) is Some {
        Some(parts.map_values(|p: Seq<char>| group_of(p).unwrap()))
    } else {
        None
    }
}

/// The groups of a run of an IPv6 literal. With `dotted`, the last part may be
/// an IPv4 literal, which counts as two groups.
pub open spec fn groups_of(s: Seq<char>, dotted: bool) -> Option<Seq<u16>> {
    let parts = text::split_seq(s, ':');
    if s.len() == 0 {
        Some(Seq::empty())
    } else if dotted && ipv4_of(parts.last()) is Some {
        let v = ipv4_of(parts.last()).unwrap();
        match hex_groups(parts.drop_last()) {
            Some(front) => Some(front + seq![(v / 0x1_0000) as u16, (v % 0x1_0000) as u16]),
            None => None,
        }
    } else {
        hex_groups(parts)
    }
}

/// The number that groups denote, most significant group first.
pub open spec fn groups_value(g: Seq<u16>) -> nat
    decreases g.len(),
{
    if g.len() == 0 {
        0
    } else {
        groups_value(g.drop_last()) * 0x1_0000 + g.last() as nat
    }
}

/// Whether `::` stands at position `i`.
pub open spec fn gap_at(s: Seq<char>, i: int) -> bool {
    0 <= i && i + 1 < s.len() && s[i] == ':' && s[i + 1] == ':'
}

/// The first position of `::`, or the length where there is none.
pub open spec fn find_gap(s: Seq<char>) -> int
    decreases s.len(),
{
    if s.len() < 2 {
        s.len() as int
    } else if gap_at(s, 0) {
        0
    } else {
        1 + find_gap(s.drop_first())
    }
}

/// The address that an IPv6 literal denotes: eight groups, or at most seven
/// round one `::`, which stands for the zero groups that are left out.
pub open spec fn ipv6_of(s: Seq<char>) -> Option<u128> {
    let k = find_gap(s);
    if k < s.len() {
        match (groups_of(s.take(k), false), groups_of(s.skip(k + 2), true)) {
            (Some(head), Some(tail)) => if head.len() + tail.len() <= 7 {
                let zeros = Seq::new((8 - head.len() - tail.len()) as nat, |i: int| 0u16);
                Some(groups_value(head + zeros + tail) as u128)
            } else {
                None
            },
            _ => None,
        }
    } else {
        match groups_of(s, true) {
            Some(g) => if g.len() == 8 {
                Some(groups_value(g) as u128)
            } else {
                None
            },
            None => None,
        }
    }
}

/// The address that a literal of either family denotes.
pub open spec fn ip_of(s: Seq<char>) -> Option<IpAddr> {
    match ipv4_of(s) {
        Some(n) => Some(IpAddr::V4(n)),
        None => match ipv6_of(s) {
            Some(n) => Some(IpAddr::V6(n)),
            None => None,
        },
    }
}

/// The first position of `::` is where the pair first stands.
proof fn lemma_find_gap(s: Seq<char>, k: int)
    requires
        0 <= k <= s.len(),
        forall|i: int| 0 <= i < k ==> !#[trigger] gap_at(s, i),
        k == s.len() || gap_at(s, k),
    ensures
        find_gap(s) == k,
    decreases s.len(),
{
    if s.len() >= 2 && k > 0 {
        let t = s.drop_first();
        assert(!gap_at(s, 0));
        assert forall|i: int| 0 <= i <= k - 1 implies #[trigger] gap_at(t, i) == gap_at(
            s,
            i + 1,
        ) by {}
        lemma_find_gap(t, k - 1);
    }
}

/// Groups denote a number below `65536^len`.
proof fn lemma_groups_bound(g: Seq<u16>)
    ensures
        g.len() <= 8 ==> groups_value(g) < 0x1_0000_0000_0000_0000_0000_0000_0000_0000,
        groups_value(g) < be::pow256(2 * g.len()),
    decreases g.len(),
{
    if g.len() > 0 {
        lemma_groups_bound(g.drop_last());
        let n = (g.len() - 1) as nat;
        assert(be::pow256(2 * g.len()) == 256 * be::pow256((2 * n + 1) as nat));
        assert(be::pow256((2 * n + 1) as nat) == 256 * be::pow256(2 * n));
    } else {
        assert(be::pow256(0) == 1);
    }
    if g.len() <= 8 {
        be::lemma_pow256_grows(2 * g.len(), 16);
        be::lemma_pow256_values();
    }
}

/// Hexadecimal digits denote a number below `16^len`.
proof fn lemma_hex_bound(s: Seq<char>)
    requires
        all_hex(s),
        s.len() <= 4,
    ensures
        hex_value(s) < 0x1_0000,
        s.len() <= 3 ==> hex_value(s) < 0x1000,
        s.len() <= 2 ==> hex_value(s) < 0x100,
        s.len() <= 1 ==> hex_value(s) < 0x10,
    decreases s.len(),
{
    if s.len() > 0 {
        assert(all_hex(s.drop_last())) by {
            assert forall|i: int| 0 <= i < s.drop_last().len() implies hex_digit(
                #[trigger] s.drop_last()[i],
            ) is Some by {
                assert(s.drop_last()[i] == s[i]);
            }
        }
        assert(hex_digit(s[s.len() - 1]) is Some);
        lemma_hex_bound(s.drop_last());
        if s.len() == 1 {
            assert(s.drop_last() == Seq::<char>::empty());
            assert(hex_value(s.drop_last()) == 0);
        }
    }
}

/// Parses one part of a dotted IPv4 literal.
fn parse_octet(s: &str) -> (r: Option<u8>)
    ensures
        r == octet_of(s@),
{
    let cs = text::chars_of(s);
    let n: usize = cs.len();
    if n == 0 || n > 3 || (n > 1 && cs[0] == '0') {
        return None;
    }
    let mut acc: u16 = 0;
    assert(cs@.take(0) == Seq::<char>::empty());
    for i in 0..n
        invariant
            n == cs@.len(),
            n <= 3,
            cs@ == s@,
            forall|k: int| 0 <= k < i ==> text::is_digit(#[trigger] cs@[k]),
            acc == text::digits_value(cs@.take(i as int)),
            i == 0 ==> acc == 0,
            i == 1 ==> acc <= 9,
            i == 2 ==> acc <= 99,
            i == 3 ==> acc <= 999,
    {
        let c = cs[i];
        if c < '0' || c > '9' {
            assert(!text::is_digit(s@[i as int]));
            return None;
        }
        assert(cs@.take(i + 1).drop_last() == cs@.take(i as int));
        acc = acc * 10 + (c as u32 - '0' as u32) as u16;
    }
    assert(cs@.take(n as int) == s@);
    if acc <= 255 {
        Some(acc as u8)
    } else {
        None
    }
}

/// Parses a dotted IPv4 literal.
fn parse_ipv4(s: &str) -> (r: Option<u32>)
    ensures
        r == ipv4_of(s@),
{
    let parts = text::split(s, '.');
    let ghost p = text::split_seq(s@, '.');
    assert(forall|i: int| 0 <= i < parts@.len() ==> (#[trigger] parts@[i])@ == p[i]) by {
        let m = parts@.map_values(|t: &str| t@);
        assert(forall|i: int| 0 <= i < parts@.len() ==> m[i] == (#[trigger] parts@[i])@);
    }
    assert(p.len() == parts@.len()) by {
        assert(parts@.map_values(|t: &str| t@).len() == parts@.len());
    }
    if parts.len() != 4 {
        return None;
    }
    let a: u8 = parse_octet(parts[0])?;
    let b: u8 = parse_octet(parts[1])?;
    let c: u8 = parse_octet(parts[2])?;
    let d: u8 = parse_octet(parts[3])?;
    let raw: [u8; 4] = [a, b, c, d];
    assert(raw@ == seq![a, b, c, d]);
    let n: u128 = be::read_be(raw.as_slice());
    proof {
        be::lemma_be_value_bound(raw@);
        be::lemma_pow256_values();
    }
    Some(n as u32)
}

/// Parses one group of an IPv6 literal.
fn parse_group(s: &str) -> (r: Option<u16>)
    ensures
        r == group_of(s@),
{
    let cs = text::chars_of(s);
    let n: usize = cs.len();
    if n == 0 || n > 4 {
        return None;
    }
    let mut acc: u32 = 0;
    assert(cs@.take(0) == Seq::<char>::empty());
    for i in 0..n
        invariant
            n == cs@.len(),
            n <= 4,
            cs@ == s@,
            forall|k: int| 0 <= k < i ==> hex_digit(#[trigger] cs@[k]) is Some,
            acc == hex_value(cs@.take(i as int)),
            acc < 0x1_0000,
    {
        let c = cs[i];
        let d: u32 = if '0' <= c && c <= '9' {
            c as u32 - '0' as u32
        } else if 'a' <= c && c <= 'f' {
            c as u32 - 'a' as u32 + 10
        } else if 'A' <= c && c <= 'F' {
            c as u32 - 'A' as u32 + 10
        } else {
            assert(hex_digit(s@[i as int]) is None);
            return None;
        };
        let ghost longer = cs@.take(i + 1);
        assert(longer.drop_last() == cs@.take(i as int));
        assert(longer.last() == c);
        assert(hex_digit(c) == Some(d as nat));
        assert(hex_value(longer) == acc * 16 + d);
        proof {
            assert(all_hex(longer));
            lemma_hex_bound(longer);
        }
        acc = acc * 16 + d;
    }
    assert(cs@.take(n as int) == s@);
    Some(acc as u16)
}

/// Parses a run of groups of an IPv6 literal.
fn parse_groups(s: &str, dotted: bool) -> (r: Option<Vec<u16>>)
    ensures
        match groups_of(s@, dotted) {
            Some(g) => r matches Some(v) && v@ == g,
            None => r is None,
        },
{
    if s.unicode_len() == 0 {
        return Some(Vec::new());
    }
    let parts = text::split(s, ':');
    let ghost p = text::split_seq(s@, ':');
    assert(forall|i: int| 0 <= i < parts@.len() ==> (#[trigger] parts@[i])@ == p[i]) by {
        let m = parts@.map_values(|t: &str| t@);
        assert(forall|i: int| 0 <= i < parts@.len() ==> m[i] == (#[trigger] parts@[i])@);
    }
    assert(p.len() == parts@.len()) by {
        assert(parts@.map_values(|t: &str| t@).len() == parts@.len());
    }
    let last: usize = parts.len() - 1;
    let tail: Option<u32> = if dotted {
        parse_ipv4(parts[last])
    } else {
        None
    };
    let hex_count: usize = if tail.is_some() {
        last
    } else {
        last + 1
    };
    let ghost hex_parts = if tail is Some {
        p.drop_last()
    } else {
        p
    };
    let mut out: Vec<u16> = Vec::new();
    for i in 0..hex_count
        invariant
            hex_count == hex_parts.len(),
            hex_count <= parts@.len(),
            forall|k: int| 0 <= k < hex_count ==> (#[trigger] parts@[k])@ == hex_parts[k],
            out@.len() == i,
            forall|k: int|
                0 <= k < i ==> group_of(#[trigger] hex_parts[k]) is Some && out@[k] == group_of(
                    hex_parts[k],
                ).unwrap(),
            tail is Some ==> hex_parts == p.drop_last(),
            tail is None ==> hex_parts == p,
            p == text::split_seq(s@, ':'),
            s@.len() > 0,
            p.len() > 0,
            tail == (if dotted {
                ipv4_of(p.last())
            } else {
                None
            }),
    {
        match parse_group(parts[i]) {
            Some(g) => {
                assert(parts@[i as int]@ == hex_parts[i as int]);
                out.push(g);
            },
            None => {
                assert(group_of(hex_parts[i as int]) is None);
                assert(hex_groups(hex_parts) is None);
                return None;
            },
        }
    }
    assert(hex_groups(hex_parts) is Some);
    assert(out@ == hex_groups(hex_parts).unwrap());
    if let Some(v) = tail {
        let ghost front = out@;
        out.push((v / 0x1_0000) as u16);
        out.push((v % 0x1_0000) as u16);
        assert(out@ == front + seq![(v / 0x1_0000) as u16, (v % 0x1_0000) as u16]);
    }
    Some(out)
}

/// Joins eight groups to an address.
fn join_groups(g: &Vec<u16>) -> (r: u128)
    requires
        g@.len() == 8,
    ensures
        r == groups_value(g@),
{
    let mut acc: u128 = 0;
    assert(g@.take(0) == Seq::<u16>::empty());
    for i in 0..8
        invariant
            g@.len() == 8,
            acc == groups_value(g@.take(i as int)),
    {
        let ghost longer = g@.take(i + 1);
        assert(longer.drop_last() == g@.take(i as int));
        proof {
            lemma_groups_bound(longer);
        }
        acc = acc * 0x1_0000 + g[i] as u128;
    }
    assert(g@.take(8) == g@);
    acc
}

/// Finds the first `::`.
fn find_double_colon(cs: &Vec<char>) -> (r: usize)
    ensures
        r == find_gap(cs@),
        r < cs@.len() ==> r + 2 <= cs@.len(),
        r <= cs@.len(),
{
    let n: usize = cs.len();
    let mut i: usize = 0;
    while i < n
        invariant_except_break
            i <= n,
            n == cs@.len(),
            forall|k: int| 0 <= k < i ==> !#[trigger] gap_at(cs@, k),
        ensures
            i <= n,
            n == cs@.len(),
            forall|k: int| 0 <= k < i ==> !#[trigger] gap_at(cs@, k),
            i == n || gap_at(cs@, i as int),
        decreases n - i,
    {
        if n - i >= 2 && cs[i] == ':' && cs[i + 1] == ':' {
            break;
        }
        i += 1;
    }
    proof {
        lemma_find_gap(cs@, i as int);
    }
    i
}

/// Parses an IPv6 literal.
fn parse_ipv6(s: &str) -> (r: Option<u128>)
    ensures
        r == ipv6_of(s@),
{
    let cs = text::chars_of(s);
    let k: usize = find_double_colon(&cs);
    if k < cs.len() {
        let head = parse_groups(s.substring_char(0, k), false)?;
        let tail = parse_groups(s.substring_char(k + 2, cs.len()), true)?;
        assert(s@.subrange(0, k as int) == s@.take(k as int));
        assert(s@.subrange(k + 2, s@.len() as int) == s@.skip(k + 2));
        if head.len() > 7 || tail.len() > 7 || head.len() + tail.len() > 7 {
            return None;
        }
        let ghost front = head@;
        let ghost want = front + Seq::new((8 - front.len() - tail@.len()) as nat, |i: int| 0u16)
            + tail@;
        let mut all = head;
        let missing: usize = 8 - all.len() - tail.len();
        for i in 0..missing
            invariant
                all@ == front + Seq::new(i as nat, |j: int| 0u16),
        {
            all.push(0);
        }
        for i in 0..tail.len()
            invariant
                all@ == front + Seq::new(missing as nat, |j: int| 0u16) + tail@.take(i as int),
        {
            all.push(tail[i]);
        }
        assert(tail@.take(tail@.len() as int) == tail@);
        assert(all@ == want);
        Some(join_groups(&all))
    } else {
        let g = parse_groups(s, true)?;
        if g.len() == 8 {
            Some(join_groups(&g))
        } else {
            None
        }
    }
}

/// Parses an IP address literal of either family.
pub fn parse_ip(s: &str) -> (r: Option<IpAddr>)
    ensures
        r == ip_of(s@),
{
    match parse_ipv4(s) {
        Some(n) => Some(IpAddr::V4(n)),
        None => match parse_ipv6(s) {
            Some(n) => Some(IpAddr::V6(n)),
            None => None,
        },
    }
}

/// Whether a character can stand in an address literal: a hexadecimal digit, a
/// colon or a dot.
pub open spec fn literal_char(c: char) -> bool {
    hex_digit(c) is Some || c == ':' || c == '.'
}

proof fn lemma_ipv4_chars(s: Seq<char>, i: int)
    requires
        ipv4_of(s) is Some,
        0 <= i < s.len(),
    ensures
        literal_char(s[i]),
{
    if s[i] != '.' {
        text::lemma_split_covers(s, '.', i);
        let p = text::split_seq(s, '.');
        let k = choose|k: int| 0 <= k < p.len() && (#[trigger] p[k]).contains(s[i]);
        assert(octet_of(p[k]) is Some);
        let j = choose|j: int| 0 <= j < p[k].len() && p[k][j] == s[i];
        assert(text::is_digit(p[k][j]));
    }
}

proof fn lemma_groups_chars(s: Seq<char>, dotted: bool, i: int)
    requires
        groups_of(s, dotted) is Some,
        0 <= i < s.len(),
    ensures
        literal_char(s[i]),
{
    if s[i] != ':' {
        text::lemma_split_covers(s, ':', i);
        let p = text::split_seq(s, ':');
        let k = choose|k: int| 0 <= k < p.len() && (#[trigger] p[k]).contains(s[i]);
        let j = choose|j: int| 0 <= j < p[k].len() && p[k][j] == s[i];
        if dotted && ipv4_of(p.last()) is Some {
            if k == p.len() - 1 {
                lemma_ipv4_chars(p[k], j);
            } else {
                assert(p.drop_last()[k] == p[k]);
                assert(group_of(p.drop_last()[k]) is Some);
                assert(hex_digit(p[k][j]) is Some);
            }
        } else {
            assert(group_of(p[k]) is Some);
            assert(hex_digit(p[k][j]) is Some);
        }
    }
}

/// The first `::` is where it is found.
proof fn lemma_gap_found(s: Seq<char>)
    ensures
        0 <= find_gap(s) <= s.len(),
        find_gap(s) < s.len() ==> gap_at(s, find_gap(s)),
    decreases s.len(),
{
    if s.len() >= 2 && !gap_at(s, 0) {
        lemma_gap_found(s.drop_first());
    }
}

/// The empty text is no address literal.
pub proof fn lemma_literal_not_empty(s: Seq<char>)
    requires
        ip_of(s) is Some,
    ensures
        s.len() > 0,
{
    if s.len() == 0 {
        reveal_with_fuel(text::split_seq, 2);
        assert(text::split_seq(s, '.').len() == 1);
        assert(find_gap(s) == s.len());
    }
}

/// An address literal holds nothing but hexadecimal digits, colons and dots.
pub proof fn lemma_literal_chars(s: Seq<char>)
    requires
        ip_of(s) is Some,
    ensures
        forall|i: int| 0 <= i < s.len() ==> literal_char(#[trigger] s[i]),
{
    assert forall|i: int| 0 <= i < s.len() implies literal_char(#[trigger] s[i]) by {
        if ipv4_of(s) is Some {
            lemma_ipv4_chars(s, i);
        } else {
            lemma_gap_found(s);
            let k = find_gap(s);
            if k == s.len() {
                lemma_groups_chars(s, true, i);
            } else if i < k {
                assert(s.take(k)[i] == s[i]);
                lemma_groups_chars(s.take(k), false, i);
            } else if i > k + 1 {
                assert(s.skip(k + 2)[i - k - 2] == s[i]);
                lemma_groups_chars(s.skip(k + 2), true, i - k - 2);
            }
        }
    }
}

// ---------------------------------------------------------------------------
// Laws
// ---------------------------------------------------------------------------

/// The octets of an IPv4 address are its four bytes, the highest first.
pub proof fn lemma_v4_octets(a: u8, b: u8, c: u8, d: u8)
    ensures
        ({
            let n = (a * 0x100_0000 + b * 0x1_0000 + c * 0x100 + d) as u32;
            &&& IpAddr::V4(n).spec_octets() == seq![a, b, c, d]
            &&& IpAddr::from_octets_spec(seq![a, b, c, d]) == IpAddr::V4(n)
        }),
{
    be::lemma_be_weights(a, b, c, d);
    be::lemma_be_value_round_trip(seq![a, b, c, d]);
}

/// A part of a dotted literal is a number up to 255 as it is written; one with a
/// zero in front, one that is larger, and an empty one are refused.
pub proof fn lemma_octet_text(n: nat, s: Seq<char>)
    ensures
        n <= 255 ==> octet_of(text::decimal_digits(n)) == Some(n as u8),
        n > 255 ==> octet_of(text::decimal_digits(n)) is None,
        s.len() > 0 ==> octet_of(seq!['0'] + s) is None,
        octet_of(Seq::<char>::empty()) is None,
{
    let digits = text::decimal_digits(n);
    text::lemma_decimal_round_trip(n);
    assert(text::is_digit(digits[0]));
    assert(text::after_plus(digits) == digits);
    if n <= 255 {
        reveal_with_fuel(text::decimal_digits, 4);
    }
}

/// Four numbers up to 255 with dots between them are an IPv4 address: the number
/// whose bytes they are. Three or five are none.
pub proof fn lemma_dotted(a: u8, b: u8, c: u8, d: u8)
    ensures
        ({
            let dot = seq!['.'];
            let x = text::decimal_digits(a as nat);
            let y = text::decimal_digits(b as nat);
            let z = text::decimal_digits(c as nat);
            let w = text::decimal_digits(d as nat);
            &&& ip_of(x + dot + (y + dot + (z + dot + w))) == Some(
                IpAddr::V4((a * 0x100_0000 + b * 0x1_0000 + c * 0x100 + d) as u32),
            )
            &&& ipv4_of(x + dot + (y + dot + z)) is None
            &&& ipv4_of(x + dot + (y + dot + (z + dot + (w + dot + x)))) is None
        }),
{
    let dot = seq!['.'];
    let x = text::decimal_digits(a as nat);
    let y = text::decimal_digits(b as nat);
    let z = text::decimal_digits(c as nat);
    let w = text::decimal_digits(d as nat);
    lemma_no_dots(a as nat);
    lemma_no_dots(b as nat);
    lemma_no_dots(c as nat);
    lemma_no_dots(d as nat);
    text::lemma_split(w, '.', w);
    text::lemma_split(z, '.', w);
    text::lemma_split(y, '.', z + dot + w);
    text::lemma_split(x, '.', y + dot + (z + dot + w));
    assert(text::split_seq(x + dot + (y + dot + (z + dot + w)), '.') == seq![x, y, z, w]);
    text::lemma_split(y, '.', z);
    text::lemma_split(x, '.', y + dot + z);
    assert(text::split_seq(x + dot + (y + dot + z), '.') == seq![x, y, z]);
    text::lemma_split(x, '.', x);
    text::lemma_split(w, '.', x);
    text::lemma_split(z, '.', w + dot + x);
    text::lemma_split(y, '.', z + dot + (w + dot + x));
    text::lemma_split(x, '.', y + dot + (z + dot + (w + dot + x)));
    assert(text::split_seq(x + dot + (y + dot + (z + dot + (w + dot + x))), '.') == seq![
        x,
        y,
        z,
        w,
        x,
    ]);
    lemma_octet_text(a as nat, x);
    lemma_octet_text(b as nat, x);
    lemma_octet_text(c as nat, x);
    lemma_octet_text(d as nat, x);
    be::lemma_be_weights(a, b, c, d);
}

proof fn lemma_no_dots(n: nat)
    ensures
        !text::decimal_digits(n).contains('.'),
{
    let digits = text::decimal_digits(n);
    text::lemma_decimal_round_trip(n);
    assert forall|i: int| 0 <= i < digits.len() implies digits[i] != '.' by {
        assert(text::is_digit(digits[i]));
    }
}

/// Hexadecimal digits, by the numbers of the characters; the letters count alike
/// in either case.
pub proof fn lemma_hex_digits(c: char)
    ensures
        48 <= c as int <= 57 ==> hex_digit(c) == Some((c as int - 48) as nat),
        65 <= c as int <= 70 ==> hex_digit(c) == Some((c as int - 55) as nat),
        97 <= c as int <= 102 ==> hex_digit(c) == Some((c as int - 87) as nat),
        !(48 <= c as int <= 57) && !(65 <= c as int <= 70) && !(97 <= c as int <= 102) ==> hex_digit(
            c,
        ) is None,
{
}

/// A group is one to four hexadecimal digits, each new digit behind the others.
pub proof fn lemma_group_text(s: Seq<char>, c: char)
    requires
        all_hex(s),
        hex_digit(c) is Some,
    ensures
        1 <= s.len() <= 3 ==> (group_of(s.push(c)) matches Some(g) && (group_of(s) matches Some(h)
            && g == h * 16 + hex_digit(c).unwrap())),
        group_of(seq![c]) matches Some(g) && g == hex_digit(c).unwrap(),
        s.len() == 0 ==> group_of(s) is None,
        s.len() > 4 ==> group_of(s) is None,
{
    let t = s.push(c);
    assert(t.drop_last() == s);
    assert forall|i: int| 0 <= i < t.len() implies hex_digit(#[trigger] t[i]) is Some by {
        if i < s.len() {
            assert(t[i] == s[i]);
        }
    }
    if 1 <= s.len() <= 3 {
        lemma_hex_bound(s);
        lemma_hex_bound(t);
    }
    assert(seq![c].drop_last() == Seq::<char>::empty());
    reveal_with_fuel(hex_value, 2);
    lemma_hex_bound(seq![c]);
}

/// Texts with a separator between each two.
pub open spec fn between(parts: Seq<Seq<char>>, c: char) -> Seq<char>
    decreases parts.len(),
{
    if parts.len() == 0 {
        Seq::empty()
    } else if parts.len() == 1 {
        parts[0]
    } else {
        parts[0] + seq![c] + between(parts.drop_first(), c)
    }
}

/// Texts that do not hold the separator are taken apart again.
pub proof fn lemma_between(parts: Seq<Seq<char>>, c: char)
    requires
        parts.len() > 0,
        forall|i: int| 0 <= i < parts.len() ==> !(#[trigger] parts[i]).contains(c),
    ensures
        text::split_seq(between(parts, c), c) == parts,
    decreases parts.len(),
{
    assert(!parts[0].contains(c));
    if parts.len() == 1 {
        text::lemma_split(parts[0], c, parts[0]);
        assert(seq![parts[0]] == parts);
    } else {
        let rest = parts.drop_first();
        assert forall|i: int| 0 <= i < rest.len() implies !(#[trigger] rest[i]).contains(c) by {
            assert(rest[i] == parts[i + 1]);
        }
        lemma_between(rest, c);
        text::lemma_split(parts[0], c, between(rest, c));
        assert(seq![parts[0]] + rest == parts);
    }
}

/// A text of groups with single colons between them holds no gap, and begins and
/// ends with a digit.
proof fn lemma_no_gap(parts: Seq<Seq<char>>)
    requires
        parts.len() > 0,
        forall|i: int| 0 <= i < parts.len() ==> group_of(#[trigger] parts[i]) is Some,
    ensures
        ({
            let s = between(parts, ':');
            &&& s.len() > 0
            &&& s[0] != ':'
            &&& s.last() != ':'
            &&& forall|i: int| !gap_at(s, i)
        }),
    decreases parts.len(),
{
    let s = between(parts, ':');
    let p = parts[0];
    assert(group_of(p) is Some);
    assert(hex_digit(p[0]) is Some);
    assert(hex_digit(p[p.len() - 1]) is Some);
    assert forall|i: int| 0 <= i < p.len() implies p[i] != ':' by {
        assert(hex_digit(p[i]) is Some);
    }
    if parts.len() > 1 {
        let rest = parts.drop_first();
        assert forall|i: int| 0 <= i < rest.len() implies group_of(#[trigger] rest[i]) is Some by {
            assert(rest[i] == parts[i + 1]);
        }
        lemma_no_gap(rest);
        let t = between(rest, ':');
        let n = p.len() as int;
        assert forall|i: int| !gap_at(s, i) by {
            if gap_at(s, i) {
                if i < n {
                    assert(s[i] == p[i]);
                } else if i == n {
                    assert(s[i + 1] == t[0]);
                } else {
                    assert(s[i] == t[i - n - 1]);
                    assert(s[i + 1] == t[i - n]);
                    assert(gap_at(t, i - n - 1));
                }
            }
        }
        assert(s.last() == t.last());
    }
}

/// The groups that a text of groups with colons between them denotes.
proof fn lemma_groups_read(parts: Seq<Seq<char>>, dotted: bool)
    requires
        parts.len() > 0,
        forall|i: int| 0 <= i < parts.len() ==> group_of(#[trigger] parts[i]) is Some,
    ensures
        groups_of(between(parts, ':'), dotted) == Some(
            parts.map_values(|p: Seq<char>| group_of(p).unwrap()),
        ),
{
    assert forall|i: int| 0 <= i < parts.len() implies !(#[trigger] parts[i]).contains(':') by {
        let p = parts[i];
        assert(group_of(p) is Some);
        assert forall|j: int| 0 <= j < p.len() implies p[j] != ':' by {
            assert(hex_digit(p[j]) is Some);
        }
    }
    lemma_between(parts, ':');
    lemma_no_gap(parts);
    let last = parts.last();
    assert(group_of(last) is Some);
    assert forall|j: int| 0 <= j < last.len() implies last[j] != '.' by {
        assert(hex_digit(last[j]) is Some);
    }
    assert(!last.contains('.'));
    text::lemma_split(last, '.', last);
}

/// Eight groups are the number whose digits to the base 65536 they are, the
/// highest first.
pub proof fn lemma_eight_groups(g: Seq<u16>)
    requires
        g.len() == 8,
    ensures
        groups_value(g) == g[0] * 0x1_0000_0000_0000_0000_0000_0000_0000 + g[1]
            * 0x1_0000_0000_0000_0000_0000_0000 + g[2] * 0x1_0000_0000_0000_0000_0000 + g[3]
            * 0x1_0000_0000_0000_0000 + g[4] * 0x1_0000_0000_0000 + g[5] * 0x1_0000_0000 + g[6]
            * 0x1_0000 + g[7],
{
    let g7 = g.drop_last();
    let g6 = g7.drop_last();
    let g5 = g6.drop_last();
    let g4 = g5.drop_last();
    let g3 = g4.drop_last();
    let g2 = g3.drop_last();
    let g1 = g2.drop_last();
    let g0 = g1.drop_last();
    assert(groups_value(g0) == 0);
    assert(groups_value(g1) == g[0]);
    assert(groups_value(g2) == groups_value(g1) * 0x1_0000 + g[1]);
    assert(groups_value(g3) == groups_value(g2) * 0x1_0000 + g[2]);
    assert(groups_value(g4) == groups_value(g3) * 0x1_0000 + g[3]);
    assert(groups_value(g5) == groups_value(g4) * 0x1_0000 + g[4]);
    assert(groups_value(g6) == groups_value(g5) * 0x1_0000 + g[5]);
    assert(groups_value(g7) == groups_value(g6) * 0x1_0000 + g[6]);
    assert(groups_value(g) == groups_value(g7) * 0x1_0000 + g[7]);
}

/// Eight groups with colons between them are an IPv6 address, the first group in
/// its highest bits; any other number of groups without `::` is none.
pub proof fn lemma_colons(parts: Seq<Seq<char>>)
    requires
        parts.len() > 0,
        forall|i: int| 0 <= i < parts.len() ==> group_of(#[trigger] parts[i]) is Some,
    ensures
        parts.len() != 8 ==> ip_of(between(parts, ':')) is None,
        parts.len() == 8 ==> ip_of(between(parts, ':')) == Some(
            IpAddr::V6(
                (hex_value(parts[0]) * 0x1_0000_0000_0000_0000_0000_0000_0000 + hex_value(parts[1])
                    * 0x1_0000_0000_0000_0000_0000_0000 + hex_value(parts[2])
                    * 0x1_0000_0000_0000_0000_0000 + hex_value(parts[3]) * 0x1_0000_0000_0000_0000
                    + hex_value(parts[4]) * 0x1_0000_0000_0000 + hex_value(parts[5]) * 0x1_0000_0000
                    + hex_value(parts[6]) * 0x1_0000 + hex_value(parts[7])) as u128,
            ),
        ),
{
    let s = between(parts, ':');
    lemma_no_gap(parts);
    lemma_find_gap(s, s.len() as int);
    lemma_groups_read(parts, true);
    let g = parts.map_values(|p: Seq<char>| group_of(p).unwrap());
    lemma_not_dotted(parts);
    if parts.len() == 8 {
        lemma_eight_groups(g);
        assert forall|i: int| 0 <= i < 8 implies g[i] == hex_value(#[trigger] parts[i]) by {
            assert(group_of(parts[i]) is Some);
            lemma_hex_bound(parts[i]);
        }
        assert(g[0] == hex_value(parts[0]) && g[1] == hex_value(parts[1]) && g[2] == hex_value(
            parts[2],
        ) && g[3] == hex_value(parts[3]) && g[4] == hex_value(parts[4]) && g[5] == hex_value(
            parts[5],
        ) && g[6] == hex_value(parts[6]) && g[7] == hex_value(parts[7]));
    }
}

/// A text of groups holds no dot, so it is no IPv4 literal.
proof fn lemma_not_dotted(parts: Seq<Seq<char>>)
    requires
        parts.len() > 0,
        forall|i: int| 0 <= i < parts.len() ==> group_of(#[trigger] parts[i]) is Some,
    ensures
        ipv4_of(between(parts, ':')) is None,
{
    let s = between(parts, ':');
    lemma_groups_without_dots(parts);
    text::lemma_split(s, '.', s);
}

proof fn lemma_groups_without_dots(parts: Seq<Seq<char>>)
    requires
        forall|i: int| 0 <= i < parts.len() ==> group_of(#[trigger] parts[i]) is Some,
    ensures
        !between(parts, ':').contains('.'),
    decreases parts.len(),
{
    let s = between(parts, ':');
    if parts.len() > 0 {
        let p = parts[0];
        assert(group_of(p) is Some);
        assert forall|j: int| 0 <= j < p.len() implies p[j] != '.' by {
            assert(hex_digit(p[j]) is Some);
        }
        if parts.len() > 1 {
            let rest = parts.drop_first();
            assert forall|i: int| 0 <= i < rest.len() implies group_of(
                #[trigger] rest[i],
            ) is Some by {
                assert(rest[i] == parts[i + 1]);
            }
            lemma_groups_without_dots(rest);
            let t = between(rest, ':');
            assert forall|i: int| 0 <= i < s.len() implies s[i] != '.' by {
                if i > p.len() {
                    assert(t.contains(t[i - p.len() - 1]));
                }
            }
        }
    }
}

/// What `::` stands for: as many zero groups as are missing to eight, at least
/// one. The groups before it are the highest, those behind it the lowest.
pub proof fn lemma_gap(head: Seq<Seq<char>>, tail: Seq<Seq<char>>)
    requires
        forall|i: int| 0 <= i < head.len() ==> group_of(#[trigger] head[i]) is Some,
        forall|i: int| 0 <= i < tail.len() ==> group_of(#[trigger] tail[i]) is Some,
    ensures
        ({
            let s = between(head, ':') + seq![':', ':'] + between(tail, ':');
            let zeros = Seq::new((8 - head.len() - tail.len()) as nat, |i: int| 0u16);
            &&& head.len() + tail.len() >= 8 ==> ip_of(s) is None
            &&& head.len() + tail.len() <= 7 ==> ip_of(s) == Some(
                IpAddr::V6(
                    groups_value(
                        head.map_values(|p: Seq<char>| group_of(p).unwrap()) + zeros
                            + tail.map_values(|p: Seq<char>| group_of(p).unwrap()),
                    ) as u128,
                ),
            )
        }),
{
    let h = between(head, ':');
    let t = between(tail, ':');
    let s = h + seq![':', ':'] + t;
    let k = h.len() as int;
    if head.len() > 0 {
        lemma_no_gap(head);
        lemma_groups_read(head, false);
    } else {
        assert(head.map_values(|p: Seq<char>| group_of(p).unwrap()) == Seq::<u16>::empty());
    }
    if tail.len() > 0 {
        lemma_no_gap(tail);
        lemma_groups_read(tail, true);
    } else {
        assert(tail.map_values(|p: Seq<char>| group_of(p).unwrap()) == Seq::<u16>::empty());
    }
    assert forall|i: int| 0 <= i < k implies !#[trigger] gap_at(s, i) by {
        assert(s[i] == h[i]);
        if i + 1 < k {
            assert(s[i + 1] == h[i + 1]);
            assert(!gap_at(h, i));
        } else {
            assert(s[i] == h.last());
        }
    }
    assert(gap_at(s, k));
    lemma_find_gap(s, k);
    assert(s.take(k) == h);
    assert(s.skip(k + 2) == t);
    lemma_groups_without_dots(head);
    lemma_groups_without_dots(tail);
    assert forall|i: int| 0 <= i < s.len() implies s[i] != '.' by {
        if i < k {
            assert(h.contains(h[i]));
        } else if i >= k + 2 {
            assert(t.contains(t[i - k - 2]));
        }
    }
    assert(!s.contains('.'));
    text::lemma_split(s, '.', s);
}

/// Behind `::`, or behind six groups, the last 32 bits may be written as an IPv4
/// address.
pub proof fn lemma_dotted_end(a: u8, b: u8, c: u8, d: u8)
    ensures
        ({
            let dot = seq!['.'];
            let dotted = text::decimal_digits(a as nat) + dot + (text::decimal_digits(b as nat)
                + dot + (text::decimal_digits(c as nat) + dot + text::decimal_digits(d as nat)));
            ip_of(seq![':', ':'] + dotted) == Some(
                IpAddr::V6((a * 0x100_0000 + b * 0x1_0000 + c * 0x100 + d) as u128),
            )
        }),
{
    let dot = seq!['.'];
    let x = text::decimal_digits(a as nat);
    let rest = text::decimal_digits(b as nat) + dot + (text::decimal_digits(c as nat) + dot
        + text::decimal_digits(d as nat));
    let dotted = x + dot + rest;
    let s = seq![':', ':'] + dotted;
    let n = (a * 0x100_0000 + b * 0x1_0000 + c * 0x100 + d) as u32;
    lemma_dotted(a, b, c, d);
    lemma_no_dots(a as nat);
    assert(ipv4_of(dotted) is Some) by {
        if ipv4_of(dotted) is None {
            assert(ip_of(dotted) is Some);
            assert(ipv6_of(dotted) is Some);
        }
    }
    assert(ipv4_of(dotted) == Some(n));
    let front = seq![':', ':'] + x;
    assert forall|i: int| 0 <= i < front.len() implies front[i] != '.' by {
        if i >= 2 {
            assert(x.contains(x[i - 2]));
        }
    }
    assert(!front.contains('.'));
    assert(s == front + dot + rest);
    text::lemma_split(front, '.', rest);
    assert(!text::is_digit(front[0]));
    assert(!text::all_digits(front));
    assert(ipv4_of(s) is None);
    assert(gap_at(s, 0));
    lemma_find_gap(s, 0);
    assert(s.take(0) == Seq::<char>::empty());
    assert(s.skip(2) == dotted);
    lemma_ipv4_without_colons(dotted);
    text::lemma_split(dotted, ':', dotted);
    let parts = seq![dotted];
    assert(parts.drop_last() == Seq::<Seq<char>>::empty());
    assert(hex_groups(Seq::<Seq<char>>::empty()) == Some(Seq::<u16>::empty()));
    let low = seq![(n / 0x1_0000) as u16, (n % 0x1_0000) as u16];
    assert(Seq::<u16>::empty() + low == low);
    assert(groups_of(dotted, true) == Some(low));
    let zeros = Seq::new(6, |i: int| 0u16);
    let g = Seq::<u16>::empty() + zeros + low;
    lemma_eight_groups(g);
    assert(g[6] == n / 0x1_0000 && g[7] == n % 0x1_0000);
}

/// An IPv4 literal holds no colon.
proof fn lemma_ipv4_without_colons(s: Seq<char>)
    requires
        ipv4_of(s) is Some,
    ensures
        !s.contains(':'),
{
    assert forall|i: int| 0 <= i < s.len() implies s[i] != ':' by {
        if s[i] == ':' {
            text::lemma_split_covers(s, '.', i);
            let p = text::split_seq(s, '.');
            let k = choose|k: int| 0 <= k < p.len() && (#[trigger] p[k]).contains(s[i]);
            let part = p[k];
            assert(octet_of(part) is Some);
            let j = choose|j: int| 0 <= j < part.len() && part[j] == ':';
            assert(text::is_digit(part[j]));
        }
    }
}

} // verus!
