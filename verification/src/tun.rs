//! The layer-3 gateway: the address pool, the shared forwarding flag, and the
//! commands that set a tunnel device up and take it down again.
use vstd::arithmetic::power2::*;
use vstd::prelude::*;
use vstd::slice::slice_subrange;
use vstd::utf8::*;
use crate::addr;
use crate::addr::IpAddr;
use crate::text;

verus! {

// ---------------------------------------------------------------------------
// Address pool
// ---------------------------------------------------------------------------

/// The network that a text denotes in CIDR notation: whether it is IPv4, the
/// address, and the prefix length.
pub uninterp spec fn cidr(s: Seq<char>) -> Option<(bool, u128, u8)>;

/// Wraps `ipnet::IpNet`'s `FromStr`: whether the network is IPv4, its address
/// as a number, and its prefix length. The prefix length is at most the number
/// of bits of the address, and an IPv4 address has 32 of them.
#[verifier::external_body]
pub(crate) fn parse_cidr(s: &str) -> (r: Option<(bool, u128, u8)>)
    ensures
        r == cidr(s@),
        r matches Some((v4, a, p)) ==> (if v4 {
            a < 0x1_0000_0000 && p <= 32
        } else {
            p <= 128
        }),
{
    match s.parse::<ipnet::IpNet>() {
        Ok(ipnet::IpNet::V4(n)) => Some((true, u32::from(n.addr()) as u128, n.prefix_len())),
        Ok(ipnet::IpNet::V6(n)) => Some((false, u128::from(n.addr()), n.prefix_len())),
        Err(_) => None,
    }
}

/// Why a pool cannot be used.
#[derive(Debug, Clone, Copy, PartialEq, Eq, Structural)]
pub enum PoolError {
    /// The text is not in CIDR notation.
    InvalidCidr,
    /// The IPv6 prefix of this length is smaller than a client's block.
    PrefixTooLong(u8),
    /// Every block is taken.
    Exhausted,
}

/// What a pool holds: its first address, how many bits vary in it, and how many
/// blocks have been handed out.
pub struct PoolView {
    pub v4: bool,
    pub network: nat,
    pub host_bits: nat,
    pub allocated: nat,
}

impl PoolView {
    /// The number of bits of an address.
    pub open spec fn width(self) -> nat {
        if self.v4 {
            32
        } else {
            128
        }
    }

    /// The number of bits that vary within a client's block: a `/30` for IPv4,
    /// a `/64` for IPv6.
    pub open spec fn block_bits(self) -> nat {
        if self.v4 {
            2
        } else {
            64
        }
    }

    /// The prefix length of a client's block.
    pub open spec fn block_prefix(self) -> u8 {
        if self.v4 {
            30
        } else {
            64
        }
    }

    /// Whether the pool is aligned and lies within the address space.
    pub open spec fn wf(self) -> bool {
        &&& self.host_bits <= self.width()
        &&& !self.v4 ==> self.host_bits >= 64
        &&& self.network % pow2(self.host_bits) == 0
        &&& self.network + pow2(self.host_bits) <= pow2(self.width())
        &&& self.allocated <= self.capacity()
    }

    /// How many blocks the pool has.
    pub open spec fn capacity(self) -> nat {
        if self.host_bits < self.block_bits() {
            0
        } else {
            pow2((self.host_bits - self.block_bits()) as nat)
        }
    }

    /// The first address of block `k`.
    pub open spec fn block(self, k: nat) -> nat {
        self.network + k * pow2(self.block_bits())
    }

    /// The address with this number, in the family of the pool.
    pub open spec fn address(self, n: nat) -> IpAddr {
        if self.v4 {
            IpAddr::V4(n as u32)
        } else {
            IpAddr::V6(n as u128)
        }
    }

    /// The addresses of the two ends of the link in block `k`, and the prefix
    /// length: the proxy has the second address of the block, the client the
    /// third.
    pub open spec fn assignment(self, k: nat) -> (IpAddr, IpAddr, u8) {
        (
            self.address(self.block(k) + 1),
            self.address(self.block(k) + 2),
            self.block_prefix(),
        )
    }
}

/// Hands out one block of a network per session, in order.
#[derive(Debug)]
pub struct IpPool {
    v4: bool,
    network: u128,
    host_bits: u8,
    allocated: u128,
}

impl View for IpPool {
    type V = PoolView;

    closed spec fn view(&self) -> PoolView {
        PoolView {
            v4: self.v4,
            network: self.network as nat,
            host_bits: self.host_bits as nat,
            allocated: self.allocated as nat,
        }
    }
}

/// The pool of the network that `a` and `p` denote, before anything is handed
/// out.
pub open spec fn pool_of(v4: bool, a: u128, p: u8) -> PoolView {
    let host_bits = if v4 {
        (32 - p) as nat
    } else {
        (128 - p) as nat
    };
    PoolView {
        v4,
        network: (a - a as nat % pow2(host_bits)) as nat,
        host_bits,
        allocated: 0,
    }
}

/// Two to the power `k`.
fn power_of_two(k: u8) -> (r: u128)
    requires
        k < 128,
    ensures
        r == pow2(k as nat),
{
    let mut acc: u128 = 1;
    proof {
        lemma2_to64();
    }
    for i in 0..k
        invariant
            k < 128,
            acc == pow2(i as nat),
    {
        proof {
            lemma_pow2_unfold((i + 1) as nat);
            if i + 1 < 127 {
                lemma_pow2_strictly_increases((i + 1) as nat, 127);
            }
            lemma_pow2_127();
        }
        acc = acc * 2;
    }
    acc
}

proof fn lemma_pow2_127()
    ensures
        pow2(127) == 0x8000_0000_0000_0000_0000_0000_0000_0000,
        pow2(128) == 0x1_0000_0000_0000_0000_0000_0000_0000_0000,
        pow2(64) == 0x1_0000_0000_0000_0000,
        pow2(32) == 0x1_0000_0000,
        pow2(2) == 4,
{
    lemma2_to64();
    lemma2_to64_rest();
    lemma_pow2_adds(64, 63);
    lemma_pow2_adds(64, 64);
    assert(0x1_0000_0000_0000_0000 * 0x8000_0000_0000_0000
        == 0x8000_0000_0000_0000_0000_0000_0000_0000) by (nonlinear_arith);
    assert(0x1_0000_0000_0000_0000 * 0x1_0000_0000_0000_0000
        == 0x1_0000_0000_0000_0000_0000_0000_0000_0000) by (nonlinear_arith);
}

/// Rounding an address down to a multiple of its block keeps the block within
/// the address space.
proof fn lemma_aligned(a: nat, bits: nat, width: nat)
    requires
        a < pow2(width),
        bits <= width,
    ensures
        (a - a % pow2(bits)) % pow2(bits) as int == 0,
        a - a % pow2(bits) + pow2(bits) <= pow2(width),
        a % pow2(bits) <= a,
        pow2(bits) > 0,
{
    let b = pow2(bits);
    let q = pow2((width - bits) as nat);
    lemma_pow2_pos(bits);
    lemma_pow2_adds(bits, (width - bits) as nat);
    let k = a / b;
    assert(a == b * k + a % b && a % b < b) by (nonlinear_arith)
        requires
            b > 0,
            k == a / b,
    ;
    assert(k < q) by (nonlinear_arith)
        requires
            a == b * k + a % b,
            a < b * q,
            b > 0,
    ;
    assert(b * k + b <= b * q) by (nonlinear_arith)
        requires
            k < q,
            b > 0,
    ;
    assert((b * k) % b == 0) by (nonlinear_arith)
        requires
            b > 0,
    ;
}

/// Every block lies within its pool.
pub proof fn lemma_block_in_pool(pool: PoolView, k: nat)
    requires
        pool.wf(),
        k < pool.capacity(),
    ensures
        pool.network <= pool.block(k),
        pool.block(k) + pow2(pool.block_bits()) <= pool.network + pow2(pool.host_bits),
        pool.block(k) + pow2(pool.block_bits()) <= pow2(pool.width()),
        pow2(pool.block_bits()) >= 4,
{
    let b = pow2(pool.block_bits());
    let c = pool.capacity();
    lemma_pow2_127();
    if pool.host_bits >= pool.block_bits() {
        lemma_pow2_adds((pool.host_bits - pool.block_bits()) as nat, pool.block_bits());
    }
    assert(k * b + b <= c * b) by (nonlinear_arith)
        requires
            k < c,
            b > 0,
    ;
}

/// Two sessions never share an address: the blocks of different allocations do
/// not overlap.
pub proof fn lemma_blocks_disjoint(pool: PoolView, j: nat, k: nat)
    requires
        pool.wf(),
        j < k,
    ensures
        pool.block(j) + pow2(pool.block_bits()) <= pool.block(k),
{
    let b = pow2(pool.block_bits());
    lemma_pow2_pos(pool.block_bits());
    assert(j * b + b <= k * b) by (nonlinear_arith)
        requires
            j < k,
            b > 0,
    ;
}

/// The two ends of a link differ, are of the family of the pool, and differ
/// from the ends of every other link.
pub proof fn lemma_assignments_distinct(pool: PoolView, j: nat, k: nat)
    requires
        pool.wf(),
        j < pool.capacity(),
        k < pool.capacity(),
        j != k,
    ensures
        pool.assignment(j).0 != pool.assignment(j).1,
        pool.assignment(j).0 is V4 <==> pool.v4,
        pool.assignment(j).1 is V4 <==> pool.v4,
        pool.assignment(j).0 != pool.assignment(k).0,
        pool.assignment(j).0 != pool.assignment(k).1,
        pool.assignment(j).1 != pool.assignment(k).0,
        pool.assignment(j).1 != pool.assignment(k).1,
{
    lemma_pow2_127();
    lemma_block_in_pool(pool, j);
    lemma_block_in_pool(pool, k);
    if j < k {
        lemma_blocks_disjoint(pool, j, k);
    } else {
        lemma_blocks_disjoint(pool, k, j);
    }
}

impl IpPool {
    /// The pool of a network in CIDR notation.
    pub fn new(cidr_text: &str) -> (r: Result<IpPool, PoolError>)
        ensures
            match cidr(cidr_text@) {
                None => r == Err::<IpPool, PoolError>(PoolError::InvalidCidr),
                Some((v4, a, p)) => if !v4 && p > 64 {
                    r == Err::<IpPool, PoolError>(PoolError::PrefixTooLong(p))
                } else {
                    r matches Ok(pool) && pool@ == pool_of(v4, a, p) && pool@.wf()
                },
            },
    {
        match parse_cidr(cidr_text) {
            None => Err(PoolError::InvalidCidr),
            Some((v4, a, p)) => IpPool::from_network(v4, a, p),
        }
    }

    /// The pool of the network that an address and a prefix length denote. An
    /// IPv6 prefix longer than a client's block is refused.
    pub fn from_network(v4: bool, a: u128, p: u8) -> (r: Result<IpPool, PoolError>)
        requires
            v4 ==> a < 0x1_0000_0000 && p <= 32,
            !v4 ==> p <= 128,
        ensures
            if !v4 && p > 64 {
                r == Err::<IpPool, PoolError>(PoolError::PrefixTooLong(p))
            } else {
                r matches Ok(pool) && pool@ == pool_of(v4, a, p) && pool@.wf()
            },
    {
        if !v4 && p > 64 {
            return Err(PoolError::PrefixTooLong(p));
        }
        let host_bits: u8 = if v4 {
            32 - p
        } else {
            128 - p
        };
        proof {
            lemma_pow2_127();
            lemma_aligned(
                a as nat,
                host_bits as nat,
                if v4 {
                    32
                } else {
                    128
                },
            );
        }
        let network: u128 = if host_bits == 128 {
            assert(a as nat % pow2(128) == a) by (nonlinear_arith)
                requires
                    a < pow2(128),
            ;
            0
        } else {
            a - a % power_of_two(host_bits)
        };
        Ok(IpPool { v4, network, host_bits, allocated: 0 })
    }

    /// Hands out the next block: the addresses of the proxy and of the client,
    /// and the prefix length. When every block is taken the pool stays as it
    /// is.
    pub fn allocate(&mut self) -> (r: Result<(IpAddr, IpAddr, u8), PoolError>)
        requires
            old(self)@.wf(),
        ensures
            final(self)@.wf(),
            if old(self)@.allocated < old(self)@.capacity() {
                &&& r == Ok::<(IpAddr, IpAddr, u8), PoolError>(
                    old(self)@.assignment(old(self)@.allocated),
                )
                &&& final(self)@ == (PoolView {
                    allocated: old(self)@.allocated + 1,
                    ..old(self)@
                })
            } else {
                &&& r == Err::<(IpAddr, IpAddr, u8), PoolError>(PoolError::Exhausted)
                &&& final(self)@ == old(self)@
            },
    {
        proof {
            lemma_pow2_127();
        }
        if self.v4 {
            if self.host_bits < 2 || self.allocated >= power_of_two(self.host_bits - 2) {
                return Err(PoolError::Exhausted);
            }
            proof {
                lemma_block_in_pool(self@, self@.allocated);
                self.lemma_capacity_bound();
            }
            let base: u128 = self.network + self.allocated * 4;
            self.allocated = self.allocated + 1;
            Ok((IpAddr::V4((base + 1) as u32), IpAddr::V4((base + 2) as u32), 30))
        } else {
            if self.allocated >= power_of_two(self.host_bits - 64) {
                return Err(PoolError::Exhausted);
            }
            proof {
                lemma_block_in_pool(self@, self@.allocated);
                self.lemma_capacity_bound();
            }
            let base: u128 = self.network + self.allocated * 0x1_0000_0000_0000_0000;
            self.allocated = self.allocated + 1;
            Ok((IpAddr::V6(base + 1), IpAddr::V6(base + 2), 64))
        }
    }

    /// There are at most as many blocks as a 64-bit number can count.
    proof fn lemma_capacity_bound(&self)
        requires
            self@.wf(),
        ensures
            self.allocated < 0x1_0000_0000_0000_0001,
    {
        lemma_pow2_127();
        let c = self@.capacity();
        if self@.host_bits >= self@.block_bits() {
            let e = (self@.host_bits - self@.block_bits()) as nat;
            if e < 64 {
                lemma_pow2_strictly_increases(e, 64);
            }
        }
    }
}

/// The first address of the network that an address lies in: the bits behind
/// the prefix are zero.
pub open spec fn network_of(ip: IpAddr, prefix: u8) -> IpAddr {
    match ip {
        IpAddr::V4(n) => if prefix < 32 {
            IpAddr::V4((n - n as nat % pow2((32 - prefix) as nat)) as u32)
        } else {
            ip
        },
        IpAddr::V6(n) => if prefix < 128 {
            IpAddr::V6((n - n as nat % pow2((128 - prefix) as nat)) as u128)
        } else {
            ip
        },
    }
}

/// Finds the first address of the network that an address lies in.
pub fn network_address(ip: IpAddr, prefix: u8) -> (r: IpAddr)
    ensures
        r == network_of(ip, prefix),
{
    match ip {
        IpAddr::V4(n) => {
            if prefix >= 32 {
                return ip;
            }
            proof {
                lemma_pow2_127();
                lemma_aligned(n as nat, (32 - prefix) as nat, 32);
            }
            let a: u128 = n as u128;
            IpAddr::V4((a - a % power_of_two(32 - prefix)) as u32)
        },
        IpAddr::V6(n) => {
            if prefix >= 128 {
                return ip;
            }
            proof {
                lemma_pow2_127();
                lemma_aligned(n as nat, (128 - prefix) as nat, 128);
            }
            if prefix == 0 {
                assert(n as nat % pow2(128) == n) by (nonlinear_arith)
                    requires
                        n < pow2(128),
                ;
                return IpAddr::V6(0);
            }
            IpAddr::V6(n - n % power_of_two(128 - prefix))
        },
    }
}

/// The network of a client is the block that was handed out to it.
pub proof fn lemma_client_network(pool: PoolView, k: nat)
    requires
        pool.wf(),
        k < pool.capacity(),
    ensures
        network_of(pool.assignment(k).1, pool.assignment(k).2) == pool.address(pool.block(k)),
{
    let b = pow2(pool.block_bits());
    lemma_pow2_127();
    lemma_block_in_pool(pool, k);
    let e = (pool.host_bits - pool.block_bits()) as nat;
    lemma_pow2_adds(pool.block_bits(), e);
    let q = pow2(e);
    let h = pow2(pool.host_bits);
    let network = pool.network;
    let m = network / h;
    assert(network == h * m) by (nonlinear_arith)
        requires
            network % h == 0,
            m == network / h,
            h > 0,
    ;
    let block = pool.block(k);
    assert(block == b * (q * m + k)) by (nonlinear_arith)
        requires
            block == network + k * b,
            network == h * m,
            h == b * q,
    ;
    let client = block + 2;
    assert(client % b == 2) by (nonlinear_arith)
        requires
            client == b * (q * m + k) + 2,
            b > 2,
    ;
}

// ---------------------------------------------------------------------------
// The forwarding flag
// ---------------------------------------------------------------------------

/// The kernel's IPv4 forwarding flag.
pub const IP_FORWARD_PATH: &'static str = "/proc/sys/net/ipv4/ip_forward";

/// The kernel's IPv6 forwarding flag.
pub const IP6_FORWARD_PATH: &'static str = "/proc/sys/net/ipv6/conf/all/forwarding";

/// The file that holds the forwarding flag of a family.
pub fn forward_path(v4: bool) -> (r: &'static str)
    ensures
        r@ == (if v4 {
            IP_FORWARD_PATH@
        } else {
            IP6_FORWARD_PATH@
        }),
{
    if v4 {
        IP_FORWARD_PATH
    } else {
        IP6_FORWARD_PATH
    }
}

/// The flag that a text from the kernel denotes: a number up to 255, of which
/// everything above zero counts as one.
pub open spec fn flag_of(s: Seq<char>) -> Option<u8> {
    match text::decimal_up_to(text::trim_seq(s), 255) {
        Some(n) => Some(
            if n == 0 {
                0
            } else {
                1
            },
        ),
        None => None,
    }
}

/// Reads the forwarding flag out of the kernel's text.
pub fn read_ip_forward(s: &str) -> (r: Option<u8>)
    ensures
        r == flag_of(s@),
{
    match text::parse_decimal(text::trim(s), 255) {
        Some(n) => if n == 0 {
            Some(0)
        } else {
            Some(1)
        },
        None => None,
    }
}

/// Who holds the forwarding flag up. Many sessions share one flag: the first
/// turns it on, and the last puts back what the first found.
#[derive(Debug, Clone, Copy, PartialEq, Eq, Structural)]
pub struct IpForward {
    /// How many sessions hold the flag.
    pub holders: usize,
    /// What the first of them found.
    pub original: u8,
}

impl IpForward {
    /// A flag that nobody holds.
    pub fn new() -> (r: IpForward)
        ensures
            r.holders == 0,
            r.original == 1,
    {
        IpForward { holders: 0, original: 1 }
    }

    /// The flag that is written when a session comes, if any.
    pub open spec fn written_on_ensure(self, current: u8) -> Option<u8> {
        if self.holders == 0 && current == 0 {
            Some(1)
        } else {
            None
        }
    }

    /// The holders after a session came.
    pub open spec fn ensured(self, current: u8) -> IpForward {
        IpForward {
            holders: (self.holders + 1) as usize,
            original: if self.holders == 0 {
                current
            } else {
                self.original
            },
        }
    }

    /// The flag that is written when a session goes, if any.
    pub open spec fn written_on_release(self) -> Option<u8> {
        if self.holders == 1 && self.original == 0 {
            Some(0)
        } else {
            None
        }
    }

    /// The holders after a session went.
    pub open spec fn released(self) -> IpForward {
        if self.holders == 0 {
            self
        } else {
            IpForward { holders: (self.holders - 1) as usize, ..self }
        }
    }

    /// What is to be written before a session may hold the flag, given what the
    /// flag is now.
    pub fn before_ensure(&self, current: u8) -> (r: Option<u8>)
        ensures
            r == self.written_on_ensure(current),
    {
        if self.holders == 0 && current == 0 {
            Some(1)
        } else {
            None
        }
    }

    /// Counts a session in, once the flag is up. Tells whether the flag was put
    /// up for this session.
    pub fn ensure_ip_forward(&mut self, current: u8) -> (r: bool)
        requires
            old(self).holders < usize::MAX,
        ensures
            *final(self) == old(self).ensured(current),
            r == (old(self).written_on_ensure(current) is Some),
    {
        let turned_on = self.holders == 0 && current == 0;
        if self.holders == 0 {
            self.original = current;
        }
        self.holders = self.holders + 1;
        turned_on
    }

    /// Counts a session out. Tells what is to be written.
    pub fn release_ip_forward(&mut self) -> (r: Option<u8>)
        ensures
            *final(self) == old(self).released(),
            r == old(self).written_on_release(),
    {
        if self.holders == 0 {
            return None;
        }
        self.holders = self.holders - 1;
        if self.holders == 0 && self.original == 0 {
            Some(0)
        } else {
            None
        }
    }
}

/// The flag after a write, if there is one.
pub open spec fn flag_after(flag: u8, write: Option<u8>) -> u8 {
    match write {
        Some(v) => v,
        None => flag,
    }
}

/// While anybody holds the flag it is up, and it was put up from what is
/// remembered.
pub open spec fn held_up(f: IpForward, flag: u8) -> bool {
    f.holders > 0 ==> flag == 1 && (f.original == 0 || f.original == 1)
}

/// A session that comes finds the flag up from then on.
pub proof fn lemma_forward_ensure(f: IpForward, flag: u8)
    requires
        held_up(f, flag),
        flag <= 1,
        f.holders < usize::MAX,
    ensures
        held_up(f.ensured(flag), flag_after(flag, f.written_on_ensure(flag))),
        f.ensured(flag).holders > 0,
        f.holders == 0 ==> f.ensured(flag).original == flag,
{
}

/// A session that goes leaves the flag up for the others; the last one leaves
/// it as the first one found it.
pub proof fn lemma_forward_release(f: IpForward, flag: u8)
    requires
        held_up(f, flag),
        f.holders > 0,
    ensures
        held_up(f.released(), flag_after(flag, f.written_on_release())),
        f.released().holders == 0 ==> flag_after(flag, f.written_on_release()) == f.original,
        f.released().holders > 0 ==> f.released().original == f.original,
{
}

// ---------------------------------------------------------------------------
// The device
// ---------------------------------------------------------------------------

/// The size of an interface name, with its terminating zero.
pub const IFNAMSIZ: usize = 16;

/// The name that is asked for; the kernel fills in a number.
pub const NAME_HINT: &'static str = "auto%d";

pub const IP_BIN: &'static str = "/usr/sbin/ip";

pub const IPTABLES: &'static str = "/usr/sbin/iptables";

pub const IP6TABLES: &'static str = "/usr/sbin/ip6tables";

/// Why a device cannot be made.
#[derive(Debug, Clone, Copy, PartialEq, Eq, Structural)]
pub enum TunError {
    /// The two ends are of different families.
    FamilyMismatch,
    /// The name does not fit an interface name.
    NameTooLong,
}

/// Why a device is refused, if it is: its ends must be of one family, and its
/// name must leave room for the terminating zero.
pub open spec fn device_error(name_hint: Seq<char>, proxy: IpAddr, client: IpAddr) -> Option<
    TunError,
> {
    if (proxy is V4) != (client is V4) {
        Some(TunError::FamilyMismatch)
    } else if encode_utf8(name_hint).len() >= IFNAMSIZ {
        Some(TunError::NameTooLong)
    } else {
        None
    }
}

/// The text that `String::from_utf8_lossy` makes of some bytes.
pub uninterp spec fn lossy(bytes: Seq<u8>) -> Seq<char>;

/// Wraps `String::from_utf8_lossy`: well-formed UTF-8 is decoded, and the same
/// bytes always give the same text.
#[verifier::external_body]
pub(crate) fn from_utf8_lossy(bytes: &[u8]) -> (r: String)
    ensures
        r@ == lossy(bytes@),
        valid_utf8(bytes@) ==> r@ == decode_utf8(bytes@),
{
    String::from_utf8_lossy(bytes).into_owned()
}

/// The bytes before the first zero; all of them when there is none.
pub open spec fn before_zero(s: Seq<u8>) -> Seq<u8>
    decreases s.len(),
{
    if s.len() == 0 || s[0] == 0 {
        Seq::empty()
    } else {
        seq![s[0]] + before_zero(s.drop_first())
    }
}

/// The length of what stands before the first zero.
pub(crate) fn zero_position(bytes: &[u8]) -> (r: usize)
    ensures
        r <= bytes@.len(),
        bytes@.take(r as int) == before_zero(bytes@),
{
    let n: usize = bytes.len();
    let mut i: usize = 0;
    assert(bytes@.skip(0) == bytes@);
    assert(bytes@.take(0) + before_zero(bytes@) == before_zero(bytes@));
    while i < n && bytes[i] != 0
        invariant
            n == bytes@.len(),
            i <= n,
            bytes@.take(i as int) + before_zero(bytes@.skip(i as int)) == before_zero(bytes@),
        decreases n - i,
    {
        proof {
            let rest = bytes@.skip(i as int);
            assert(rest.drop_first() == bytes@.skip(i + 1));
            assert(bytes@.take(i + 1) + before_zero(bytes@.skip(i + 1)) == bytes@.take(i as int) + (
            seq![rest[0]] + before_zero(bytes@.skip(i + 1))));
        }
        i = i + 1;
    }
    assert(before_zero(bytes@.skip(i as int)) == Seq::<u8>::empty());
    assert(bytes@.take(i as int) + Seq::<u8>::empty() == bytes@.take(i as int));
    i
}

/// The text of a zero-terminated byte string.
pub fn cstr_to_string(bytes: &[u8]) -> (r: String)
    ensures
        r@ == lossy(before_zero(bytes@)),
        valid_utf8(before_zero(bytes@)) ==> r@ == decode_utf8(before_zero(bytes@)),
{
    let end: usize = zero_position(bytes);
    let name = slice_subrange(bytes, 0, end);
    assert(name@ == before_zero(bytes@));
    from_utf8_lossy(name)
}

/// A program and its arguments.
#[derive(Debug)]
pub struct Command {
    pub program: &'static str,
    pub args: Vec<String>,
}

/// What a [`Command`] denotes.
#[verifier::ext_equal]
pub struct CommandView {
    pub program: Seq<char>,
    pub args: Seq<Seq<char>>,
}

impl View for Command {
    type V = CommandView;

    open spec fn view(&self) -> CommandView {
        CommandView { program: self.program@, args: text::views(self.args@) }
    }
}

/// What a list of commands denotes.
pub open spec fn command_views(v: Seq<Command>) -> Seq<CommandView> {
    v.map_values(|c: Command| c@)
}

/// An address with a prefix length behind it.
pub open spec fn with_prefix(ip: Seq<char>, prefix: u8) -> Seq<char> {
    ip + "/"@ + text::decimal_digits(prefix as nat)
}

/// Writes an address with a prefix length behind it.
fn write_prefix(ip: &str, prefix: u8) -> (r: String)
    ensures
        r@ == with_prefix(ip@, prefix),
{
    let digits = text::decimal_string(prefix as u64);
    text::concat_three(ip, "/", digits.as_str())
}

/// Brings the interface up.
pub open spec fn link_up(name: Seq<char>) -> CommandView {
    CommandView { program: IP_BIN@, args: seq!["link"@, "set"@, name, "up"@] }
}

/// Sets the MTU of the interface.
pub open spec fn link_mtu(name: Seq<char>, mtu: nat) -> CommandView {
    CommandView {
        program: IP_BIN@,
        args: seq!["link"@, "set"@, name, "mtu"@, text::decimal_digits(mtu)],
    }
}

/// Gives the proxy its end of the link, with the client as the peer.
pub open spec fn link_address(
    v4: bool,
    name: Seq<char>,
    proxy: Seq<char>,
    client: Seq<char>,
    prefix: u8,
) -> CommandView {
    CommandView {
        program: IP_BIN@,
        args: if v4 {
            seq!["addr"@, "add"@, with_prefix(proxy, prefix), "peer"@, client, "dev"@, name]
        } else {
            seq![
                "-6"@,
                "addr"@,
                "add"@,
                with_prefix(proxy, 128),
                "peer"@,
                with_prefix(client, 128),
                "dev"@,
                name,
            ]
        },
    }
}

/// The commands that make a new interface one end of a link.
pub open spec fn link_commands(
    v4: bool,
    name: Seq<char>,
    proxy: Seq<char>,
    client: Seq<char>,
    prefix: u8,
    mtu: Option<usize>,
) -> Seq<CommandView> {
    match mtu {
        Some(m) => seq![
            link_up(name),
            link_mtu(name, m as nat),
            link_address(v4, name, proxy, client, prefix),
        ],
        None => seq![link_up(name), link_address(v4, name, proxy, client, prefix)],
    }
}

/// Lists the commands that make a new interface one end of a link.
fn setup_link(
    v4: bool,
    name: &str,
    proxy: &str,
    client: &str,
    prefix: u8,
    mtu: Option<usize>,
) -> (r: Vec<Command>)
    ensures
        command_views(r@) == link_commands(v4, name@, proxy@, client@, prefix, mtu),
{
    let mut out: Vec<Command> = Vec::new();
    let up: [&str; 4] = ["link", "set", name, "up"];
    out.push(Command { program: IP_BIN, args: text::to_strings(up.as_slice()) });
    assert(text::str_views(up@) == seq!["link"@, "set"@, name@, "up"@]);
    if let Some(m) = mtu {
        let digits = text::decimal_string(m as u64);
        let set: [&str; 5] = ["link", "set", name, "mtu", digits.as_str()];
        out.push(Command { program: IP_BIN, args: text::to_strings(set.as_slice()) });
        assert(text::str_views(set@) == link_mtu(name@, m as nat).args);
    }
    if v4 {
        let end = write_prefix(proxy, prefix);
        let add: [&str; 7] = ["addr", "add", end.as_str(), "peer", client, "dev", name];
        out.push(Command { program: IP_BIN, args: text::to_strings(add.as_slice()) });
        assert(text::str_views(add@) == link_address(v4, name@, proxy@, client@, prefix).args);
    } else {
        let end = write_prefix(proxy, 128);
        let peer = write_prefix(client, 128);
        let add: [&str; 8] = [
            "-6",
            "addr",
            "add",
            end.as_str(),
            "peer",
            peer.as_str(),
            "dev",
            name,
        ];
        out.push(Command { program: IP_BIN, args: text::to_strings(add.as_slice()) });
        assert(text::str_views(add@) == link_address(v4, name@, proxy@, client@, prefix).args);
    }
    assert(command_views(out@) == link_commands(v4, name@, proxy@, client@, prefix, mtu));
    out
}

/// Adds the route to a network, or takes it away.
pub open spec fn route_command(
    v4: bool,
    verb: Seq<char>,
    net: Seq<char>,
    name: Seq<char>,
) -> CommandView {
    CommandView {
        program: IP_BIN@,
        args: if v4 {
            seq!["route"@, verb, net, "dev"@, name]
        } else {
            seq!["-6"@, "route"@, verb, net, "dev"@, name]
        },
    }
}

/// Writes the command that adds the route to a network, or takes it away.
fn change_route(v4: bool, verb: &str, net: &str, name: &str) -> (r: Command)
    ensures
        r@ == route_command(v4, verb@, net@, name@),
{
    if v4 {
        let args: [&str; 5] = ["route", verb, net, "dev", name];
        assert(text::str_views(args@) == route_command(v4, verb@, net@, name@).args);
        Command { program: IP_BIN, args: text::to_strings(args.as_slice()) }
    } else {
        let args: [&str; 6] = ["-6", "route", verb, net, "dev", name];
        assert(text::str_views(args@) == route_command(v4, verb@, net@, name@).args);
        Command { program: IP_BIN, args: text::to_strings(args.as_slice()) }
    }
}

/// The program that keeps the firewall of a family.
pub open spec fn firewall(v4: bool) -> Seq<char> {
    if v4 {
        IPTABLES@
    } else {
        IP6TABLES@
    }
}

/// The firewall rules of a client: its traffic is masqueraded on the way out,
/// and forwarded both ways.
pub open spec fn nat_rules_of(client: Seq<char>, prefix: u8) -> Seq<Seq<Seq<char>>> {
    let net = with_prefix(client, prefix);
    seq![
        seq!["-t"@, "nat"@, "-A"@, "POSTROUTING"@, "-s"@, net, "-j"@, "MASQUERADE"@],
        seq!["-A"@, "FORWARD"@, "-s"@, net, "-j"@, "ACCEPT"@],
        seq!["-A"@, "FORWARD"@, "-d"@, net, "-j"@, "ACCEPT"@],
    ]
}

/// The commands that run the firewall program on each of the rules.
pub open spec fn firewall_commands(v4: bool, rules: Seq<Seq<Seq<char>>>) -> Seq<CommandView> {
    rules.map_values(|rule: Seq<Seq<char>>| CommandView { program: firewall(v4), args: rule })
}

/// Lists the commands that add the firewall rules of a client.
fn setup_nat(v4: bool, client: &str, prefix: u8) -> (r: Vec<Command>)
    ensures
        command_views(r@) == firewall_commands(v4, nat_rules_of(client@, prefix)),
{
    let program: &'static str = if v4 {
        IPTABLES
    } else {
        IP6TABLES
    };
    let net = write_prefix(client, prefix);
    let masquerade: [&str; 8] = [
        "-t",
        "nat",
        "-A",
        "POSTROUTING",
        "-s",
        net.as_str(),
        "-j",
        "MASQUERADE",
    ];
    let outward: [&str; 6] = ["-A", "FORWARD", "-s", net.as_str(), "-j", "ACCEPT"];
    let inward: [&str; 6] = ["-A", "FORWARD", "-d", net.as_str(), "-j", "ACCEPT"];
    let ghost rules = nat_rules_of(client@, prefix);
    assert(text::str_views(masquerade@) == rules[0]);
    assert(text::str_views(outward@) == rules[1]);
    assert(text::str_views(inward@) == rules[2]);
    let mut out: Vec<Command> = Vec::new();
    out.push(Command { program, args: text::to_strings(masquerade.as_slice()) });
    out.push(Command { program, args: text::to_strings(outward.as_slice()) });
    out.push(Command { program, args: text::to_strings(inward.as_slice()) });
    assert(command_views(out@) == firewall_commands(v4, rules));
    out
}

/// The rule that takes back what `rule` added: `-D` in place of `-A`.
pub open spec fn deletion_of(rule: Seq<Seq<char>>) -> Seq<Seq<char>> {
    rule.map_values(
        |token: Seq<char>|
            if token == "-A"@ {
                "-D"@
            } else {
                token
            },
    )
}

/// Writes the rule that takes back what `rule` added.
pub fn delete_rule(rule: &Vec<String>) -> (r: Vec<String>)
    ensures
        text::views(r@) == deletion_of(text::views(rule@)),
{
    let mut out: Vec<String> = Vec::new();
    let n: usize = rule.len();
    for i in 0..n
        invariant
            n == rule@.len(),
            out@.len() == i,
            forall|k: int|
                0 <= k < i ==> (#[trigger] out@[k])@ == (if rule@[k]@ == "-A"@ {
                    "-D"@
                } else {
                    rule@[k]@
                }),
    {
        let token = rule[i].as_str();
        if text::str_equal(token, "-A") {
            out.push("-D".to_string());
        } else {
            out.push(token.to_string());
        }
    }
    assert(text::views(out@) == deletion_of(text::views(rule@)));
    out
}

/// What takes back every one of the rules.
pub open spec fn deletions(rules: Seq<Seq<Seq<char>>>) -> Seq<Seq<Seq<char>>> {
    rules.map_values(|rule: Seq<Seq<char>>| deletion_of(rule))
}

/// The commands that take a device down: every rule that was added, the route
/// where it was added, then the interface.
pub open spec fn teardown_commands(
    v4: bool,
    name: Seq<char>,
    rules: Seq<Seq<Seq<char>>>,
    route: Option<Seq<char>>,
) -> Seq<CommandView> {
    let link = CommandView { program: IP_BIN@, args: seq!["link"@, "del"@, name] };
    match route {
        Some(net) => firewall_commands(v4, deletions(rules)).push(
            route_command(v4, "del"@, net, name),
        ).push(link),
        None => firewall_commands(v4, deletions(rules)).push(link),
    }
}

/// A step of the setup of a device.
#[derive(Debug)]
pub enum TunStep {
    Run(Command),
    /// Run the command that adds the route to the client's network.
    AddRoute(Command),
    /// Hold the forwarding flag up.
    Forward,
    /// Run a command that adds a firewall rule.
    AddRule(Command),
}

/// What a [`TunStep`] denotes.
#[verifier::ext_equal]
pub enum TunStepView {
    Run(CommandView),
    AddRoute(CommandView),
    Forward,
    AddRule(CommandView),
}

impl View for TunStep {
    type V = TunStepView;

    open spec fn view(&self) -> TunStepView {
        match self {
            TunStep::Run(c) => TunStepView::Run(c@),
            TunStep::AddRoute(c) => TunStepView::AddRoute(c@),
            TunStep::Forward => TunStepView::Forward,
            TunStep::AddRule(c) => TunStepView::AddRule(c@),
        }
    }
}

/// What a list of steps denotes.
pub open spec fn step_views(v: Seq<TunStep>) -> Seq<TunStepView> {
    v.map_values(|t: TunStep| t@)
}

/// The setup of a device: the link, then the route to the client's network,
/// then forwarding, then the firewall rules of the client.
pub open spec fn setup_steps(
    v4: bool,
    name: Seq<char>,
    proxy: Seq<char>,
    client: Seq<char>,
    network: Seq<char>,
    prefix: u8,
    mtu: Option<usize>,
) -> Seq<TunStepView> {
    link_commands(v4, name, proxy, client, prefix, mtu).map_values(
        |c: CommandView| TunStepView::Run(c),
    ) + seq![
        TunStepView::AddRoute(route_command(v4, "add"@, with_prefix(network, prefix), name)),
        TunStepView::Forward,
    ] + firewall_commands(
        v4,
        nat_rules_of(client, prefix),
    ).map_values(|c: CommandView| TunStepView::AddRule(c))
}

/// The rules that were added in a number of steps.
pub open spec fn added(steps: Seq<TunStepView>) -> Seq<Seq<Seq<char>>>
    decreases steps.len(),
{
    if steps.len() == 0 {
        Seq::empty()
    } else {
        let before = added(steps.drop_last());
        match steps.last() {
            TunStepView::AddRule(c) => before.push(c.args),
            _ => before,
        }
    }
}

/// Whether the route was added in a number of steps.
pub open spec fn routed(steps: Seq<TunStepView>) -> bool {
    exists|k: int| 0 <= k < steps.len() && #[trigger] steps[k] is AddRoute
}

/// A device, and how far its setup has come.
#[derive(Debug)]
pub struct TunDevice {
    proxy: IpAddr,
    client: IpAddr,
    prefix: u8,
    mtu: Option<usize>,
    open: bool,
    name: String,
    net: String,
    steps: Vec<TunStep>,
    done: usize,
}

/// What a [`TunDevice`] denotes.
#[verifier::ext_equal]
pub struct TunDeviceView {
    /// The two ends of the link.
    pub proxy: IpAddr,
    pub client: IpAddr,
    pub prefix: u8,
    pub mtu: Option<usize>,
    /// Whether there is an interface.
    pub open: bool,
    /// The name of the interface.
    pub name: Seq<char>,
    /// The client's network, with its prefix length.
    pub net: Seq<char>,
    /// The whole setup; nothing while there is no interface.
    pub steps: Seq<TunStepView>,
    /// How many steps of it are done.
    pub done: nat,
}

impl View for TunDevice {
    type V = TunDeviceView;

    closed spec fn view(&self) -> TunDeviceView {
        TunDeviceView {
            proxy: self.proxy,
            client: self.client,
            prefix: self.prefix,
            mtu: self.mtu,
            open: self.open,
            name: self.name@,
            net: self.net@,
            steps: step_views(self.steps@),
            done: self.done as nat,
        }
    }
}

impl TunDeviceView {
    /// Whether the link is an IPv4 link.
    pub open spec fn v4(self) -> bool {
        self.proxy is V4
    }

    /// Whether both ends are of one family, and no more is done than is planned.
    pub open spec fn wf(self) -> bool {
        &&& (self.proxy is V4) == (self.client is V4)
        &&& self.done <= self.steps.len()
        &&& !self.open ==> self.steps.len() == 0
    }

    /// What takes the device down: the rules that were added, the route where it
    /// was added, and the interface. Nothing while there is no interface.
    pub open spec fn undo(self) -> Seq<CommandView> {
        let steps = self.steps.take(self.done as int);
        if self.open {
            teardown_commands(
                self.v4(),
                self.name,
                added(steps),
                if routed(steps) {
                    Some(self.net)
                } else {
                    None
                },
            )
        } else {
            Seq::empty()
        }
    }

    /// Whether the device holds the forwarding flag.
    pub open spec fn forwards(self) -> bool {
        self.steps.take(self.done as int).contains(TunStepView::Forward)
    }
}

impl TunDevice {
    /// A device for the two ends of a link, before there is an interface. One
    /// that is refused has nothing planned and nothing to take back.
    pub fn create(
        name_hint: &str,
        proxy: IpAddr,
        client: IpAddr,
        prefix: u8,
        mtu: Option<usize>,
    ) -> (r: Result<TunDevice, TunError>)
        ensures
            match device_error(name_hint@, proxy, client) {
                Some(error) => r == Err::<TunDevice, TunError>(error),
                None => {
                    &&& r matches Ok(device)
                    &&& device@ == (TunDeviceView {
                        proxy,
                        client,
                        prefix,
                        mtu,
                        open: false,
                        name: Seq::empty(),
                        net: Seq::empty(),
                        steps: Seq::empty(),
                        done: 0,
                    })
                    &&& device@.wf()
                },
            },
    {
        if proxy.is_ipv4() != client.is_ipv4() {
            return Err(TunError::FamilyMismatch);
        }
        if name_hint.as_bytes().len() >= IFNAMSIZ {
            return Err(TunError::NameTooLong);
        }
        Ok(
            TunDevice {
                proxy,
                client,
                prefix,
                mtu,
                open: false,
                name: String::new(),
                net: String::new(),
                steps: Vec::new(),
                done: 0,
            },
        )
    }

    /// Takes note of the interface that was opened, and plans its setup. The
    /// ends of the link and the client's network come as the texts to use for
    /// them.
    pub fn opened(&mut self, name: &str, proxy: &str, client: &str, network: &str)
        requires
            old(self)@.wf(),
            !old(self)@.open,
            addr::ip_of(proxy@) == Some(old(self)@.proxy),
            addr::ip_of(client@) == Some(old(self)@.client),
            addr::ip_of(network@) == Some(network_of(old(self)@.client, old(self)@.prefix)),
        ensures
            final(self)@ == (TunDeviceView {
                open: true,
                name: name@,
                net: with_prefix(network@, old(self)@.prefix),
                steps: setup_steps(
                    old(self)@.v4(),
                    name@,
                    proxy@,
                    client@,
                    network@,
                    old(self)@.prefix,
                    old(self)@.mtu,
                ),
                ..old(self)@
            }),
            final(self)@.wf(),
    {
        let v4 = self.proxy.is_ipv4();
        let prefix: u8 = self.prefix;
        let mtu: Option<usize> = self.mtu;
        let mut link = setup_link(v4, name, proxy, client, prefix, mtu);
        let mut rules = setup_nat(v4, client, prefix);
        let ghost links = link@;
        let ghost all = rules@;
        let mut steps: Vec<TunStep> = Vec::new();
        while link.len() > 0
            invariant
                steps@.len() + link@.len() == links.len(),
                link@ == links.skip(steps@.len() as int),
                forall|k: int|
                    0 <= k < steps@.len() ==> (#[trigger] steps@[k])@ == TunStepView::Run(links[k]@),
            decreases link@.len(),
        {
            let c = link.remove(0);
            steps.push(TunStep::Run(c));
        }
        let net = write_prefix(network, prefix);
        steps.push(TunStep::AddRoute(change_route(v4, "add", net.as_str(), name)));
        steps.push(TunStep::Forward);
        let ghost front = steps@;
        while rules.len() > 0
            invariant
                steps@.len() + rules@.len() == front.len() + all.len(),
                steps@.len() >= front.len(),
                rules@ == all.skip(steps@.len() - front.len()),
                forall|k: int| 0 <= k < front.len() ==> #[trigger] steps@[k] == front[k],
                forall|k: int|
                    front.len() <= k < steps@.len() ==> (#[trigger] steps@[k])@
                        == TunStepView::AddRule(all[k - front.len()]@),
            decreases rules@.len(),
        {
            let c = rules.remove(0);
            steps.push(TunStep::AddRule(c));
        }
        proof {
            let want = setup_steps(v4, name@, proxy@, client@, network@, prefix, mtu);
            assert(links.len() == command_views(links).len());
            assert(all.len() == command_views(all).len());
            assert forall|k: int| 0 <= k < want.len() implies step_views(steps@)[k] == want[k] by {
                if k < front.len() {
                    assert(steps@[k] == front[k]);
                }
            }
            assert(step_views(steps@) == want);
        }
        self.open = true;
        self.name = name.to_string();
        self.net = net;
        self.steps = steps;
    }

    /// The name of the interface; empty while there is none.
    pub fn name(&self) -> (r: &str)
        ensures
            r@ == self@.name,
    {
        self.name.as_str()
    }

    /// The next step of the setup.
    pub fn next_step(&self) -> (r: Option<&TunStep>)
        ensures
            match r {
                Some(t) => self@.done < self@.steps.len() && t@ == self@.steps[self@.done as int],
                None => self@.done >= self@.steps.len(),
            },
    {
        if self.done < self.steps.len() {
            Some(&self.steps[self.done])
        } else {
            None
        }
    }

    /// Counts the next step as done.
    pub fn step_done(&mut self)
        requires
            old(self)@.wf(),
            old(self)@.done < old(self)@.steps.len(),
        ensures
            final(self)@ == (TunDeviceView { done: old(self)@.done + 1, ..old(self)@ }),
            final(self)@.wf(),
    {
        assert(self.steps@.len() <= usize::MAX) by {
            assert(self.steps@.len() == self.steps.len());
        }
        self.done = self.done + 1;
    }

    /// Whether the device holds the forwarding flag.
    pub fn holds_forwarding(&self) -> (r: bool)
        requires
            self@.wf(),
        ensures
            r == self@.forwards(),
    {
        let ghost front = self@.steps.take(self@.done as int);
        for i in 0..self.done
            invariant
                self@.done == self.done,
                self.done <= self.steps@.len(),
                self@.steps == step_views(self.steps@),
                front == self@.steps.take(self@.done as int),
                forall|k: int| 0 <= k < i ==> front[k] != TunStepView::Forward,
        {
            if let TunStep::Forward = &self.steps[i] {
                assert(front[i as int] == TunStepView::Forward);
                return true;
            }
        }
        false
    }

    /// Lists the commands that take the device down, however far its setup has
    /// come.
    pub fn teardown(&self) -> (r: Vec<Command>)
        requires
            self@.wf(),
        ensures
            command_views(r@) == self@.undo(),
    {
        let mut out: Vec<Command> = Vec::new();
        if !self.open {
            return out;
        }
        let v4 = self.proxy.is_ipv4();
        let program: &'static str = if v4 {
            IPTABLES
        } else {
            IP6TABLES
        };
        let mut route = false;
        let ghost steps = self@.steps;
        assert(steps.take(0) == Seq::<TunStepView>::empty());
        assert(command_views(out@) == firewall_commands(v4, deletions(added(steps.take(0)))));
        for i in 0..self.done
            invariant
                self@.done == self.done,
                self.done <= self.steps@.len(),
                steps == step_views(self.steps@),
                program@ == firewall(v4),
                command_views(out@) == firewall_commands(
                    v4,
                    deletions(added(steps.take(i as int))),
                ),
                route == routed(steps.take(i as int)),
        {
            let ghost longer = steps.take(i + 1);
            proof {
                lemma_routed_push(steps, i as int);
            }
            let ghost before = out@;
            assert(longer.drop_last() == steps.take(i as int));
            assert(longer.last() == self.steps@[i as int]@);
            if let TunStep::AddRule(c) = &self.steps[i] {
                let args = delete_rule(&c.args);
                out.push(Command { program, args });
                assert(added(longer) == added(steps.take(i as int)).push(c@.args));
                assert(deletions(added(longer)) == deletions(added(steps.take(i as int))).push(
                    deletion_of(c@.args),
                ));
                assert(command_views(out@) == command_views(before).push(
                    CommandView { program: firewall(v4), args: deletion_of(c@.args) },
                ));
                assert(command_views(out@) == firewall_commands(
                    v4,
                    deletions(added(longer)),
                ));
            }
            if let TunStep::AddRoute(_) = &self.steps[i] {
                route = true;
            }
        }
        if route {
            let ghost before = out@;
            let c = change_route(v4, "del", self.net.as_str(), self.name.as_str());
            out.push(c);
            assert(command_views(out@) == command_views(before).push(c@));
        }
        let ghost before = out@;
        let del: [&str; 3] = ["link", "del", self.name.as_str()];
        out.push(Command { program: IP_BIN, args: text::to_strings(del.as_slice()) });
        assert(text::str_views(del@) == seq!["link"@, "del"@, self@.name]);
        assert(command_views(out@) == command_views(before).push(
            CommandView { program: IP_BIN@, args: seq!["link"@, "del"@, self@.name] },
        ));
        out
    }
}

proof fn lemma_routed_push(steps: Seq<TunStepView>, i: int)
    requires
        0 <= i < steps.len(),
    ensures
        routed(steps.take(i + 1)) == (routed(steps.take(i)) || steps[i] is AddRoute),
{
    let front = steps.take(i);
    let longer = steps.take(i + 1);
    if routed(front) {
        let k = choose|k: int| 0 <= k < front.len() && #[trigger] front[k] is AddRoute;
        assert(longer[k] is AddRoute);
    }
    if steps[i] is AddRoute {
        assert(longer[i] is AddRoute);
    }
    if routed(longer) {
        let k = choose|k: int| 0 <= k < longer.len() && #[trigger] longer[k] is AddRoute;
        if k < i {
            assert(front[k] is AddRoute);
        }
    }
}

/// A setup that breaks off takes back exactly what it had done: nothing while it
/// was still at the link, then the route, and then the rules one by one.
pub proof fn lemma_added_so_far(
    v4: bool,
    name: Seq<char>,
    proxy: Seq<char>,
    client: Seq<char>,
    network: Seq<char>,
    prefix: u8,
    mtu: Option<usize>,
    done: int,
)
    requires
        0 <= done <= setup_steps(v4, name, proxy, client, network, prefix, mtu).len(),
    ensures
        ({
            let steps = setup_steps(v4, name, proxy, client, network, prefix, mtu);
            let links = link_commands(v4, name, proxy, client, prefix, mtu).len();
            &&& added(steps.take(done)) == nat_rules_of(client, prefix).take(
                if done <= links + 1 {
                    0
                } else {
                    done - links - 2
                },
            )
            &&& routed(steps.take(done)) <==> done > links
            &&& steps.take(done).contains(TunStepView::Forward) <==> done > links + 1
        }),
    decreases done,
{
    let steps = setup_steps(v4, name, proxy, client, network, prefix, mtu);
    let links = link_commands(v4, name, proxy, client, prefix, mtu);
    let rules = nat_rules_of(client, prefix);
    let n = links.len() as int;
    let front = steps.take(done);
    if done > 0 {
        lemma_added_so_far(v4, name, proxy, client, network, prefix, mtu, done - 1);
        lemma_routed_push(steps, done - 1);
        assert(front.drop_last() == steps.take(done - 1));
        assert(front.last() == steps[done - 1]);
        if done - 1 < n {
            assert(steps[done - 1] == TunStepView::Run(links[done - 1]));
        }
        if done - 2 > n {
            assert(steps[done - 1] == TunStepView::AddRule(
                CommandView { program: firewall(v4), args: rules[done - 3 - n] },
            ));
            assert(rules.take(done - n - 2) == rules.take(done - n - 3).push(rules[done - n - 3]));
        } else {
            assert(rules.take(0) == Seq::<Seq<Seq<char>>>::empty());
        }
        if done > n + 1 {
            assert(front[n + 1] == TunStepView::Forward);
        } else {
            assert forall|k: int| 0 <= k < front.len() implies front[k] != TunStepView::Forward by {
                if k < n {
                    assert(steps[k] == TunStepView::Run(links[k]));
                }
            }
        }
    } else {
        assert(front == Seq::<TunStepView>::empty());
        assert(rules.take(0) == Seq::<Seq<Seq<char>>>::empty());
    }
}

/// The teardown of a client takes back exactly the rules of its setup: the same
/// three, in the same order, with `-D` in place of `-A`.
pub proof fn lemma_teardown_undoes_setup(client: Seq<char>, prefix: u8)
    ensures
        deletions(nat_rules_of(client, prefix)) == seq![
            seq![
                "-t"@,
                "nat"@,
                "-D"@,
                "POSTROUTING"@,
                "-s"@,
                with_prefix(client, prefix),
                "-j"@,
                "MASQUERADE"@,
            ],
            seq!["-D"@, "FORWARD"@, "-s"@, with_prefix(client, prefix), "-j"@, "ACCEPT"@],
            seq!["-D"@, "FORWARD"@, "-d"@, with_prefix(client, prefix), "-j"@, "ACCEPT"@],
        ],
{
    let net = with_prefix(client, prefix);
    reveal_strlit("-A");
    reveal_strlit("-D");
    reveal_strlit("-t");
    reveal_strlit("-s");
    reveal_strlit("-d");
    reveal_strlit("-j");
    reveal_strlit("nat");
    reveal_strlit("POSTROUTING");
    reveal_strlit("MASQUERADE");
    reveal_strlit("FORWARD");
    reveal_strlit("ACCEPT");
    reveal_strlit("/");
    text::lemma_decimal_round_trip(prefix as nat);
    let digits = text::decimal_digits(prefix as nat);
    // The last character of a network is a digit, so it is not `-A`.
    assert(text::is_digit(digits[digits.len() - 1]));
    assert(net[net.len() - 1] == digits[digits.len() - 1]);
    assert(net != "-A"@) by {
        assert("-A"@[1] == 'A');
        assert("-A"@.len() == 2);
        if net.len() == 2 {
            assert(net[1] != 'A');
        }
    }
    assert("-t"@[1] != "-A"@[1]);
    assert("-s"@[1] != "-A"@[1]);
    assert("-d"@[1] != "-A"@[1]);
    assert("-j"@[1] != "-A"@[1]);
    assert("nat"@.len() != "-A"@.len());
    let rules = nat_rules_of(client, prefix);
    let dels = deletions(rules);
    assert(dels[0] == seq![
        "-t"@,
        "nat"@,
        "-D"@,
        "POSTROUTING"@,
        "-s"@,
        net,
        "-j"@,
        "MASQUERADE"@,
    ]);
    assert(dels[1] == seq!["-D"@, "FORWARD"@, "-s"@, net, "-j"@, "ACCEPT"@]);
    assert(dels[2] == seq!["-D"@, "FORWARD"@, "-d"@, net, "-j"@, "ACCEPT"@]);
}

// ---------------------------------------------------------------------------
// Laws
// ---------------------------------------------------------------------------

/// The blocks of an IPv4 pool are four addresses each, in order: the proxy has
/// the second, the client the third, and the prefix is 30.
pub proof fn lemma_v4_blocks(pool: PoolView, k: nat)
    requires
        pool.wf(),
        pool.v4,
        k < pool.capacity(),
    ensures
        pool.assignment(k).0 matches IpAddr::V4(n) && n == pool.network + 4 * k + 1,
        pool.assignment(k).1 matches IpAddr::V4(n) && n == pool.network + 4 * k + 2,
        pool.assignment(k).2 == 30,
{
    lemma_pow2_127();
    lemma_block_in_pool(pool, k);
}

/// The blocks of an IPv6 pool are 2^64 addresses each, in order: the proxy has
/// the second, the client the third, and the prefix is 64.
pub proof fn lemma_v6_blocks(pool: PoolView, k: nat)
    requires
        pool.wf(),
        !pool.v4,
        k < pool.capacity(),
    ensures
        pool.assignment(k).0 matches IpAddr::V6(n) && n == pool.network + k * 0x1_0000_0000_0000_0000
            + 1,
        pool.assignment(k).1 matches IpAddr::V6(n) && n == pool.network + k * 0x1_0000_0000_0000_0000
            + 2,
        pool.assignment(k).2 == 64,
{
    lemma_pow2_127();
    lemma_block_in_pool(pool, k);
}

/// A pool has as many blocks as there is room for: one for the prefix of a block,
/// twice as many for each bit that the prefix is shorter, and none where it is
/// longer.
pub proof fn lemma_capacity(v4: bool, a: u128, p: u8)
    ensures
        pool_of(true, a, 30).capacity() == 1,
        30 < p <= 32 ==> pool_of(true, a, p).capacity() == 0,
        0 < p <= 30 ==> pool_of(true, a, (p - 1) as u8).capacity() == 2 * pool_of(
            true,
            a,
            p,
        ).capacity(),
        pool_of(false, a, 64).capacity() == 1,
        0 < p <= 64 ==> pool_of(false, a, (p - 1) as u8).capacity() == 2 * pool_of(
            false,
            a,
            p,
        ).capacity(),
        pool_of(v4, a, p).allocated == 0,
{
    lemma2_to64();
    if 0 < p <= 30 {
        lemma_pow2_unfold((32 - (p - 1) - 2) as nat);
    }
    if 0 < p <= 64 {
        lemma_pow2_unfold((128 - (p - 1) - 64) as nat);
    }
}

/// A pool begins at the first address of its network: a multiple of the size of
/// the network, and the address that was given lies in it.
pub proof fn lemma_pool_start(v4: bool, a: u128, p: u8)
    requires
        v4 ==> a < 0x1_0000_0000 && p <= 32,
        !v4 ==> p <= 128,
    ensures
        ({
            let pool = pool_of(v4, a, p);
            let size = pow2(
                if v4 {
                    (32 - p) as nat
                } else {
                    (128 - p) as nat
                },
            );
            &&& pool.v4 == v4
            &&& pool.network % size == 0
            &&& pool.network <= a < pool.network + size
        }),
{
    lemma_pow2_127();
    lemma_aligned(
        a as nat,
        if v4 {
            (32 - p) as nat
        } else {
            (128 - p) as nat
        },
        if v4 {
            32
        } else {
            128
        },
    );
}

/// The network of an address begins at a multiple of its size, and the address
/// lies in it.
pub proof fn lemma_network(n4: u32, n6: u128, prefix: u8)
    ensures
        prefix < 32 ==> (network_of(IpAddr::V4(n4), prefix) matches IpAddr::V4(m) && m as nat % pow2(
            (32 - prefix) as nat,
        ) == 0 && m <= n4 < m + pow2((32 - prefix) as nat)),
        prefix >= 32 ==> network_of(IpAddr::V4(n4), prefix) == IpAddr::V4(n4),
        prefix < 128 ==> (network_of(IpAddr::V6(n6), prefix) matches IpAddr::V6(m) && m as nat
            % pow2((128 - prefix) as nat) == 0 && m <= n6 < m + pow2((128 - prefix) as nat)),
        prefix >= 128 ==> network_of(IpAddr::V6(n6), prefix) == IpAddr::V6(n6),
{
    lemma_pow2_127();
    if prefix < 32 {
        lemma_aligned(n4 as nat, (32 - prefix) as nat, 32);
    }
    if prefix < 128 {
        lemma_aligned(n6 as nat, (128 - prefix) as nat, 128);
    }
}

/// The kernel's text is a number with white space round it or not: zero is down,
/// everything up to 255 is up, and a larger number is not taken.
pub proof fn lemma_flags(l: Seq<char>, n: nat, r: Seq<char>)
    requires
        text::all_space(l),
        text::all_space(r),
    ensures
        n == 0 ==> flag_of(l + text::decimal_digits(n) + r) == Some(0u8),
        0 < n <= 255 ==> flag_of(l + text::decimal_digits(n) + r) == Some(1u8),
        n > 255 ==> flag_of(l + text::decimal_digits(n) + r) is None,
        flag_of(l) is None,
{
    let digits = text::decimal_digits(n);
    text::lemma_decimal_round_trip(n);
    assert(text::is_digit(digits[0]));
    assert(text::is_digit(digits[digits.len() - 1]));
    text::lemma_trim(l, digits, r);
    let nothing = Seq::<char>::empty();
    assert(l == l + nothing + nothing);
    text::lemma_trim(l, nothing, nothing);
}

/// The files of the two flags.
pub proof fn lemma_flag_files()
    ensures
        IP_FORWARD_PATH@ == "/proc/sys/net/ipv4/ip_forward"@,
        IP6_FORWARD_PATH@ == "/proc/sys/net/ipv6/conf/all/forwarding"@,
{
}

/// The flag is written to on two occasions only: 1 when the first session finds
/// it down, and 0 when the last session goes that found it down. Each session
/// counts as one.
pub proof fn lemma_flag_writes(f: IpForward, current: u8)
    ensures
        f.written_on_ensure(current) == Some(1u8) <==> f.holders == 0 && current == 0,
        f.written_on_ensure(current) is None <==> f.holders > 0 || current != 0,
        f.written_on_release() == Some(0u8) <==> f.holders == 1 && f.original == 0,
        f.written_on_release() is None <==> f.holders != 1 || f.original != 0,
        f.holders < usize::MAX ==> f.ensured(current).holders == f.holders + 1,
        f.holders > 0 ==> f.released().holders == f.holders - 1,
        f.holders == 0 ==> f.released() == f,
        f.holders > 0 ==> f.ensured(current).original == f.original,
{
}

/// A device is refused exactly when its ends are of two families, or its name
/// takes sixteen bytes or more; the families come first.
pub proof fn lemma_device_errors(name: Seq<char>, proxy: IpAddr, client: IpAddr)
    ensures
        (proxy is V4 <==> client is V6) <==> device_error(name, proxy, client) == Some(
            TunError::FamilyMismatch,
        ),
        (proxy is V4 <==> client is V4) && encode_utf8(name).len() >= 16 <==> device_error(
            name,
            proxy,
            client,
        ) == Some(TunError::NameTooLong),
        (proxy is V4 <==> client is V4) && encode_utf8(name).len() <= 15 <==> device_error(
            name,
            proxy,
            client,
        ) is None,
        NAME_HINT@ == "auto%d"@,
{
}

/// A name ends at its first zero, or with the bytes.
pub proof fn lemma_zero_terminated(name: Seq<u8>, rest: Seq<u8>)
    requires
        !name.contains(0u8),
    ensures
        before_zero(name + seq![0u8] + rest) == name,
        before_zero(name) == name,
    decreases name.len(),
{
    let s = name + seq![0u8] + rest;
    if name.len() > 0 {
        let less = name.drop_first();
        assert(name.contains(name[0]));
        assert forall|i: int| 0 <= i < less.len() implies less[i] != 0 by {
            assert(name.contains(name[i + 1]));
        }
        lemma_zero_terminated(less, rest);
        assert(s.drop_first() == less + seq![0u8] + rest);
        assert(seq![name[0]] + less == name);
    }
}

/// The commands that set a link up, word by word: the interface is brought up,
/// gets its MTU where there is one, and then its addresses. An IPv4 link has the
/// prefix that was handed out, an IPv6 link two single addresses.
pub proof fn lemma_link_words(
    name: Seq<char>,
    proxy: Seq<char>,
    client: Seq<char>,
    prefix: u8,
    mtu: usize,
    v4: bool,
)
    ensures
        ({
            let up = CommandView {
                program: "/usr/sbin/ip"@,
                args: seq!["link"@, "set"@, name, "up"@],
            };
            let size = CommandView {
                program: "/usr/sbin/ip"@,
                args: seq!["link"@, "set"@, name, "mtu"@, text::decimal_digits(mtu as nat)],
            };
            let address = CommandView {
                program: "/usr/sbin/ip"@,
                args: if v4 {
                    seq![
                        "addr"@,
                        "add"@,
                        proxy + "/"@ + text::decimal_digits(prefix as nat),
                        "peer"@,
                        client,
                        "dev"@,
                        name,
                    ]
                } else {
                    seq![
                        "-6"@,
                        "addr"@,
                        "add"@,
                        proxy + "/"@ + text::decimal_digits(128),
                        "peer"@,
                        client + "/"@ + text::decimal_digits(128),
                        "dev"@,
                        name,
                    ]
                },
            };
            &&& link_commands(v4, name, proxy, client, prefix, None) == seq![up, address]
            &&& link_commands(v4, name, proxy, client, prefix, Some(mtu)) == seq![up, size, address]
        }),
{
}

/// The route and the firewall, word by word, for either family.
pub proof fn lemma_route_words(verb: Seq<char>, net: Seq<char>, name: Seq<char>)
    ensures
        route_command(true, verb, net, name) == (CommandView {
            program: "/usr/sbin/ip"@,
            args: seq!["route"@, verb, net, "dev"@, name],
        }),
        route_command(false, verb, net, name) == (CommandView {
            program: "/usr/sbin/ip"@,
            args: seq!["-6"@, "route"@, verb, net, "dev"@, name],
        }),
        firewall(true) == "/usr/sbin/iptables"@,
        firewall(false) == "/usr/sbin/ip6tables"@,
{
}

/// The firewall rules of a client: its traffic is masqueraded on the way out, and
/// forwarded both ways, for its own network only.
pub proof fn lemma_rule_words(client: Seq<char>, prefix: u8)
    ensures
        ({
            let net = client + "/"@ + text::decimal_digits(prefix as nat);
            nat_rules_of(client, prefix) == seq![
                seq!["-t"@, "nat"@, "-A"@, "POSTROUTING"@, "-s"@, net, "-j"@, "MASQUERADE"@],
                seq!["-A"@, "FORWARD"@, "-s"@, net, "-j"@, "ACCEPT"@],
                seq!["-A"@, "FORWARD"@, "-d"@, net, "-j"@, "ACCEPT"@],
            ]
        }),
{
}

/// A setup goes from the link over the route and the forwarding flag to the
/// rules: nothing is forwarded before the route is there, and no rule is added
/// before forwarding is on.
pub proof fn lemma_setup_order(
    v4: bool,
    name: Seq<char>,
    proxy: Seq<char>,
    client: Seq<char>,
    network: Seq<char>,
    prefix: u8,
    mtu: Option<usize>,
)
    ensures
        ({
            let steps = setup_steps(v4, name, proxy, client, network, prefix, mtu);
            let links = link_commands(v4, name, proxy, client, prefix, mtu);
            let rules = nat_rules_of(client, prefix);
            let n = links.len() as int;
            &&& steps.len() == n + 5
            &&& forall|i: int| 0 <= i < n ==> #[trigger] steps[i] == TunStepView::Run(links[i])
            &&& steps[n] == TunStepView::AddRoute(
                route_command(
                    v4,
                    "add"@,
                    network + "/"@ + text::decimal_digits(prefix as nat),
                    name,
                ),
            )
            &&& steps[n + 1] is Forward
            &&& forall|i: int|
                0 <= i < 3 ==> #[trigger] steps[n + 2 + i] == TunStepView::AddRule(
                    CommandView { program: firewall(v4), args: rules[i] },
                )
        }),
{
}

/// A device is taken down in the reverse of its making: the rules first, then the
/// route where there is one, and the interface last.
pub proof fn lemma_teardown_order(
    v4: bool,
    name: Seq<char>,
    rules: Seq<Seq<Seq<char>>>,
    net: Seq<char>,
)
    ensures
        ({
            let n = rules.len() as int;
            let with = teardown_commands(v4, name, rules, Some(net));
            let without = teardown_commands(v4, name, rules, None);
            let link = CommandView { program: "/usr/sbin/ip"@, args: seq!["link"@, "del"@, name] };
            &&& with.len() == n + 2
            &&& without.len() == n + 1
            &&& forall|i: int|
                0 <= i < n ==> #[trigger] with[i] == (CommandView {
                    program: firewall(v4),
                    args: deletion_of(rules[i]),
                })
            &&& with[n] == route_command(v4, "del"@, net, name)
            &&& with[n + 1] == link
            &&& without == with.take(n).push(link)
        }),
{
    let n = rules.len() as int;
    let with = teardown_commands(v4, name, rules, Some(net));
    assert(firewall_commands(v4, deletions(rules)) == with.take(n));
}

/// A device is taken down by what its setup had done, however far it had come:
/// nothing before there is an interface, then the interface, then the route as
/// well, then the rules that were added and no others. It holds the forwarding
/// flag from the step behind the route on.
pub proof fn lemma_undo(
    device: TunDeviceView,
    proxy: Seq<char>,
    client: Seq<char>,
    network: Seq<char>,
)
    requires
        device.wf(),
        device.open,
        device.steps == setup_steps(
            device.v4(),
            device.name,
            proxy,
            client,
            network,
            device.prefix,
            device.mtu,
        ),
    ensures
        ({
            let links: nat = if device.mtu is Some {
                3
            } else {
                2
            };
            let rules = nat_rules_of(client, device.prefix);
            let added: int = if device.done <= links + 1 {
                0
            } else {
                device.done - links - 2
            };
            &&& device.done <= links ==> device.undo() == teardown_commands(
                device.v4(),
                device.name,
                Seq::empty(),
                None,
            )
            &&& device.done > links ==> device.undo() == teardown_commands(
                device.v4(),
                device.name,
                rules.take(added),
                Some(device.net),
            )
            &&& device.forwards() <==> device.done >= links + 2
        }),
{
    lemma_added_so_far(
        device.v4(),
        device.name,
        proxy,
        client,
        network,
        device.prefix,
        device.mtu,
        device.done as int,
    );
    assert(nat_rules_of(client, device.prefix).take(0) == Seq::<Seq<Seq<char>>>::empty());
}

/// Where there is no interface there is nothing to take down and nothing is held.
pub proof fn lemma_undo_closed(device: TunDeviceView)
    requires
        device.wf(),
        !device.open,
    ensures
        device.undo().len() == 0,
        !device.forwards(),
        device.v4() <==> device.client is V4,
{
}

/// Only the word `-A` of a rule becomes `-D`; every other word stays, and so does
/// their number.
pub proof fn lemma_deletion(rule: Seq<Seq<char>>, i: int)
    requires
        0 <= i < rule.len(),
    ensures
        deletion_of(rule).len() == rule.len(),
        rule[i] == "-A"@ ==> deletion_of(rule)[i] == "-D"@,
        rule[i] != "-A"@ ==> deletion_of(rule)[i] == rule[i],
{
}

} // verus!
