//! Big-endian numbers as byte sequences.
use vstd::prelude::*;

verus! {

/// 256 to the power `k`.
pub open spec fn pow256(k: nat) -> nat
    decreases k,
{
    if k == 0 {
        1
    } else {
        256 * pow256((k - 1) as nat)
    }
}

/// The number that the bytes of `s` denote, most significant byte first.
pub open spec fn value(s: Seq<u8>) -> nat
    decreases s.len(),
{
    if s.len() == 0 {
        0
    } else {
        value(s.drop_last()) * 256 + s.last() as nat
    }
}

/// The low `len` bytes of `n`, most significant byte first.
pub open spec fn bytes(n: nat, len: nat) -> Seq<u8>
    decreases len,
{
    if len == 0 {
        Seq::empty()
    } else {
        bytes(n / 256, (len - 1) as nat).push((n % 256) as u8)
    }
}

/// `len` bytes denote a number below `256^len`.
pub proof fn lemma_be_value_bound(s: Seq<u8>)
    ensures
        value(s) < pow256(s.len()),
    decreases s.len(),
{
    if s.len() > 0 {
        lemma_be_value_bound(s.drop_last());
    }
}

/// `bytes` has the length it was asked for.
pub proof fn lemma_be_bytes_len(n: nat, len: nat)
    ensures
        bytes(n, len).len() == len,
    decreases len,
{
    if len > 0 {
        lemma_be_bytes_len(n / 256, (len - 1) as nat);
    }
}

/// Reading back a number that fits gives the number.
pub proof fn lemma_be_round_trip(n: nat, len: nat)
    requires
        n < pow256(len),
    ensures
        value(bytes(n, len)) == n,
        bytes(n, len).len() == len,
    decreases len,
{
    lemma_be_bytes_len(n, len);
    if len > 0 {
        lemma_be_round_trip(n / 256, (len - 1) as nat);
        assert(bytes(n, len).drop_last() == bytes(n / 256, (len - 1) as nat));
    }
}

/// Writing the number that some bytes denote gives those bytes.
pub proof fn lemma_be_value_round_trip(s: Seq<u8>)
    ensures
        bytes(value(s), s.len()) == s,
    decreases s.len(),
{
    if s.len() > 0 {
        lemma_be_value_round_trip(s.drop_last());
        assert(value(s) / 256 == value(s.drop_last()));
        assert(value(s) % 256 == s.last() as nat);
        assert(s.drop_last().push(s.last()) == s);
    }
}

/// The powers of 256 that the wire formats use.
pub proof fn lemma_pow256_values()
    ensures
        pow256(0) == 1,
        pow256(1) == 0x100,
        pow256(2) == 0x1_0000,
        pow256(3) == 0x100_0000,
        pow256(4) == 0x1_0000_0000,
        pow256(7) == 0x100_0000_0000_0000,
        pow256(8) == 0x1_0000_0000_0000_0000,
        pow256(16) == 0x1_0000_0000_0000_0000_0000_0000_0000_0000,
{
    reveal_with_fuel(pow256, 17);
}

/// A larger exponent gives a larger power.
pub proof fn lemma_pow256_grows(a: nat, b: nat)
    requires
        a <= b,
    ensures
        pow256(a) <= pow256(b),
    decreases b,
{
    if a < b {
        lemma_pow256_grows(a, (b - 1) as nat);
    }
}

/// Adding `m * 256^(len-1)` adds `m` to the first byte and changes no other.
pub proof fn lemma_be_add_top(n: nat, m: nat, len: nat)
    requires
        len >= 1,
        n < pow256(len),
        bytes(n, len)[0] as nat + m < 256,
    ensures
        bytes(n + m * pow256((len - 1) as nat), len) == bytes(n, len).update(
            0,
            (bytes(n, len)[0] as nat + m) as u8,
        ),
    decreases len,
{
    lemma_be_bytes_len(n, len);
    if len == 1 {
        assert(pow256(0) == 1);
        assert(pow256(1) == 256 * pow256(0));
        let l0: nat = 0;
        assert(bytes(n / 256, l0) == Seq::<u8>::empty());
        assert(bytes(n, 1) == seq![n as u8]);
        assert(m * pow256(0) == m);
        assert(bytes((n + m) / 256, l0) == Seq::<u8>::empty());
        assert(bytes(n + m, 1) == seq![((n + m) % 256) as u8]);
    } else {
        let l1 = (len - 1) as nat;
        let q = pow256((len - 2) as nat);
        let x = m * q;
        assert(pow256(l1) == 256 * q);
        assert(m * pow256(l1) == 256 * x) by (nonlinear_arith)
            requires
                pow256(l1) == 256 * q,
                x == m * q,
        ;
        assert((n + 256 * x) / 256 == n / 256 + x);
        assert((n + 256 * x) % 256 == n % 256);
        lemma_be_bytes_len(n / 256, l1);
        assert(bytes(n, len)[0] == bytes(n / 256, l1)[0]);
        lemma_be_add_top(n / 256, m, l1);
    }
}

/// The first byte of `bytes(n, len)` is small when `n` is.
pub proof fn lemma_be_first_byte(n: nat, len: nat, bound: nat)
    requires
        len >= 1,
        bound <= 256,
        n < bound * pow256((len - 1) as nat),
    ensures
        bytes(n, len).len() == len,
        bytes(n, len)[0] < bound,
    decreases len,
{
    lemma_be_bytes_len(n, len);
    if len == 1 {
        assert(pow256(0) == 1);
        let l0: nat = 0;
        assert(bytes(n / 256, l0) == Seq::<u8>::empty());
        assert(n < bound) by (nonlinear_arith)
            requires
                n < bound * pow256(0),
                pow256(0) == 1,
        ;
    } else {
        let l1 = (len - 1) as nat;
        let q = pow256((len - 2) as nat);
        let x = bound * q;
        assert(pow256(l1) == 256 * q);
        assert(bound * pow256(l1) == 256 * x) by (nonlinear_arith)
            requires
                pow256(l1) == 256 * q,
                x == bound * q,
        ;
        lemma_be_first_byte(n / 256, l1, bound);
        assert(bytes(n, len)[0] == bytes(n / 256, l1)[0]);
    }
}

/// The bytes denote a small number when the first of them is small.
pub proof fn lemma_be_value_top(s: Seq<u8>, bound: nat)
    requires
        s.len() >= 1,
        s[0] < bound,
    ensures
        value(s) < bound * pow256((s.len() - 1) as nat),
    decreases s.len(),
{
    let front = s.drop_last();
    if s.len() == 1 {
        assert(front == Seq::<u8>::empty());
        assert(value(front) == 0);
        assert(pow256(0) == 1);
        assert(bound * pow256(0) == bound) by (nonlinear_arith)
            requires
                pow256(0) == 1,
        ;
    } else {
        lemma_be_value_top(front, bound);
        let q = pow256((s.len() - 2) as nat);
        assert(pow256((s.len() - 1) as nat) == 256 * q);
        assert(bound * (256 * q) == 256 * (bound * q)) by (nonlinear_arith);
    }
}

/// Reads up to sixteen bytes as a number, most significant byte first.
pub fn read_be(raw: &[u8]) -> (r: u128)
    requires
        raw@.len() <= 16,
    ensures
        r == value(raw@),
{
    let n: usize = raw.len();
    let mut acc: u128 = 0;
    assert(raw@.take(0) == Seq::<u8>::empty());
    for i in 0..n
        invariant
            n == raw@.len(),
            n <= 16,
            acc == value(raw@.take(i as int)),
    {
        let ghost longer = raw@.take(i + 1);
        assert(longer.drop_last() == raw@.take(i as int));
        proof {
            lemma_be_value_bound(longer);
            lemma_pow256_grows((i + 1) as nat, 16);
            lemma_pow256_values();
        }
        acc = acc * 256 + raw[i] as u128;
    }
    assert(raw@.take(n as int) == raw@);
    acc
}

/// Writes the low `len` bytes of `n`, most significant byte first.
pub fn write_be(n: u128, len: usize) -> (r: Vec<u8>)
    ensures
        r@ == bytes(n as nat, len as nat),
    decreases len,
{
    if len == 0 {
        Vec::new()
    } else {
        let mut v = write_be(n / 256, len - 1);
        v.push((n % 256) as u8);
        v
    }
}

// ---------------------------------------------------------------------------
// Laws of the byte order
// ---------------------------------------------------------------------------

/// One byte is the number modulo 256.
pub proof fn lemma_be_one(n: nat)
    ensures
        bytes(n, 1) == seq![(n % 0x100) as u8],
{
    reveal_with_fuel(bytes, 2);
}

/// Two bytes: the higher one first.
pub proof fn lemma_be_two(n: nat)
    ensures
        bytes(n, 2) == seq![((n / 0x100) % 0x100) as u8, (n % 0x100) as u8],
{
    reveal_with_fuel(bytes, 3);
}

/// Four bytes: the highest one first.
pub proof fn lemma_be_four(n: nat)
    ensures
        bytes(n, 4) == seq![
            ((n / 0x100_0000) % 0x100) as u8,
            ((n / 0x1_0000) % 0x100) as u8,
            ((n / 0x100) % 0x100) as u8,
            (n % 0x100) as u8,
        ],
{
    reveal_with_fuel(bytes, 5);
}

/// Eight bytes: the highest one first.
pub proof fn lemma_be_eight(n: nat)
    ensures
        bytes(n, 8) == seq![
            ((n / 0x100_0000_0000_0000) % 0x100) as u8,
            ((n / 0x1_0000_0000_0000) % 0x100) as u8,
            ((n / 0x100_0000_0000) % 0x100) as u8,
            ((n / 0x1_0000_0000) % 0x100) as u8,
            ((n / 0x100_0000) % 0x100) as u8,
            ((n / 0x1_0000) % 0x100) as u8,
            ((n / 0x100) % 0x100) as u8,
            (n % 0x100) as u8,
        ],
{
    lemma_be_four(n / 0x1_0000_0000);
    assert(bytes(n, 8) == bytes(n / 0x1_0000_0000, 4) + bytes(n, 4)) by {
        reveal_with_fuel(bytes, 5);
    }
    lemma_be_four(n);
}

/// What two and four bytes denote: each counts 256 times the one behind it.
pub proof fn lemma_be_weights(a: u8, b: u8, c: u8, d: u8)
    ensures
        value(seq![a, b]) == a * 0x100 + b,
        value(seq![a, b, c, d]) == a * 0x100_0000 + b * 0x1_0000 + c * 0x100 + d,
{
    let one = seq![a];
    let two = seq![a, b];
    let three = seq![a, b, c];
    let four = seq![a, b, c, d];
    assert(one.drop_last() == Seq::<u8>::empty());
    assert(two.drop_last() == one);
    assert(three.drop_last() == two);
    assert(four.drop_last() == three);
    assert(value(Seq::<u8>::empty()) == 0);
    assert(value(one) == a);
    assert(value(two) == a * 0x100 + b);
    assert(value(three) == value(two) * 0x100 + c);
    assert(value(four) == value(three) * 0x100 + d);
}

/// What stands in front counts 256 times for each byte behind it.
pub proof fn lemma_be_concat(front: Seq<u8>, back: Seq<u8>)
    ensures
        value(front + back) == value(front) * pow256(back.len()) + value(back),
    decreases back.len(),
{
    if back.len() == 0 {
        assert(front + back == front);
        let a = value(front);
        let p = pow256(0);
        assert(a * p == a) by (nonlinear_arith)
            requires
                p == 1,
        ;
    } else {
        let less = back.drop_last();
        lemma_be_concat(front, less);
        assert((front + back).drop_last() == front + less);
        assert((front + back).last() == back.last());
        let a = value(front);
        let p = pow256(less.len());
        assert(pow256(back.len()) == 256 * p);
        assert((a * p + value(less)) * 256 == a * (256 * p) + value(less) * 256)
            by (nonlinear_arith);
    }
}

} // verus!
