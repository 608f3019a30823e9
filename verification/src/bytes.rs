//! Numbers as big-endian bytes, through `byteorder`.
use vstd::prelude::*;
use vstd::arithmetic::power::pow;
use byteorder::ByteOrder;

verus! {

/// The number that big-endian bytes stand for.
pub open spec fn be_value(b: Seq<u8>) -> nat
    decreases b.len(),
{
    if b.len() == 0 {
        0
    } else {
        (be_value(b.drop_last()) * 256 + b.last()) as nat
    }
}

/// The last `k` bytes of `n` in big-endian order (all of `n` when
/// `n < 256^k`).
pub open spec fn be_bytes(n: nat, k: nat) -> Seq<u8>
    decreases k,
{
    if k == 0 {
        seq![]
    } else {
        be_bytes(n / 256, (k - 1) as nat).push((n % 256) as u8)
    }
}

/// Reading back the bytes of a number gives the number modulo `256^k`.
pub proof fn lemma_be_round_trip(n: nat, k: nat)
    ensures
        be_bytes(n, k).len() == k,
        be_value(be_bytes(n, k)) == n % pow(256, k) as nat,
    decreases k,
{
    reveal(pow);
    vstd::arithmetic::power::lemma_pow_positive(256, k);
    if k > 0 {
        lemma_be_round_trip(n / 256, (k - 1) as nat);
        let b = be_bytes(n, k);
        assert(b.drop_last() =~= be_bytes(n / 256, (k - 1) as nat));
        vstd::arithmetic::power::lemma_pow_positive(256, (k - 1) as nat);
        vstd::arithmetic::div_mod::lemma_mod_breakdown(n as int, 256, pow(256, (k - 1) as nat));
        assert(pow(256, k) == 256 * pow(256, (k - 1) as nat));
    } else {
        assert(pow(256, 0) == 1);
    }
}

/// Eight bytes hold 2^64 values, sixteen hold 2^128.
pub proof fn lemma_pow256()
    ensures
        pow(256, 8) == 0x1_0000_0000_0000_0000,
        pow(256, 16) == 0x1_0000_0000_0000_0000_0000_0000_0000_0000,
{
    reveal(pow);
    assert(pow(256, 0) == 1);
    assert(pow(256, 1) == 0x100);
    assert(pow(256, 2) == 0x1_0000);
    assert(pow(256, 3) == 0x100_0000);
    assert(pow(256, 4) == 0x1_0000_0000);
    assert(pow(256, 5) == 0x100_0000_0000);
    assert(pow(256, 6) == 0x1_0000_0000_0000);
    assert(pow(256, 7) == 0x100_0000_0000_0000);
    assert(pow(256, 8) == 0x1_0000_0000_0000_0000);
    assert(pow(256, 9) == 0x100_0000_0000_0000_0000);
    assert(pow(256, 10) == 0x1_0000_0000_0000_0000_0000);
    assert(pow(256, 11) == 0x100_0000_0000_0000_0000_0000);
    assert(pow(256, 12) == 0x1_0000_0000_0000_0000_0000_0000);
    assert(pow(256, 13) == 0x100_0000_0000_0000_0000_0000_0000);
    assert(pow(256, 14) == 0x1_0000_0000_0000_0000_0000_0000_0000);
    assert(pow(256, 15) == 0x100_0000_0000_0000_0000_0000_0000_0000);
    assert(pow(256, 16) == 0x1_0000_0000_0000_0000_0000_0000_0000_0000);
}

/// The eight big-endian bytes of `n`, as `byteorder::BigEndian::write_u64`
/// writes them.
#[verifier::external_body]
pub(crate) fn write_u64_be(n: u64) -> (r: Vec<u8>)
    ensures
        r@ == be_bytes(n as nat, 8),
{
    let mut buf = [0u8; 8];
    byteorder::BigEndian::write_u64(&mut buf, n);
    buf.to_vec()
}

/// The number that the first eight bytes of `b` stand for in big-endian
/// order, as `byteorder::BigEndian::read_u64` reads it (it panics on fewer
/// than eight bytes).
#[verifier::external_body]
pub(crate) fn read_u64_be(b: &[u8]) -> (r: u64)
    requires
        b@.len() >= 8,
    ensures
        r as nat == be_value(b@.take(8)),
{
    byteorder::BigEndian::read_u64(b)
}

/// The sixteen big-endian bytes of `n`, as
/// `byteorder::BigEndian::write_u128` writes them.
#[verifier::external_body]
pub(crate) fn write_u128_be(n: u128) -> (r: Vec<u8>)
    ensures
        r@ == be_bytes(n as nat, 16),
{
    let mut buf = [0u8; 16];
    byteorder::BigEndian::write_u128(&mut buf, n);
    buf.to_vec()
}

/// The number that the first sixteen bytes of `b` stand for in big-endian
/// order, as `byteorder::BigEndian::read_u128` reads it (it panics on fewer
/// than sixteen bytes).
#[verifier::external_body]
pub(crate) fn read_u128_be(b: &[u8]) -> (r: u128)
    requires
        b@.len() >= 16,
    ensures
        r as nat == be_value(b@.take(16)),
{
    byteorder::BigEndian::read_u128(b)
}

} // verus!
