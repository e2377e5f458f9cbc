use vstd::prelude::*;

use byteorder::{BigEndian, ByteOrder};

verus! {

/// 256 to the power `k`.
pub open spec fn pow256(k: nat) -> nat
    decreases k,
{
    if k == 0 {
        1
    } else {
        256 * pow256((k - 1) as nat)
    }
}

/// The low `k` bytes of `v`, most significant first.
pub open spec fn be_bytes(v: nat, k: nat) -> Seq<u8>
    decreases k,
{
    if k == 0 {
        Seq::empty()
    } else {
        be_bytes(v / 256, (k - 1) as nat).push((v % 256) as u8)
    }
}

/// The number that the bytes `b` spell, most significant first.
pub open spec fn be_value(b: Seq<u8>) -> nat
    decreases b.len(),
{
    if b.len() == 0 {
        0
    } else {
        (be_value(b.drop_last()) * 256 + b.last()) as nat
    }
}

/// Reading back the `k` bytes of a number below 256^k gives that number.
pub proof fn lemma_be_round_trip(v: nat, k: nat)
    requires
        v < pow256(k),
    ensures
        be_bytes(v, k).len() == k,
        be_value(be_bytes(v, k)) == v,
    decreases k,
{
    if k > 0 {
        assert(v / 256 < pow256((k - 1) as nat)) by (nonlinear_arith)
            requires
                v < pow256(k),
                pow256(k) == 256 * pow256((k - 1) as nat),
        ;
        lemma_be_round_trip(v / 256, (k - 1) as nat);
        let b = be_bytes(v, k);
        assert(b.drop_last() =~= be_bytes(v / 256, (k - 1) as nat));
        assert((v / 256) * 256 + v % 256 == v) by (nonlinear_arith);
    } else {
        assert(v == 0);
    }
}

pub proof fn lemma_pow256_values()
    ensures
        pow256(4) == 0x1_0000_0000,
        pow256(8) == 0x1_0000_0000_0000_0000,
{
    reveal_with_fuel(pow256, 9);
}

/// Relies on byteorder's `BigEndian::write_u32`: the four bytes of `v`,
/// most significant first.
#[verifier::external_body]
pub(crate) fn u32_to_be(v: u32) -> (r: Vec<u8>)
    ensures
        r@ == be_bytes(v as nat, 4),
{
    let mut b = vec![0u8; 4];
    BigEndian::write_u32(&mut b, v);
    b
}

/// Relies on byteorder's `BigEndian::read_u32`: the number spelled by the
/// four bytes at `pos`, most significant first.
#[verifier::external_body]
pub(crate) fn u32_from_be(buf: &[u8], pos: usize) -> (r: u32)
    requires
        pos + 4 <= buf@.len(),
    ensures
        r as nat == be_value(buf@.subrange(pos as int, pos + 4)),
{
    BigEndian::read_u32(&buf[pos..pos + 4])
}

/// Relies on byteorder's `BigEndian::write_u64`: the eight bytes of `v`,
/// most significant first.
#[verifier::external_body]
pub(crate) fn u64_to_be(v: u64) -> (r: Vec<u8>)
    ensures
        r@ == be_bytes(v as nat, 8),
{
    let mut b = vec![0u8; 8];
    BigEndian::write_u64(&mut b, v);
    b
}

/// Relies on byteorder's `BigEndian::read_u64`: the number spelled by the
/// eight bytes at `pos`, most significant first.
#[verifier::external_body]
pub(crate) fn u64_from_be(buf: &[u8], pos: usize) -> (r: u64)
    requires
        pos + 8 <= buf@.len(),
    ensures
        r as nat == be_value(buf@.subrange(pos as int, pos + 8)),
{
    BigEndian::read_u64(&buf[pos..pos + 8])
}

/// Appends every byte of `bytes` to `out`, in order.
pub fn append_bytes(out: &mut Vec<u8>, bytes: &[u8])
    ensures
        final(out)@ == old(out)@ + bytes@,
{
    let ghost start = out@;
    let mut i: usize = 0;
    while i < bytes.len()
        invariant
            i <= bytes@.len(),
            out@ == start + bytes@.subrange(0, i as int),
        decreases bytes@.len() - i,
    {
        out.push(bytes[i]);
        i = i + 1;
        assert(out@ =~= start + bytes@.subrange(0, i as int));
    }
    assert(bytes@.subrange(0, i as int) =~= bytes@);
}

/// Copies the bytes from `start` up to `end`.
pub fn copy_range(buf: &[u8], start: usize, end: usize) -> (r: Vec<u8>)
    requires
        start <= end <= buf@.len(),
    ensures
        r@ == buf@.subrange(start as int, end as int),
{
    let mut r: Vec<u8> = Vec::new();
    let mut i: usize = start;
    while i < end
        invariant
            start <= i <= end <= buf@.len(),
            r@ == buf@.subrange(start as int, i as int),
        decreases end - i,
    {
        r.push(buf[i]);
        i = i + 1;
        assert(r@ =~= buf@.subrange(start as int, i as int));
    }
    r
}

} // verus!
