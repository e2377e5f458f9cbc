use vstd::arithmetic::div_mod::lemma_small_mod;
use vstd::prelude::*;

use crate::error::CodecError;

verus! {

/// 2^32, the number of 32-bit patterns.
pub open spec fn two_pow_32() -> int {
    0x1_0000_0000
}

/// The unsigned 32-bit pattern of a signed integer (two's complement).
pub open spec fn i32_bits(n: i32) -> nat {
    if n >= 0 {
        n as nat
    } else {
        (n + two_pow_32()) as nat
    }
}

/// The signed integer whose two's-complement pattern is the low 32 bits of `v`.
pub open spec fn i32_of_bits(v: nat) -> i32 {
    let w = v % (two_pow_32() as nat);
    if w < 0x8000_0000 {
        w as i32
    } else {
        (w - two_pow_32()) as i32
    }
}

/// 128 to the power `k`.
pub open spec fn pow128(k: nat) -> nat
    decreases k,
{
    if k == 0 {
        1
    } else {
        128 * pow128((k - 1) as nat)
    }
}

/// The base-128 digits of `u`, least significant first, each byte but the
/// last carrying the continuation bit.
pub open spec fn varint_digits(u: nat) -> Seq<u8>
    decreases u,
{
    if u < 128 {
        seq![u as u8]
    } else {
        seq![(u % 128 + 128) as u8] + varint_digits(u / 128)
    }
}

/// The wire form of a variable-length integer.
pub open spec fn varint_bytes(n: i32) -> Seq<u8> {
    varint_digits(i32_bits(n))
}

/// Reads base-128 digits from the front of `s`, at most `fuel` bytes:
/// the value read and the number of bytes it took.
pub open spec fn parse_varint_digits(s: Seq<u8>, fuel: nat) -> Result<(nat, nat), CodecError>
    decreases fuel,
{
    if fuel == 0 {
        Err(CodecError::MalformedVarInt)
    } else if s.len() == 0 {
        Err(CodecError::Truncated)
    } else if s[0] < 128 {
        Ok((s[0] as nat, 1))
    } else {
        match parse_varint_digits(s.drop_first(), (fuel - 1) as nat) {
            Ok((v, n)) => Ok((((s[0] - 128) + 128 * v) as nat, n + 1)),
            Err(e) => Err(e),
        }
    }
}

/// Reads a variable-length integer from the front of `s`: its value and
/// the number of bytes it took.
pub open spec fn parse_varint(s: Seq<u8>) -> Result<(i32, nat), CodecError> {
    match parse_varint_digits(s, 5) {
        Ok((v, n)) => Ok((i32_of_bits(v), n)),
        Err(e) => Err(e),
    }
}

proof fn lemma_pow128_values()
    ensures
        pow128(0) == 1,
        pow128(1) == 128,
        pow128(2) == 16384,
        pow128(3) == 2097152,
        pow128(4) == 268435456,
        pow128(5) == 34359738368,
{
    reveal_with_fuel(pow128, 6);
}

proof fn lemma_parse_digits_bound(s: Seq<u8>, fuel: nat)
    ensures
        parse_varint_digits(s, fuel) matches Ok((v, n)) ==> v < pow128(n) && 1 <= n <= fuel,
    decreases fuel,
{
    lemma_pow128_values();
    if fuel > 0 && s.len() > 0 && s[0] >= 128 {
        lemma_parse_digits_bound(s.drop_first(), (fuel - 1) as nat);
        if let Ok((v, n)) = parse_varint_digits(s.drop_first(), (fuel - 1) as nat) {
            assert(pow128(n + 1) == 128 * pow128(n));
            assert((s[0] - 128) + 128 * v < 128 * pow128(n)) by (nonlinear_arith)
                requires
                    s[0] - 128 < 128,
                    v < pow128(n),
            ;
        }
    }
}

proof fn lemma_digits_shape(u: nat, k: nat)
    requires
        u < pow128(k),
        k >= 1,
    ensures
        1 <= varint_digits(u).len() <= k,
        u >= 1 ==> varint_digits(u).last() != 0,
    decreases u,
{
    if u >= 128 {
        assert(u / 128 < pow128((k - 1) as nat)) by (nonlinear_arith)
            requires
                u < pow128(k),
                pow128(k) == 128 * pow128((k - 1) as nat),
        ;
        if k == 1 {
            assert(pow128(1) == 128) by {
                lemma_pow128_values();
            }
        }
        lemma_digits_shape(u / 128, (k - 1) as nat);
        let d = varint_digits(u);
        let t = varint_digits(u / 128);
        assert(d =~= seq![(u % 128 + 128) as u8] + t);
        assert(d.last() == t.last());
    }
}

proof fn lemma_parse_digits_round_trip(u: nat, fuel: nat, rest: Seq<u8>)
    requires
        u < pow128(fuel),
        fuel >= 1,
    ensures
        parse_varint_digits(varint_digits(u) + rest, fuel) == Ok::<(nat, nat), CodecError>(
            (u, varint_digits(u).len()),
        ),
    decreases u,
{
    let s = varint_digits(u) + rest;
    if u >= 128 {
        if fuel == 1 {
            assert(pow128(1) == 128) by {
                lemma_pow128_values();
            }
        }
        assert(u / 128 < pow128((fuel - 1) as nat)) by (nonlinear_arith)
            requires
                u < pow128(fuel),
                pow128(fuel) == 128 * pow128((fuel - 1) as nat),
        ;
        lemma_parse_digits_round_trip(u / 128, (fuel - 1) as nat, rest);
        assert(s.drop_first() =~= varint_digits(u / 128) + rest);
        assert(s[0] == (u % 128 + 128) as u8);
        assert(u % 128 + 128 * (u / 128) == u) by (nonlinear_arith);
    } else {
        assert(s[0] == u as u8);
    }
}

/// A variable-length integer: a signed 32-bit value written in one to five
/// bytes, seven bits per byte, least significant group first.
#[derive(Clone, Copy, Debug, PartialEq, Eq, Structural)]
pub struct VarInt(pub i32);

/// Decoding the encoding of any 32-bit integer gives back that integer and
/// consumes exactly the bytes that were written.
pub proof fn lemma_varint_round_trip(n: i32, rest: Seq<u8>)
    ensures
        parse_varint(varint_bytes(n) + rest) == Ok::<(i32, nat), CodecError>(
            (n, varint_bytes(n).len()),
        ),
{
    lemma_pow128_values();
    lemma_parse_digits_round_trip(i32_bits(n), 5, rest);
    assert(i32_bits(n) < two_pow_32());
    assert(i32_bits(n) % (two_pow_32() as nat) == i32_bits(n));
}

/// The encoding of any 32-bit integer is at most five bytes long and has no
/// superfluous trailing zero group.
pub proof fn lemma_varint_minimal(n: i32)
    ensures
        1 <= varint_bytes(n).len() <= 5,
        varint_bytes(n).len() > 1 ==> varint_bytes(n).last() != 0,
{
    lemma_pow128_values();
    lemma_digits_shape(i32_bits(n), 5);
}

fn read_digits(buf: &[u8], pos: usize, fuel: usize) -> (r: Result<(u64, usize), CodecError>)
    requires
        pos <= buf@.len(),
        fuel <= 5,
    ensures
        match r {
            Ok((v, end)) => pos < end <= buf@.len() && parse_varint_digits(buf@.skip(pos as int), fuel as nat)
                == Ok::<(nat, nat), CodecError>((v as nat, (end - pos) as nat)),
            Err(e) => parse_varint_digits(buf@.skip(pos as int), fuel as nat) == Err::<(nat, nat), CodecError>(e),
        },
    decreases fuel,
{
    if fuel == 0 {
        return Err(CodecError::MalformedVarInt);
    }
    if pos >= buf.len() {
        return Err(CodecError::Truncated);
    }
    let b = buf[pos];
    if b < 128 {
        return Ok((b as u64, pos + 1));
    }
    let ghost s = buf@.skip(pos as int);
    assert(s.drop_first() =~= buf@.skip(pos + 1));
    match read_digits(buf, pos + 1, fuel - 1) {
        Ok((v, end)) => {
            proof {
                lemma_parse_digits_bound(s.drop_first(), (fuel - 1) as nat);
                lemma_pow128_values();
                let n = (end - pos - 1) as nat;
                assert(pow128(n) <= pow128(4)) by {
                    assert(n <= 4);
                    reveal_with_fuel(pow128, 6);
                }
            }
            Ok(((b - 128) as u64 + 128 * v, end))
        },
        Err(e) => Err(e),
    }
}

impl VarInt {
    /// Appends the encoding of this integer to `out`.
    pub fn encode(&self, out: &mut Vec<u8>)
        ensures
            final(out)@ == old(out)@ + varint_bytes(self.0),
    {
        let ghost start = out@;
        let mut u: u32 = if self.0 >= 0 {
            self.0 as u32
        } else {
            (self.0 as i64 + 0x1_0000_0000i64) as u32
        };
        while u >= 128
            invariant
                out@ + varint_digits(u as nat) == start + varint_bytes(self.0),
            decreases u,
        {
            let ghost prev = out@;
            out.push((u % 128 + 128) as u8);
            assert(out@ + varint_digits((u / 128) as nat) =~= prev + varint_digits(u as nat));
            u = u / 128;
        }
        out.push(u as u8);
        assert(out@ =~= start + varint_bytes(self.0));
    }

    /// The number of bytes that `encode` writes.
    pub fn encoded_len(&self) -> (r: usize)
        ensures
            r == varint_bytes(self.0).len(),
    {
        let mut u: u32 = if self.0 >= 0 {
            self.0 as u32
        } else {
            (self.0 as i64 + 0x1_0000_0000i64) as u32
        };
        let mut len: usize = 1;
        proof {
            lemma_pow128_values();
            lemma_digits_shape(u as nat, 5);
        }
        while u >= 128
            invariant
                len + varint_digits(u as nat).len() == varint_bytes(self.0).len() + 1,
                varint_bytes(self.0).len() <= 5,
                len >= 1,
            decreases u,
        {
            len = len + 1;
            u = u / 128;
        }
        len
    }

    /// Reads a variable-length integer that starts at `pos`; on success,
    /// returns it with the position just past it.
    pub fn decode(buf: &[u8], pos: usize) -> (r: Result<(VarInt, usize), CodecError>)
        requires
            pos <= buf@.len(),
        ensures
            match r {
                Ok((v, end)) => pos < end <= buf@.len() && parse_varint(buf@.skip(pos as int))
                    == Ok::<(i32, nat), CodecError>((v.0, (end - pos) as nat)),
                Err(e) => parse_varint(buf@.skip(pos as int)) == Err::<(i32, nat), CodecError>(e),
            },
    {
        match read_digits(buf, pos, 5) {
            Ok((v, end)) => {
                let w: u64 = v % 0x1_0000_0000;
                let n: i32 = if w < 0x8000_0000 {
                    w as i32
                } else {
                    (w as i64 - 0x1_0000_0000i64) as i32
                };
                Ok((VarInt(n), end))
            },
            Err(e) => Err(e),
        }
    }
}

} // verus!

verus! {

/// Reading a signed integer back from its 32-bit pattern gives that integer.
pub proof fn lemma_i32_bits_round_trip(n: i32)
    ensures
        i32_bits(n) < two_pow_32(),
        i32_of_bits(i32_bits(n)) == n,
{
    lemma_small_mod(i32_bits(n), two_pow_32() as nat);
}

/// The 32-bit two's-complement pattern of `n`.
pub fn i32_to_bits(n: i32) -> (r: u32)
    ensures
        r as nat == i32_bits(n),
{
    if n >= 0 {
        n as u32
    } else {
        (n as i64 + 0x1_0000_0000i64) as u32
    }
}

/// The signed integer whose two's-complement pattern is `u`.
pub fn i32_from_bits(u: u32) -> (r: i32)
    ensures
        r == i32_of_bits(u as nat),
{
    proof {
        lemma_small_mod(u as nat, two_pow_32() as nat);
    }
    if u < 0x8000_0000 {
        u as i32
    } else {
        (u as i64 - 0x1_0000_0000i64) as i32
    }
}

} // verus!
