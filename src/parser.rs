use vstd::arithmetic::div_mod::lemma_small_mod;
use vstd::prelude::*;

use crate::bytes::{
    append_bytes, be_bytes, be_value, lemma_be_round_trip, lemma_pow256_values, pow256, u32_from_be,
    u32_to_be, u64_from_be, u64_to_be,
};
use crate::error::CodecError;
use crate::varint::{i32_bits, i32_from_bits, i32_of_bits, i32_to_bits, lemma_i32_bits_round_trip};

verus! {

/// 2^64, the number of 64-bit patterns.
pub open spec fn two_pow_64() -> int {
    0x1_0000_0000_0000_0000
}

/// The unsigned 64-bit pattern of a signed integer (two's complement).
pub open spec fn i64_bits(n: i64) -> nat {
    if n >= 0 {
        n as nat
    } else {
        (n + two_pow_64()) as nat
    }
}

/// The signed integer whose two's-complement pattern is the low 64 bits of `v`.
pub open spec fn i64_of_bits(v: nat) -> i64 {
    let w = v % (two_pow_64() as nat);
    if w < 0x8000_0000_0000_0000 {
        w as i64
    } else {
        (w - two_pow_64()) as i64
    }
}

/// The flags byte of a range: bit 0 for a minimum, bit 1 for a maximum.
pub open spec fn range_flags(has_min: bool, has_max: bool) -> u8 {
    ((if has_min { 1int } else { 0int }) + (if has_max { 2int } else { 0int })) as u8
}

/// The bytes of an optional fixed-width field: nothing when absent.
pub open spec fn opt_field_bytes(v: Option<nat>, width: nat) -> Seq<u8> {
    match v {
        Some(x) => be_bytes(x, width),
        None => Seq::empty(),
    }
}

/// The wire form of a range whose bounds are fixed-width fields of `width`
/// bytes holding the unsigned numbers `min` and `max`.
pub open spec fn range_bytes(min: Option<nat>, max: Option<nat>, width: nat) -> Seq<u8> {
    seq![range_flags(min is Some, max is Some)] + opt_field_bytes(min, width) + opt_field_bytes(max, width)
}

/// Reads the flags byte of a range and the fixed-width bounds that it
/// announces: the bounds as unsigned numbers and the bytes taken.
pub open spec fn parse_range(s: Seq<u8>, width: nat) -> Result<(Option<nat>, Option<nat>, nat), CodecError> {
    if s.len() == 0 {
        Err(CodecError::Truncated)
    } else {
        let has_min = s[0] % 2 == 1;
        let has_max = (s[0] / 2) % 2 == 1;
        let n1: nat = if has_min { 1 + width } else { 1 };
        let n2: nat = if has_max { n1 + width } else { n1 };
        if s.len() < n2 {
            Err(CodecError::Truncated)
        } else {
            let min = if has_min { Some(be_value(s.subrange(1, n1 as int))) } else { None };
            let max = if has_max { Some(be_value(s.subrange(n1 as int, n2 as int))) } else { None };
            Ok((min, max, n2))
        }
    }
}

proof fn lemma_range_round_trip(min: Option<nat>, max: Option<nat>, width: nat, rest: Seq<u8>)
    requires
        min matches Some(x) ==> x < pow256(width),
        max matches Some(x) ==> x < pow256(width),
    ensures
        parse_range(range_bytes(min, max, width) + rest, width)
            == Ok::<(Option<nat>, Option<nat>, nat), CodecError>((min, max, range_bytes(min, max, width).len())),
{
    let a = opt_field_bytes(min, width);
    let b = opt_field_bytes(max, width);
    let s = range_bytes(min, max, width) + rest;
    if let Some(x) = min {
        lemma_be_round_trip(x, width);
    }
    if let Some(x) = max {
        lemma_be_round_trip(x, width);
    }
    assert(s =~= seq![range_flags(min is Some, max is Some)] + a + b + rest);
    let la = a.len() as int;
    let lb = b.len() as int;
    assert(s.subrange(1, 1 + la) =~= a);
    assert(s.subrange(1 + la, 1 + la + lb) =~= b);
}

/// An optional signed 32-bit bound as an unsigned pattern.
pub open spec fn opt_i32_bits(v: Option<i32>) -> Option<nat> {
    match v {
        Some(x) => Some(i32_bits(x)),
        None => None,
    }
}

pub open spec fn opt_i32_of_bits(v: Option<nat>) -> Option<i32> {
    match v {
        Some(x) => Some(i32_of_bits(x)),
        None => None,
    }
}

/// An optional signed 64-bit bound as an unsigned pattern.
pub open spec fn opt_i64_bits(v: Option<i64>) -> Option<nat> {
    match v {
        Some(x) => Some(i64_bits(x)),
        None => None,
    }
}

pub open spec fn opt_i64_of_bits(v: Option<nat>) -> Option<i64> {
    match v {
        Some(x) => Some(i64_of_bits(x)),
        None => None,
    }
}

pub open spec fn opt_u32_nat(v: Option<u32>) -> Option<nat> {
    match v {
        Some(x) => Some(x as nat),
        None => None,
    }
}

pub open spec fn opt_nat_u32(v: Option<nat>) -> Option<u32> {
    match v {
        Some(x) => Some(x as u32),
        None => None,
    }
}

/// A float argument validator with optional bounds. Each bound is held as
/// the IEEE-754 bit pattern of a 32-bit float, which is what the wire carries.
#[derive(Clone, Copy, Debug, PartialEq, Eq, Structural)]
pub struct BrigadierFloat {
    pub min: Option<u32>,
    pub max: Option<u32>,
}

/// An integer argument validator with optional bounds.
#[derive(Clone, Copy, Debug, PartialEq, Eq, Structural)]
pub struct BrigadierInteger {
    pub min: Option<i32>,
    pub max: Option<i32>,
}

/// A long integer argument validator with optional bounds.
#[derive(Clone, Copy, Debug, PartialEq, Eq, Structural)]
pub struct BrigadierLong {
    pub min: Option<i64>,
    pub max: Option<i64>,
}

pub open spec fn float_range_bytes(p: BrigadierFloat) -> Seq<u8> {
    range_bytes(opt_u32_nat(p.min), opt_u32_nat(p.max), 4)
}

pub open spec fn parse_float_range(s: Seq<u8>) -> Result<(BrigadierFloat, nat), CodecError> {
    match parse_range(s, 4) {
        Ok((a, b, n)) => Ok((BrigadierFloat { min: opt_nat_u32(a), max: opt_nat_u32(b) }, n)),
        Err(e) => Err(e),
    }
}

pub open spec fn integer_range_bytes(p: BrigadierInteger) -> Seq<u8> {
    range_bytes(opt_i32_bits(p.min), opt_i32_bits(p.max), 4)
}

pub open spec fn parse_integer_range(s: Seq<u8>) -> Result<(BrigadierInteger, nat), CodecError> {
    match parse_range(s, 4) {
        Ok((a, b, n)) => Ok((BrigadierInteger { min: opt_i32_of_bits(a), max: opt_i32_of_bits(b) }, n)),
        Err(e) => Err(e),
    }
}

pub open spec fn long_range_bytes(p: BrigadierLong) -> Seq<u8> {
    range_bytes(opt_i64_bits(p.min), opt_i64_bits(p.max), 8)
}

pub open spec fn parse_long_range(s: Seq<u8>) -> Result<(BrigadierLong, nat), CodecError> {
    match parse_range(s, 8) {
        Ok((a, b, n)) => Ok((BrigadierLong { min: opt_i64_of_bits(a), max: opt_i64_of_bits(b) }, n)),
        Err(e) => Err(e),
    }
}

/// Decoding an encoded float range gives it back and takes exactly its bytes.
pub proof fn lemma_float_range_round_trip(p: BrigadierFloat, rest: Seq<u8>)
    ensures
        parse_float_range(float_range_bytes(p) + rest)
            == Ok::<(BrigadierFloat, nat), CodecError>((p, float_range_bytes(p).len())),
{
    lemma_pow256_values();
    lemma_range_round_trip(opt_u32_nat(p.min), opt_u32_nat(p.max), 4, rest);
}

/// Decoding an encoded integer range gives it back and takes exactly its bytes.
pub proof fn lemma_integer_range_round_trip(p: BrigadierInteger, rest: Seq<u8>)
    ensures
        parse_integer_range(integer_range_bytes(p) + rest)
            == Ok::<(BrigadierInteger, nat), CodecError>((p, integer_range_bytes(p).len())),
{
    lemma_pow256_values();
    if let Some(x) = p.min {
        lemma_i32_bits_round_trip(x);
    }
    if let Some(x) = p.max {
        lemma_i32_bits_round_trip(x);
    }
    lemma_range_round_trip(opt_i32_bits(p.min), opt_i32_bits(p.max), 4, rest);
}

/// Decoding an encoded long range gives it back and takes exactly its bytes.
pub proof fn lemma_long_range_round_trip(p: BrigadierLong, rest: Seq<u8>)
    ensures
        parse_long_range(long_range_bytes(p) + rest)
            == Ok::<(BrigadierLong, nat), CodecError>((p, long_range_bytes(p).len())),
{
    lemma_pow256_values();
    if let Some(x) = p.min {
        lemma_small_mod(i64_bits(x), two_pow_64() as nat);
    }
    if let Some(x) = p.max {
        lemma_small_mod(i64_bits(x), two_pow_64() as nat);
    }
    lemma_range_round_trip(opt_i64_bits(p.min), opt_i64_bits(p.max), 8, rest);
}

fn range_flags_exec(has_min: bool, has_max: bool) -> (r: u8)
    ensures
        r == range_flags(has_min, has_max),
{
    (if has_min { 1u8 } else { 0u8 }) + (if has_max { 2u8 } else { 0u8 })
}

/// Reads the flags byte at `pos` and checks that the fields it announces,
/// each `width` bytes long, are all there: the two presence bits and the
/// position of the first field.
fn read_range_flags(buf: &[u8], pos: usize, width: usize) -> (r: Result<(bool, bool, usize), CodecError>)
    requires
        pos <= buf@.len(),
        width <= 8,
    ensures
        match (r, parse_range(buf@.skip(pos as int), width as nat)) {
            (Ok((has_min, has_max, p)), Ok((a, b, n))) => {
                &&& p == pos + 1
                &&& has_min == a is Some
                &&& has_max == b is Some
                &&& p + (if has_min { width } else { 0 }) + (if has_max { width } else { 0 }) == pos + n
                &&& pos + n <= buf@.len()
            },
            (Err(e), Err(f)) => e == f,
            _ => false,
        },
        r matches Ok((has_min, has_max, p)) ==> p == pos + 1 && p + (if has_min { width } else { 0 }) + (
        if has_max { width } else { 0 }) <= buf@.len(),
{
    if pos >= buf.len() {
        return Err(CodecError::Truncated);
    }
    let flags = buf[pos];
    let has_min = flags % 2 == 1;
    let has_max = (flags / 2) % 2 == 1;
    let need: usize = 1 + (if has_min { width } else { 0 }) + (if has_max { width } else { 0 });
    if buf.len() - pos < need {
        return Err(CodecError::Truncated);
    }
    Ok((has_min, has_max, pos + 1))
}

impl BrigadierFloat {
    /// Appends the flags byte and the bit patterns of the bounds that are present.
    pub fn encode(&self, out: &mut Vec<u8>)
        ensures
            final(out)@ == old(out)@ + float_range_bytes(*self),
    {
        let ghost start = out@;
        out.push(range_flags_exec(self.min.is_some(), self.max.is_some()));
        if let Some(v) = self.min {
            append_bytes(out, u32_to_be(v).as_slice());
        }
        if let Some(v) = self.max {
            append_bytes(out, u32_to_be(v).as_slice());
        }
        assert(out@ =~= start + float_range_bytes(*self));
    }

    /// Reads a float range that starts at `pos`; on success, returns it with
    /// the position just past it.
    pub fn decode(buf: &[u8], pos: usize) -> (r: Result<(Self, usize), CodecError>)
        requires
            pos <= buf@.len(),
        ensures
            match r {
                Ok((v, end)) => pos < end <= buf@.len() && parse_float_range(buf@.skip(pos as int))
                    == Ok::<(BrigadierFloat, nat), CodecError>((v, (end - pos) as nat)),
                Err(e) => parse_float_range(buf@.skip(pos as int)) == Err::<(BrigadierFloat, nat), CodecError>(e),
            },
    {
        let ghost s = buf@.skip(pos as int);
        let (has_min, has_max, p0) = match read_range_flags(buf, pos, 4) {
            Ok(t) => t,
            Err(e) => return Err(e),
        };
        let mut p = p0;
        let len = buf.len();
        assert(p + (if has_min { 4int } else { 0int }) + (if has_max { 4int } else { 0int }) <= len);
        let min = if has_min {
            let v = u32_from_be(buf, p);
            assert(buf@.subrange(p as int, p + 4) =~= s.subrange(1, 5));
            p = p + 4;
            Some(v)
        } else {
            None
        };
        let ghost q = p;
        let max = if has_max {
            let v = u32_from_be(buf, p);
            assert(buf@.subrange(p as int, p + 4) =~= s.subrange(q - pos, q - pos + 4));
            p = p + 4;
            Some(v)
        } else {
            None
        };
        Ok((BrigadierFloat { min, max }, p))
    }
}

impl BrigadierInteger {
    /// Appends the flags byte and the big-endian bounds that are present.
    pub fn encode(&self, out: &mut Vec<u8>)
        ensures
            final(out)@ == old(out)@ + integer_range_bytes(*self),
    {
        let ghost start = out@;
        out.push(range_flags_exec(self.min.is_some(), self.max.is_some()));
        if let Some(v) = self.min {
            append_bytes(out, u32_to_be(i32_to_bits(v)).as_slice());
        }
        if let Some(v) = self.max {
            append_bytes(out, u32_to_be(i32_to_bits(v)).as_slice());
        }
        assert(out@ =~= start + integer_range_bytes(*self));
    }

    /// Reads an integer range that starts at `pos`; on success, returns it
    /// with the position just past it.
    pub fn decode(buf: &[u8], pos: usize) -> (r: Result<(Self, usize), CodecError>)
        requires
            pos <= buf@.len(),
        ensures
            match r {
                Ok((v, end)) => pos < end <= buf@.len() && parse_integer_range(buf@.skip(pos as int))
                    == Ok::<(BrigadierInteger, nat), CodecError>((v, (end - pos) as nat)),
                Err(e) => parse_integer_range(buf@.skip(pos as int)) == Err::<(BrigadierInteger, nat), CodecError>(e),
            },
    {
        let ghost s = buf@.skip(pos as int);
        let (has_min, has_max, p0) = match read_range_flags(buf, pos, 4) {
            Ok(t) => t,
            Err(e) => return Err(e),
        };
        let mut p = p0;
        let len = buf.len();
        assert(p + (if has_min { 4int } else { 0int }) + (if has_max { 4int } else { 0int }) <= len);
        let min = if has_min {
            let v = u32_from_be(buf, p);
            assert(buf@.subrange(p as int, p + 4) =~= s.subrange(1, 5));
            p = p + 4;
            Some(i32_from_bits(v))
        } else {
            None
        };
        let ghost q = p;
        let max = if has_max {
            let v = u32_from_be(buf, p);
            assert(buf@.subrange(p as int, p + 4) =~= s.subrange(q - pos, q - pos + 4));
            p = p + 4;
            Some(i32_from_bits(v))
        } else {
            None
        };
        Ok((BrigadierInteger { min, max }, p))
    }
}

/// The 64-bit two's-complement pattern of `n`.
fn i64_to_bits(n: i64) -> (r: u64)
    ensures
        r as nat == i64_bits(n),
{
    if n >= 0 {
        n as u64
    } else {
        (n as i128 + 0x1_0000_0000_0000_0000i128) as u64
    }
}

/// The signed integer whose two's-complement pattern is `u`.
fn i64_from_bits(u: u64) -> (r: i64)
    ensures
        r == i64_of_bits(u as nat),
{
    proof {
        lemma_small_mod(u as nat, two_pow_64() as nat);
    }
    if u < 0x8000_0000_0000_0000 {
        u as i64
    } else {
        (u as i128 - 0x1_0000_0000_0000_0000i128) as i64
    }
}

impl BrigadierLong {
    /// Appends the flags byte and the big-endian bounds that are present.
    pub fn encode(&self, out: &mut Vec<u8>)
        ensures
            final(out)@ == old(out)@ + long_range_bytes(*self),
    {
        let ghost start = out@;
        out.push(range_flags_exec(self.min.is_some(), self.max.is_some()));
        if let Some(v) = self.min {
            append_bytes(out, u64_to_be(i64_to_bits(v)).as_slice());
        }
        if let Some(v) = self.max {
            append_bytes(out, u64_to_be(i64_to_bits(v)).as_slice());
        }
        assert(out@ =~= start + long_range_bytes(*self));
    }

    /// Reads a long range that starts at `pos`; on success, returns it with
    /// the position just past it.
    pub fn decode(buf: &[u8], pos: usize) -> (r: Result<(Self, usize), CodecError>)
        requires
            pos <= buf@.len(),
        ensures
            match r {
                Ok((v, end)) => pos < end <= buf@.len() && parse_long_range(buf@.skip(pos as int))
                    == Ok::<(BrigadierLong, nat), CodecError>((v, (end - pos) as nat)),
                Err(e) => parse_long_range(buf@.skip(pos as int)) == Err::<(BrigadierLong, nat), CodecError>(e),
            },
    {
        let ghost s = buf@.skip(pos as int);
        let (has_min, has_max, p0) = match read_range_flags(buf, pos, 8) {
            Ok(t) => t,
            Err(e) => return Err(e),
        };
        let mut p = p0;
        let len = buf.len();
        assert(p + (if has_min { 8int } else { 0int }) + (if has_max { 8int } else { 0int }) <= len);
        let min = if has_min {
            let v = u64_from_be(buf, p);
            assert(buf@.subrange(p as int, p + 8) =~= s.subrange(1, 9));
            p = p + 8;
            Some(i64_from_bits(v))
        } else {
            None
        };
        let ghost q = p;
        let max = if has_max {
            let v = u64_from_be(buf, p);
            assert(buf@.subrange(p as int, p + 8) =~= s.subrange(q - pos, q - pos + 8));
            p = p + 8;
            Some(i64_from_bits(v))
        } else {
            None
        };
        Ok((BrigadierLong { min, max }, p))
    }
}

} // verus!
