use vstd::prelude::*;
use vstd::string::*;
use vstd::utf8::*;

use crate::bytes::{append_bytes, copy_range};
use crate::error::CodecError;
use crate::varint::{lemma_varint_round_trip, parse_varint, varint_bytes, VarInt};

verus! {

broadcast use {encode_utf8_valid_utf8, encode_utf8_decode_utf8};

/// The wire form of the characters `chars` as a string whose character
/// count must lie in `[min, max]`: the UTF-8 byte length as a
/// variable-length integer, then the UTF-8 bytes.
pub open spec fn string_bytes(chars: Seq<char>, min: nat, max: nat) -> Result<Seq<u8>, CodecError> {
    let b = encode_utf8(chars);
    if chars.len() < min || chars.len() > max || b.len() > i32::MAX {
        Err(CodecError::StringLengthOutOfBounds)
    } else {
        Ok(varint_bytes(b.len() as i32) + b)
    }
}

/// Reads a string whose character count must lie in `[min, max]` from the
/// front of `s`: its characters and the number of bytes it took.
pub open spec fn parse_string(s: Seq<u8>, min: nat, max: nat) -> Result<(Seq<char>, nat), CodecError> {
    match parse_varint(s) {
        Err(e) => Err(e),
        Ok((len, n)) => {
            if len < 0 {
                Err(CodecError::NegativeLength)
            } else if s.len() < n + len {
                Err(CodecError::Truncated)
            } else {
                let b = s.subrange(n as int, n + len);
                if !valid_utf8(b) {
                    Err(CodecError::InvalidUtf8)
                } else if decode_utf8(b).len() < min || decode_utf8(b).len() > max {
                    Err(CodecError::StringLengthOutOfBounds)
                } else {
                    Ok((decode_utf8(b), (n + len) as nat))
                }
            }
        },
    }
}

/// Decoding the encoding of any string that can be encoded gives back its
/// characters and consumes exactly the bytes that were written.
pub proof fn lemma_string_round_trip(chars: Seq<char>, min: nat, max: nat, rest: Seq<u8>)
    requires
        string_bytes(chars, min, max) is Ok,
    ensures
        parse_string(string_bytes(chars, min, max)->Ok_0 + rest, min, max)
            == Ok::<(Seq<char>, nat), CodecError>((chars, string_bytes(chars, min, max)->Ok_0.len())),
{
    let b = encode_utf8(chars);
    let pre = varint_bytes(b.len() as i32);
    let s = pre + b + rest;
    assert(pre + b + rest =~= pre + (b + rest));
    lemma_varint_round_trip(b.len() as i32, b + rest);
    assert(s.subrange(pre.len() as int, (pre.len() + b.len()) as int) =~= b);
}

/// Encoding a string whose character count lies outside `[min, max]`
/// fails with `StringLengthOutOfBounds`, and so does decoding one.
pub proof fn lemma_string_bounds_rejected(chars: Seq<char>, min: nat, max: nat, rest: Seq<u8>)
    requires
        chars.len() < min || chars.len() > max,
    ensures
        string_bytes(chars, min, max) == Err::<Seq<u8>, CodecError>(CodecError::StringLengthOutOfBounds),
        encode_utf8(chars).len() <= i32::MAX ==> parse_string(
            varint_bytes(encode_utf8(chars).len() as i32) + encode_utf8(chars) + rest,
            min,
            max,
        ) == Err::<(Seq<char>, nat), CodecError>(CodecError::StringLengthOutOfBounds),
{
    let b = encode_utf8(chars);
    if b.len() <= i32::MAX {
        let pre = varint_bytes(b.len() as i32);
        let s = pre + b + rest;
        assert(s =~= pre + (b + rest));
        lemma_varint_round_trip(b.len() as i32, b + rest);
        assert(s.subrange(pre.len() as int, (pre.len() + b.len()) as int) =~= b);
    }
}

/// Relies on `String::from_utf8`: it succeeds exactly on valid UTF-8, and
/// then holds the characters that the bytes spell.
#[verifier::external_body]
fn string_from_utf8(bytes: Vec<u8>) -> (r: Option<String>)
    ensures
        r is Some <==> valid_utf8(bytes@),
        r matches Some(s) ==> s@ == decode_utf8(bytes@),
{
    String::from_utf8(bytes).ok()
}

/// A string whose character count (not byte count) is meant to lie in
/// `[MIN, MAX]`; encoding and decoding enforce the range.
#[derive(Clone, Debug, PartialEq, Eq, Default)]
pub struct BoundedString<const MIN: usize, const MAX: usize>(pub String);

impl<const MIN: usize, const MAX: usize> View for BoundedString<MIN, MAX> {
    type V = Seq<char>;

    open spec fn view(&self) -> Seq<char> {
        self.0@
    }
}

impl<const MIN: usize, const MAX: usize> BoundedString<MIN, MAX> {
    /// Appends the encoding of this string to `out`, or fails, writing
    /// nothing, when its character count lies outside `[MIN, MAX]`.
    pub fn encode(&self, out: &mut Vec<u8>) -> (r: Result<(), CodecError>)
        ensures
            match string_bytes(self@, MIN as nat, MAX as nat) {
                Ok(b) => r is Ok && final(out)@ == old(out)@ + b,
                Err(e) => r == Err::<(), CodecError>(e) && final(out)@ == old(out)@,
            },
    {
        let s = self.0.as_str();
        let n = s.unicode_len();
        if n < MIN || n > MAX {
            return Err(CodecError::StringLengthOutOfBounds);
        }
        let bytes = s.as_bytes();
        if bytes.len() > 0x7fff_ffff {
            return Err(CodecError::StringLengthOutOfBounds);
        }
        VarInt(bytes.len() as i32).encode(out);
        append_bytes(out, bytes);
        Ok(())
    }

    /// Reads a string that starts at `pos`; on success, returns it with the
    /// position just past it.
    pub fn decode(buf: &[u8], pos: usize) -> (r: Result<(Self, usize), CodecError>)
        requires
            pos <= buf@.len(),
        ensures
            match r {
                Ok((v, end)) => pos < end <= buf@.len() && parse_string(buf@.skip(pos as int), MIN as nat, MAX as nat)
                    == Ok::<(Seq<char>, nat), CodecError>((v@, (end - pos) as nat)),
                Err(e) => parse_string(buf@.skip(pos as int), MIN as nat, MAX as nat)
                    == Err::<(Seq<char>, nat), CodecError>(e),
            },
    {
        let ghost s = buf@.skip(pos as int);
        let (len, start) = match VarInt::decode(buf, pos) {
            Ok(p) => p,
            Err(e) => return Err(e),
        };
        if len.0 < 0 {
            return Err(CodecError::NegativeLength);
        }
        if buf.len() - start < len.0 as usize {
            return Err(CodecError::Truncated);
        }
        let end = start + len.0 as usize;
        let bytes = copy_range(buf, start, end);
        assert(bytes@ =~= s.subrange(start - pos, end - pos));
        let text = match string_from_utf8(bytes) {
            Some(t) => t,
            None => return Err(CodecError::InvalidUtf8),
        };
        let n = text.as_str().unicode_len();
        if n < MIN || n > MAX {
            return Err(CodecError::StringLengthOutOfBounds);
        }
        Ok((BoundedString(text), end))
    }
}

} // verus!
