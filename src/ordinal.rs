use vstd::prelude::*;

use crate::error::CodecError;
use crate::varint::{lemma_varint_round_trip, parse_varint, varint_bytes, VarInt};

verus! {

/// A closed enumeration whose wire value is the zero-based position of a
/// variant in its declaration.
pub trait OrdinalEnum: Sized {
    /// The declaration position of a variant.
    spec fn ordinal_of(self) -> nat;

    /// The number of declared variants.
    spec fn count() -> nat;

    proof fn lemma_ordinal_bound(self)
        ensures
            self.ordinal_of() < Self::count(),
            Self::count() <= 256,
    ;

    proof fn lemma_ordinal_injective(self, other: Self)
        requires
            self.ordinal_of() == other.ordinal_of(),
        ensures
            self == other,
    ;

    proof fn lemma_ordinal_onto(n: nat)
        requires
            n < Self::count(),
        ensures
            exists|v: Self| v.ordinal_of() == n,
    ;

    /// The declaration position of this variant.
    fn ordinal(&self) -> (r: u8)
        ensures
            r as nat == self.ordinal_of(),
    ;

    /// The variant declared at position `n`, if there is one.
    fn from_ordinal(n: u8) -> (r: Option<Self>)
        ensures
            match r {
                Some(v) => v.ordinal_of() == n as nat,
                None => n as nat >= Self::count(),
            },
    ;
}

/// The wire form of a variant: its position as a variable-length integer.
pub open spec fn ordinal_bytes<E: OrdinalEnum>(e: E) -> Seq<u8> {
    varint_bytes(e.ordinal_of() as i32)
}

/// Reads a variant from the front of `s`: the variant at the position that
/// the variable-length integer there gives, or `InvalidEnumOrdinal` when no
/// variant stands at that position.
pub open spec fn parse_ordinal<E: OrdinalEnum>(s: Seq<u8>) -> Result<(E, nat), CodecError> {
    match parse_varint(s) {
        Err(e) => Err(e),
        Ok((n, k)) => {
            if 0 <= n < E::count() {
                Ok((choose|v: E| v.ordinal_of() == n, k))
            } else {
                Err(CodecError::InvalidEnumOrdinal)
            }
        },
    }
}

/// Decoding an encoded variant gives it back and takes exactly its bytes.
pub proof fn lemma_ordinal_round_trip<E: OrdinalEnum>(e: E, rest: Seq<u8>)
    ensures
        parse_ordinal::<E>(ordinal_bytes(e) + rest) == Ok::<(E, nat), CodecError>((e, ordinal_bytes(e).len())),
{
    e.lemma_ordinal_bound();
    lemma_varint_round_trip(e.ordinal_of() as i32, rest);
    let n = e.ordinal_of() as i32;
    assert(n as int == e.ordinal_of());
    assert(e.ordinal_of() == n);
    let w = choose|v: E| v.ordinal_of() == n;
    e.lemma_ordinal_injective(w);
}

/// The position one past the last variant is rejected, and the position
/// of the last variant gives that variant.
pub proof fn lemma_ordinal_boundary<E: OrdinalEnum>(rest: Seq<u8>)
    requires
        E::count() > 0,
    ensures
        parse_ordinal::<E>(varint_bytes(E::count() as i32) + rest) == Err::<(E, nat), CodecError>(
            CodecError::InvalidEnumOrdinal,
        ),
        parse_ordinal::<E>(varint_bytes((E::count() - 1) as i32) + rest) matches Ok((v, _)) && v.ordinal_of()
            == E::count() - 1,
{
    E::lemma_ordinal_onto((E::count() - 1) as nat);
    let v = choose|v: E| v.ordinal_of() == E::count() - 1;
    v.lemma_ordinal_bound();
    lemma_varint_round_trip(E::count() as i32, rest);
    lemma_varint_round_trip((E::count() - 1) as i32, rest);
}

/// Appends the position of `e` as a variable-length integer.
pub fn encode_ordinal<E: OrdinalEnum>(e: &E, out: &mut Vec<u8>)
    ensures
        final(out)@ == old(out)@ + ordinal_bytes(*e),
{
    VarInt(e.ordinal() as i32).encode(out);
}

/// The number of bytes that `encode_ordinal` writes for `e`.
pub fn ordinal_encoded_len<E: OrdinalEnum>(e: &E) -> (r: usize)
    ensures
        r == ordinal_bytes(*e).len(),
{
    VarInt(e.ordinal() as i32).encoded_len()
}

/// Reads a variant whose position is written at `pos`; on success, returns
/// it with the position just past it.
pub fn decode_ordinal<E: OrdinalEnum>(buf: &[u8], pos: usize) -> (r: Result<(E, usize), CodecError>)
    requires
        pos <= buf@.len(),
    ensures
        match r {
            Ok((v, end)) => pos < end <= buf@.len() && parse_ordinal::<E>(buf@.skip(pos as int))
                == Ok::<(E, nat), CodecError>((v, (end - pos) as nat)),
            Err(e) => parse_ordinal::<E>(buf@.skip(pos as int)) == Err::<(E, nat), CodecError>(e),
        },
{
    let (n, end) = match VarInt::decode(buf, pos) {
        Ok(t) => t,
        Err(e) => return Err(e),
    };
    if n.0 < 0 || n.0 > 255 {
        proof {
            if n.0 > 255 {
                if 0 <= n.0 < E::count() {
                    E::lemma_ordinal_onto(n.0 as nat);
                    let v = choose|v: E| v.ordinal_of() == n.0;
                    v.lemma_ordinal_bound();
                }
            }
        }
        return Err(CodecError::InvalidEnumOrdinal);
    }
    match E::from_ordinal(n.0 as u8) {
        Some(v) => {
            proof {
                v.lemma_ordinal_bound();
                let w = choose|w: E| w.ordinal_of() == n.0;
                v.lemma_ordinal_injective(w);
            }
            Ok((v, end))
        },
        None => Err(CodecError::InvalidEnumOrdinal),
    }
}

} // verus!
