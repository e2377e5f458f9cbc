//! Value types carried in entity metadata.

use vstd::prelude::*;

use crate::bytes::{append_bytes, be_bytes, u32_to_be};
use crate::error::CodecError;
use crate::varint::{
    i32_bits, i32_from_bits, i32_of_bits, i32_to_bits, lemma_varint_round_trip, parse_varint, two_pow_32,
    varint_bytes, VarInt,
};
use crate::ordinal::{
    decode_ordinal, encode_ordinal, ordinal_bytes, ordinal_encoded_len, parse_ordinal, OrdinalEnum,
};

verus! {

/// An optional `u32` that cannot hold `u32::MAX`, stored as one integer:
/// 0 when absent, the value plus one when present.
#[derive(Clone, Copy, PartialEq, Eq, Structural, PartialOrd, Ord, Hash, Default, Debug)]
pub struct OptionalInt(u32);

impl View for OptionalInt {
    type V = Option<u32>;

    open spec fn view(&self) -> Option<u32> {
        if self.raw() == 0 {
            None
        } else {
            Some((self.raw() - 1) as u32)
        }
    }
}

impl OptionalInt {
    /// The stored integer, which is also the value on the wire.
    pub closed spec fn raw(self) -> u32 {
        self.0
    }

    /// Represents `n`; there is no representation of `Some(u32::MAX)`.
    pub fn new(n: Option<u32>) -> (r: Option<Self>)
        ensures
            r is None <==> n == Some(u32::MAX),
            r matches Some(v) ==> v@ == n && v.raw() == match n {
                Some(x) => x + 1,
                None => 0,
            },
    {
        match n {
            None => Some(OptionalInt(0)),
            Some(x) => if x == u32::MAX {
                None
            } else {
                Some(OptionalInt(x + 1))
            },
        }
    }

    /// The value represented.
    pub fn get(self) -> (r: Option<u32>)
        ensures
            r == self@,
    {
        if self.0 == 0 {
            None
        } else {
            Some(self.0 - 1)
        }
    }

    /// Appends the stored integer as a variable-length integer (its bits
    /// read as a signed 32-bit value).
    pub fn encode(&self, out: &mut Vec<u8>)
        ensures
            final(out)@ == old(out)@ + optional_int_bytes(*self),
    {
        VarInt(i32_from_bits(self.0)).encode(out)
    }

    /// The number of bytes that `encode` writes.
    pub fn encoded_len(&self) -> (r: usize)
        ensures
            r == optional_int_bytes(*self).len(),
    {
        VarInt(i32_from_bits(self.0)).encoded_len()
    }

    /// Reads the stored integer written at `pos`; on success, returns the
    /// value with the position just past it.
    pub fn decode(buf: &[u8], pos: usize) -> (r: Result<(Self, usize), CodecError>)
        requires
            pos <= buf@.len(),
        ensures
            match r {
                Ok((v, end)) => pos < end <= buf@.len() && parse_optional_int(buf@.skip(pos as int))
                    == Ok::<(u32, nat), CodecError>((v.raw(), (end - pos) as nat)),
                Err(e) => parse_optional_int(buf@.skip(pos as int)) == Err::<(u32, nat), CodecError>(e),
            },
    {
        match VarInt::decode(buf, pos) {
            Ok((n, end)) => Ok((OptionalInt(i32_to_bits(n.0)), end)),
            Err(e) => Err(e),
        }
    }
}

/// The wire form of an optional integer: its stored integer as a
/// variable-length integer.
pub open spec fn optional_int_bytes(v: OptionalInt) -> Seq<u8> {
    varint_bytes(i32_of_bits(v.raw() as nat))
}

/// Reads the stored integer of an optional integer from the front of `s`.
pub open spec fn parse_optional_int(s: Seq<u8>) -> Result<(u32, nat), CodecError> {
    match parse_varint(s) {
        Ok((n, k)) => Ok((i32_bits(n) as u32, k)),
        Err(e) => Err(e),
    }
}

/// Decoding an encoded optional integer gives back its stored integer, so
/// the same value, and takes exactly its bytes.
pub proof fn lemma_optional_int_round_trip(v: OptionalInt, rest: Seq<u8>)
    ensures
        parse_optional_int(optional_int_bytes(v) + rest) == Ok::<(u32, nat), CodecError>(
            (v.raw(), optional_int_bytes(v).len()),
        ),
{
    let n = i32_of_bits(v.raw() as nat);
    lemma_varint_round_trip(n, rest);
    vstd::arithmetic::div_mod::lemma_small_mod(v.raw() as nat, two_pow_32() as nat);
}

/// Three rotation angles, each held as the IEEE-754 bit pattern of a
/// 32-bit float, which is what the wire carries.
#[derive(Clone, Copy, PartialEq, Eq, Structural, Debug)]
pub struct EulerAngle {
    pub pitch: u32,
    pub yaw: u32,
    pub roll: u32,
}

/// The wire form of an angle triple: each pattern in four bytes, most
/// significant first.
pub open spec fn euler_angle_bytes(a: EulerAngle) -> Seq<u8> {
    be_bytes(a.pitch as nat, 4) + be_bytes(a.yaw as nat, 4) + be_bytes(a.roll as nat, 4)
}

impl EulerAngle {
    pub fn new(pitch: u32, yaw: u32, roll: u32) -> (r: Self)
        ensures
            r == (EulerAngle { pitch, yaw, roll }),
    {
        EulerAngle { pitch, yaw, roll }
    }

    /// Appends pitch, yaw and roll, four bytes each.
    pub fn encode(&self, out: &mut Vec<u8>)
        ensures
            final(out)@ == old(out)@ + euler_angle_bytes(*self),
    {
        let ghost start = out@;
        append_bytes(out, u32_to_be(self.pitch).as_slice());
        append_bytes(out, u32_to_be(self.yaw).as_slice());
        append_bytes(out, u32_to_be(self.roll).as_slice());
        assert(out@ =~= start + euler_angle_bytes(*self));
    }

    /// The number of bytes that `encode` writes.
    pub fn encoded_len(&self) -> (r: usize)
        ensures
            r == euler_angle_bytes(*self).len(),
    {
        proof {
            crate::bytes::lemma_pow256_values();
            crate::bytes::lemma_be_round_trip(self.pitch as nat, 4);
            crate::bytes::lemma_be_round_trip(self.yaw as nat, 4);
            crate::bytes::lemma_be_round_trip(self.roll as nat, 4);
        }
        12
    }
}

/// The kind, profession and level of a villager.
#[derive(Clone, Copy, PartialEq, Eq, Structural, PartialOrd, Ord, Hash, Debug)]
pub struct VillagerData {
    pub kind: VillagerKind,
    pub profession: VillagerProfession,
    pub level: i32,
}

/// The wire form of villager data: kind, profession and level, each a
/// variable-length integer.
pub open spec fn villager_data_bytes(d: VillagerData) -> Seq<u8> {
    ordinal_bytes(d.kind) + ordinal_bytes(d.profession) + varint_bytes(d.level)
}

impl VillagerData {
    pub fn new(kind: VillagerKind, profession: VillagerProfession, level: i32) -> (r: Self)
        ensures
            r == (VillagerData { kind, profession, level }),
    {
        VillagerData { kind, profession, level }
    }

    /// Appends kind, profession and level.
    pub fn encode(&self, out: &mut Vec<u8>)
        ensures
            final(out)@ == old(out)@ + villager_data_bytes(*self),
    {
        let ghost start = out@;
        encode_ordinal(&self.kind, out);
        encode_ordinal(&self.profession, out);
        VarInt(self.level).encode(out);
        assert(out@ =~= start + villager_data_bytes(*self));
    }

    /// The number of bytes that `encode` writes.
    pub fn encoded_len(&self) -> (r: usize)
        ensures
            r == villager_data_bytes(*self).len(),
    {
        proof {
            crate::varint::lemma_varint_minimal(self.kind.ordinal_of() as i32);
            crate::varint::lemma_varint_minimal(self.profession.ordinal_of() as i32);
            crate::varint::lemma_varint_minimal(self.level);
        }
        ordinal_encoded_len(&self.kind) + ordinal_encoded_len(&self.profession) + VarInt(self.level).encoded_len()
    }
}

impl Default for VillagerData {
    /// A plains villager with no profession, at level 1.
    fn default() -> (r: Self)
        ensures
            r == (VillagerData { kind: VillagerKind::Plains, profession: VillagerProfession::NoProfession, level: 1 }),
    {
        VillagerData { kind: VillagerKind::Plains, profession: VillagerProfession::NoProfession, level: 1 }
    }
}

/// The wire form of a main arm: one raw byte, 0 for left and 1 for right.
pub open spec fn main_arm_byte(a: MainArm) -> u8 {
    a.ordinal_of() as u8
}

/// Reads a main arm from the front of `s`.
pub open spec fn parse_main_arm(s: Seq<u8>) -> Result<(MainArm, nat), CodecError> {
    if s.len() == 0 {
        Err(CodecError::Truncated)
    } else if s[0] == 0 {
        Ok((MainArm::Left, 1))
    } else if s[0] == 1 {
        Ok((MainArm::Right, 1))
    } else {
        Err(CodecError::InvalidEnumOrdinal)
    }
}

/// Decoding an encoded main arm gives it back and takes its one byte.
pub proof fn lemma_main_arm_round_trip(a: MainArm, rest: Seq<u8>)
    ensures
        parse_main_arm(seq![main_arm_byte(a)] + rest) == Ok::<(MainArm, nat), CodecError>((a, 1)),
{
}

impl MainArm {
    /// Appends the one byte of this arm.
    pub fn encode(&self, out: &mut Vec<u8>)
        ensures
            final(out)@ == old(out)@.push(main_arm_byte(*self)),
    {
        out.push(self.ordinal());
    }

    /// The number of bytes that `encode` writes: always one.
    pub fn encoded_len(&self) -> (r: usize)
        ensures
            r == 1,
    {
        1
    }

    /// Reads the arm byte at `pos`; on success, returns the arm with the
    /// position just past it.
    pub fn decode(buf: &[u8], pos: usize) -> (r: Result<(Self, usize), CodecError>)
        requires
            pos <= buf@.len(),
        ensures
            match r {
                Ok((v, end)) => end == pos + 1 && parse_main_arm(buf@.skip(pos as int))
                    == Ok::<(MainArm, nat), CodecError>((v, 1)),
                Err(e) => parse_main_arm(buf@.skip(pos as int)) == Err::<(MainArm, nat), CodecError>(e),
            },
    {
        if pos >= buf.len() {
            return Err(CodecError::Truncated);
        }
        match MainArm::from_ordinal(buf[pos]) {
            Some(a) => Ok((a, pos + 1)),
            None => Err(CodecError::InvalidEnumOrdinal),
        }
    }
}

/// The direction a block or entity faces.
#[derive(Clone, Copy, Debug, PartialEq, Eq, Structural, PartialOrd, Ord, Hash)]
pub enum Facing {
    Down,
    Up,
    North,
    South,
    West,
    East,
}

impl OrdinalEnum for Facing {
    open spec fn ordinal_of(self) -> nat {
        match self {
            Facing::Down => 0,
            Facing::Up => 1,
            Facing::North => 2,
            Facing::South => 3,
            Facing::West => 4,
            Facing::East => 5,
        }
    }

    open spec fn count() -> nat {
        6
    }

    proof fn lemma_ordinal_bound(self) {
    }

    proof fn lemma_ordinal_injective(self, other: Self) {
    }

    proof fn lemma_ordinal_onto(n: nat) {
        if n == 0 {
            assert((Facing::Down).ordinal_of() == n);
        } else if n == 1 {
            assert((Facing::Up).ordinal_of() == n);
        } else if n == 2 {
            assert((Facing::North).ordinal_of() == n);
        } else if n == 3 {
            assert((Facing::South).ordinal_of() == n);
        } else if n == 4 {
            assert((Facing::West).ordinal_of() == n);
        } else if n == 5 {
            assert((Facing::East).ordinal_of() == n);
        }
    }

    fn ordinal(&self) -> (r: u8) {
        match self {
            Facing::Down => 0,
            Facing::Up => 1,
            Facing::North => 2,
            Facing::South => 3,
            Facing::West => 4,
            Facing::East => 5,
        }
    }

    fn from_ordinal(n: u8) -> (r: Option<Self>) {
        match n {
            0 => Some(Facing::Down),
            1 => Some(Facing::Up),
            2 => Some(Facing::North),
            3 => Some(Facing::South),
            4 => Some(Facing::West),
            5 => Some(Facing::East),
            _ => None,
        }
    }
}

impl Facing {
    /// Appends the variable-length integer of this variant's position.
    pub fn encode(&self, out: &mut Vec<u8>)
        ensures
            final(out)@ == old(out)@ + ordinal_bytes(*self),
    {
        encode_ordinal(self, out)
    }

    /// The number of bytes that `encode` writes.
    pub fn encoded_len(&self) -> (r: usize)
        ensures
            r == ordinal_bytes(*self).len(),
    {
        ordinal_encoded_len(self)
    }

    /// Reads a variant from its position, written at `pos`.
    pub fn decode(buf: &[u8], pos: usize) -> (r: Result<(Self, usize), CodecError>)
        requires
            pos <= buf@.len(),
        ensures
            match r {
                Ok((v, end)) => pos < end <= buf@.len() && parse_ordinal::<Self>(buf@.skip(pos as int))
                    == Ok::<(Self, nat), CodecError>((v, (end - pos) as nat)),
                Err(e) => parse_ordinal::<Self>(buf@.skip(pos as int)) == Err::<(Self, nat), CodecError>(e),
            },
    {
        decode_ordinal(buf, pos)
    }
}

/// The biome type of a villager.
#[derive(Clone, Copy, Debug, PartialEq, Eq, Structural, PartialOrd, Ord, Hash)]
pub enum VillagerKind {
    Desert,
    Jungle,
    Plains,
    Savanna,
    Snow,
    Swamp,
    Taiga,
}

impl OrdinalEnum for VillagerKind {
    open spec fn ordinal_of(self) -> nat {
        match self {
            VillagerKind::Desert => 0,
            VillagerKind::Jungle => 1,
            VillagerKind::Plains => 2,
            VillagerKind::Savanna => 3,
            VillagerKind::Snow => 4,
            VillagerKind::Swamp => 5,
            VillagerKind::Taiga => 6,
        }
    }

    open spec fn count() -> nat {
        7
    }

    proof fn lemma_ordinal_bound(self) {
    }

    proof fn lemma_ordinal_injective(self, other: Self) {
    }

    proof fn lemma_ordinal_onto(n: nat) {
        if n == 0 {
            assert((VillagerKind::Desert).ordinal_of() == n);
        } else if n == 1 {
            assert((VillagerKind::Jungle).ordinal_of() == n);
        } else if n == 2 {
            assert((VillagerKind::Plains).ordinal_of() == n);
        } else if n == 3 {
            assert((VillagerKind::Savanna).ordinal_of() == n);
        } else if n == 4 {
            assert((VillagerKind::Snow).ordinal_of() == n);
        } else if n == 5 {
            assert((VillagerKind::Swamp).ordinal_of() == n);
        } else if n == 6 {
            assert((VillagerKind::Taiga).ordinal_of() == n);
        }
    }

    fn ordinal(&self) -> (r: u8) {
        match self {
            VillagerKind::Desert => 0,
            VillagerKind::Jungle => 1,
            VillagerKind::Plains => 2,
            VillagerKind::Savanna => 3,
            VillagerKind::Snow => 4,
            VillagerKind::Swamp => 5,
            VillagerKind::Taiga => 6,
        }
    }

    fn from_ordinal(n: u8) -> (r: Option<Self>) {
        match n {
            0 => Some(VillagerKind::Desert),
            1 => Some(VillagerKind::Jungle),
            2 => Some(VillagerKind::Plains),
            3 => Some(VillagerKind::Savanna),
            4 => Some(VillagerKind::Snow),
            5 => Some(VillagerKind::Swamp),
            6 => Some(VillagerKind::Taiga),
            _ => None,
        }
    }
}

impl Default for VillagerKind {
    fn default() -> (r: Self)
        ensures
            r == VillagerKind::Plains,
    {
        VillagerKind::Plains
    }
}

/// The profession of a villager.
#[derive(Clone, Copy, Debug, PartialEq, Eq, Structural, PartialOrd, Ord, Hash)]
pub enum VillagerProfession {
    NoProfession,
    Armorer,
    Butcher,
    Cartographer,
    Cleric,
    Farmer,
    Fisherman,
    Fletcher,
    Leatherworker,
    Librarian,
    Mason,
    Nitwit,
    Shepherd,
    Toolsmith,
    Weaponsmith,
}

impl OrdinalEnum for VillagerProfession {
    open spec fn ordinal_of(self) -> nat {
        match self {
            VillagerProfession::NoProfession => 0,
            VillagerProfession::Armorer => 1,
            VillagerProfession::Butcher => 2,
            VillagerProfession::Cartographer => 3,
            VillagerProfession::Cleric => 4,
            VillagerProfession::Farmer => 5,
            VillagerProfession::Fisherman => 6,
            VillagerProfession::Fletcher => 7,
            VillagerProfession::Leatherworker => 8,
            VillagerProfession::Librarian => 9,
            VillagerProfession::Mason => 10,
            VillagerProfession::Nitwit => 11,
            VillagerProfession::Shepherd => 12,
            VillagerProfession::Toolsmith => 13,
            VillagerProfession::Weaponsmith => 14,
        }
    }

    open spec fn count() -> nat {
        15
    }

    proof fn lemma_ordinal_bound(self) {
    }

    proof fn lemma_ordinal_injective(self, other: Self) {
    }

    proof fn lemma_ordinal_onto(n: nat) {
        if n == 0 {
            assert((VillagerProfession::NoProfession).ordinal_of() == n);
        } else if n == 1 {
            assert((VillagerProfession::Armorer).ordinal_of() == n);
        } else if n == 2 {
            assert((VillagerProfession::Butcher).ordinal_of() == n);
        } else if n == 3 {
            assert((VillagerProfession::Cartographer).ordinal_of() == n);
        } else if n == 4 {
            assert((VillagerProfession::Cleric).ordinal_of() == n);
        } else if n == 5 {
            assert((VillagerProfession::Farmer).ordinal_of() == n);
        } else if n == 6 {
            assert((VillagerProfession::Fisherman).ordinal_of() == n);
        } else if n == 7 {
            assert((VillagerProfession::Fletcher).ordinal_of() == n);
        } else if n == 8 {
            assert((VillagerProfession::Leatherworker).ordinal_of() == n);
        } else if n == 9 {
            assert((VillagerProfession::Librarian).ordinal_of() == n);
        } else if n == 10 {
            assert((VillagerProfession::Mason).ordinal_of() == n);
        } else if n == 11 {
            assert((VillagerProfession::Nitwit).ordinal_of() == n);
        } else if n == 12 {
            assert((VillagerProfession::Shepherd).ordinal_of() == n);
        } else if n == 13 {
            assert((VillagerProfession::Toolsmith).ordinal_of() == n);
        } else if n == 14 {
            assert((VillagerProfession::Weaponsmith).ordinal_of() == n);
        }
    }

    fn ordinal(&self) -> (r: u8) {
        match self {
            VillagerProfession::NoProfession => 0,
            VillagerProfession::Armorer => 1,
            VillagerProfession::Butcher => 2,
            VillagerProfession::Cartographer => 3,
            VillagerProfession::Cleric => 4,
            VillagerProfession::Farmer => 5,
            VillagerProfession::Fisherman => 6,
            VillagerProfession::Fletcher => 7,
            VillagerProfession::Leatherworker => 8,
            VillagerProfession::Librarian => 9,
            VillagerProfession::Mason => 10,
            VillagerProfession::Nitwit => 11,
            VillagerProfession::Shepherd => 12,
            VillagerProfession::Toolsmith => 13,
            VillagerProfession::Weaponsmith => 14,
        }
    }

    fn from_ordinal(n: u8) -> (r: Option<Self>) {
        match n {
            0 => Some(VillagerProfession::NoProfession),
            1 => Some(VillagerProfession::Armorer),
            2 => Some(VillagerProfession::Butcher),
            3 => Some(VillagerProfession::Cartographer),
            4 => Some(VillagerProfession::Cleric),
            5 => Some(VillagerProfession::Farmer),
            6 => Some(VillagerProfession::Fisherman),
            7 => Some(VillagerProfession::Fletcher),
            8 => Some(VillagerProfession::Leatherworker),
            9 => Some(VillagerProfession::Librarian),
            10 => Some(VillagerProfession::Mason),
            11 => Some(VillagerProfession::Nitwit),
            12 => Some(VillagerProfession::Shepherd),
            13 => Some(VillagerProfession::Toolsmith),
            14 => Some(VillagerProfession::Weaponsmith),
            _ => None,
        }
    }
}

impl Default for VillagerProfession {
    fn default() -> (r: Self)
        ensures
            r == VillagerProfession::NoProfession,
    {
        VillagerProfession::NoProfession
    }
}

/// The body pose of an entity.
#[derive(Clone, Copy, Debug, PartialEq, Eq, Structural, PartialOrd, Ord, Hash)]
pub enum Pose {
    Standing,
    FallFlying,
    Sleeping,
    Swimming,
    SpinAttack,
    Sneaking,
    LongJumping,
    Dying,
    Croaking,
    UsingTongue,
    Roaring,
    Sniffing,
    Emerging,
    Digging,
}

impl OrdinalEnum for Pose {
    open spec fn ordinal_of(self) -> nat {
        match self {
            Pose::Standing => 0,
            Pose::FallFlying => 1,
            Pose::Sleeping => 2,
            Pose::Swimming => 3,
            Pose::SpinAttack => 4,
            Pose::Sneaking => 5,
            Pose::LongJumping => 6,
            Pose::Dying => 7,
            Pose::Croaking => 8,
            Pose::UsingTongue => 9,
            Pose::Roaring => 10,
            Pose::Sniffing => 11,
            Pose::Emerging => 12,
            Pose::Digging => 13,
        }
    }

    open spec fn count() -> nat {
        14
    }

    proof fn lemma_ordinal_bound(self) {
    }

    proof fn lemma_ordinal_injective(self, other: Self) {
    }

    proof fn lemma_ordinal_onto(n: nat) {
        if n == 0 {
            assert((Pose::Standing).ordinal_of() == n);
        } else if n == 1 {
            assert((Pose::FallFlying).ordinal_of() == n);
        } else if n == 2 {
            assert((Pose::Sleeping).ordinal_of() == n);
        } else if n == 3 {
            assert((Pose::Swimming).ordinal_of() == n);
        } else if n == 4 {
            assert((Pose::SpinAttack).ordinal_of() == n);
        } else if n == 5 {
            assert((Pose::Sneaking).ordinal_of() == n);
        } else if n == 6 {
            assert((Pose::LongJumping).ordinal_of() == n);
        } else if n == 7 {
            assert((Pose::Dying).ordinal_of() == n);
        } else if n == 8 {
            assert((Pose::Croaking).ordinal_of() == n);
        } else if n == 9 {
            assert((Pose::UsingTongue).ordinal_of() == n);
        } else if n == 10 {
            assert((Pose::Roaring).ordinal_of() == n);
        } else if n == 11 {
            assert((Pose::Sniffing).ordinal_of() == n);
        } else if n == 12 {
            assert((Pose::Emerging).ordinal_of() == n);
        } else if n == 13 {
            assert((Pose::Digging).ordinal_of() == n);
        }
    }

    fn ordinal(&self) -> (r: u8) {
        match self {
            Pose::Standing => 0,
            Pose::FallFlying => 1,
            Pose::Sleeping => 2,
            Pose::Swimming => 3,
            Pose::SpinAttack => 4,
            Pose::Sneaking => 5,
            Pose::LongJumping => 6,
            Pose::Dying => 7,
            Pose::Croaking => 8,
            Pose::UsingTongue => 9,
            Pose::Roaring => 10,
            Pose::Sniffing => 11,
            Pose::Emerging => 12,
            Pose::Digging => 13,
        }
    }

    fn from_ordinal(n: u8) -> (r: Option<Self>) {
        match n {
            0 => Some(Pose::Standing),
            1 => Some(Pose::FallFlying),
            2 => Some(Pose::Sleeping),
            3 => Some(Pose::Swimming),
            4 => Some(Pose::SpinAttack),
            5 => Some(Pose::Sneaking),
            6 => Some(Pose::LongJumping),
            7 => Some(Pose::Dying),
            8 => Some(Pose::Croaking),
            9 => Some(Pose::UsingTongue),
            10 => Some(Pose::Roaring),
            11 => Some(Pose::Sniffing),
            12 => Some(Pose::Emerging),
            13 => Some(Pose::Digging),
            _ => None,
        }
    }
}

impl Default for Pose {
    fn default() -> (r: Self)
        ensures
            r == Pose::Standing,
    {
        Pose::Standing
    }
}

impl Pose {
    /// Appends the variable-length integer of this variant's position.
    pub fn encode(&self, out: &mut Vec<u8>)
        ensures
            final(out)@ == old(out)@ + ordinal_bytes(*self),
    {
        encode_ordinal(self, out)
    }

    /// The number of bytes that `encode` writes.
    pub fn encoded_len(&self) -> (r: usize)
        ensures
            r == ordinal_bytes(*self).len(),
    {
        ordinal_encoded_len(self)
    }

    /// Reads a variant from its position, written at `pos`.
    pub fn decode(buf: &[u8], pos: usize) -> (r: Result<(Self, usize), CodecError>)
        requires
            pos <= buf@.len(),
        ensures
            match r {
                Ok((v, end)) => pos < end <= buf@.len() && parse_ordinal::<Self>(buf@.skip(pos as int))
                    == Ok::<(Self, nat), CodecError>((v, (end - pos) as nat)),
                Err(e) => parse_ordinal::<Self>(buf@.skip(pos as int)) == Err::<(Self, nat), CodecError>(e),
            },
    {
        decode_ordinal(buf, pos)
    }
}

/// The main hand of a player.
#[derive(Clone, Copy, Debug, PartialEq, Eq, Structural, PartialOrd, Ord, Hash)]
pub enum MainArm {
    Left,
    Right,
}

impl OrdinalEnum for MainArm {
    open spec fn ordinal_of(self) -> nat {
        match self {
            MainArm::Left => 0,
            MainArm::Right => 1,
        }
    }

    open spec fn count() -> nat {
        2
    }

    proof fn lemma_ordinal_bound(self) {
    }

    proof fn lemma_ordinal_injective(self, other: Self) {
    }

    proof fn lemma_ordinal_onto(n: nat) {
        if n == 0 {
            assert((MainArm::Left).ordinal_of() == n);
        } else if n == 1 {
            assert((MainArm::Right).ordinal_of() == n);
        }
    }

    fn ordinal(&self) -> (r: u8) {
        match self {
            MainArm::Left => 0,
            MainArm::Right => 1,
        }
    }

    fn from_ordinal(n: u8) -> (r: Option<Self>) {
        match n {
            0 => Some(MainArm::Left),
            1 => Some(MainArm::Right),
            _ => None,
        }
    }
}

impl Default for MainArm {
    fn default() -> (r: Self)
        ensures
            r == MainArm::Right,
    {
        MainArm::Right
    }
}

/// The wood type of a boat.
#[derive(Clone, Copy, Debug, PartialEq, Eq, Structural, PartialOrd, Ord, Hash)]
pub enum BoatKind {
    Oak,
    Spruce,
    Birch,
    Jungle,
    Acacia,
    DarkOak,
}

impl OrdinalEnum for BoatKind {
    open spec fn ordinal_of(self) -> nat {
        match self {
            BoatKind::Oak => 0,
            BoatKind::Spruce => 1,
            BoatKind::Birch => 2,
            BoatKind::Jungle => 3,
            BoatKind::Acacia => 4,
            BoatKind::DarkOak => 5,
        }
    }

    open spec fn count() -> nat {
        6
    }

    proof fn lemma_ordinal_bound(self) {
    }

    proof fn lemma_ordinal_injective(self, other: Self) {
    }

    proof fn lemma_ordinal_onto(n: nat) {
        if n == 0 {
            assert((BoatKind::Oak).ordinal_of() == n);
        } else if n == 1 {
            assert((BoatKind::Spruce).ordinal_of() == n);
        } else if n == 2 {
            assert((BoatKind::Birch).ordinal_of() == n);
        } else if n == 3 {
            assert((BoatKind::Jungle).ordinal_of() == n);
        } else if n == 4 {
            assert((BoatKind::Acacia).ordinal_of() == n);
        } else if n == 5 {
            assert((BoatKind::DarkOak).ordinal_of() == n);
        }
    }

    fn ordinal(&self) -> (r: u8) {
        match self {
            BoatKind::Oak => 0,
            BoatKind::Spruce => 1,
            BoatKind::Birch => 2,
            BoatKind::Jungle => 3,
            BoatKind::Acacia => 4,
            BoatKind::DarkOak => 5,
        }
    }

    fn from_ordinal(n: u8) -> (r: Option<Self>) {
        match n {
            0 => Some(BoatKind::Oak),
            1 => Some(BoatKind::Spruce),
            2 => Some(BoatKind::Birch),
            3 => Some(BoatKind::Jungle),
            4 => Some(BoatKind::Acacia),
            5 => Some(BoatKind::DarkOak),
            _ => None,
        }
    }
}

impl Default for BoatKind {
    fn default() -> (r: Self)
        ensures
            r == BoatKind::Oak,
    {
        BoatKind::Oak
    }
}

impl BoatKind {
    /// Appends the variable-length integer of this variant's position.
    pub fn encode(&self, out: &mut Vec<u8>)
        ensures
            final(out)@ == old(out)@ + ordinal_bytes(*self),
    {
        encode_ordinal(self, out)
    }

    /// The number of bytes that `encode` writes.
    pub fn encoded_len(&self) -> (r: usize)
        ensures
            r == ordinal_bytes(*self).len(),
    {
        ordinal_encoded_len(self)
    }

    /// Reads a variant from its position, written at `pos`.
    pub fn decode(buf: &[u8], pos: usize) -> (r: Result<(Self, usize), CodecError>)
        requires
            pos <= buf@.len(),
        ensures
            match r {
                Ok((v, end)) => pos < end <= buf@.len() && parse_ordinal::<Self>(buf@.skip(pos as int))
                    == Ok::<(Self, nat), CodecError>((v, (end - pos) as nat)),
                Err(e) => parse_ordinal::<Self>(buf@.skip(pos as int)) == Err::<(Self, nat), CodecError>(e),
            },
    {
        decode_ordinal(buf, pos)
    }
}

/// The coat of a cat.
#[derive(Clone, Copy, Debug, PartialEq, Eq, Structural, PartialOrd, Ord, Hash)]
pub enum CatKind {
    Tabby,
    Black,
    Red,
    Siamese,
    BritishShorthair,
    Calico,
    Persian,
    Ragdoll,
    White,
    Jellie,
    AllBlack,
}

impl OrdinalEnum for CatKind {
    open spec fn ordinal_of(self) -> nat {
        match self {
            CatKind::Tabby => 0,
            CatKind::Black => 1,
            CatKind::Red => 2,
            CatKind::Siamese => 3,
            CatKind::BritishShorthair => 4,
            CatKind::Calico => 5,
            CatKind::Persian => 6,
            CatKind::Ragdoll => 7,
            CatKind::White => 8,
            CatKind::Jellie => 9,
            CatKind::AllBlack => 10,
        }
    }

    open spec fn count() -> nat {
        11
    }

    proof fn lemma_ordinal_bound(self) {
    }

    proof fn lemma_ordinal_injective(self, other: Self) {
    }

    proof fn lemma_ordinal_onto(n: nat) {
        if n == 0 {
            assert((CatKind::Tabby).ordinal_of() == n);
        } else if n == 1 {
            assert((CatKind::Black).ordinal_of() == n);
        } else if n == 2 {
            assert((CatKind::Red).ordinal_of() == n);
        } else if n == 3 {
            assert((CatKind::Siamese).ordinal_of() == n);
        } else if n == 4 {
            assert((CatKind::BritishShorthair).ordinal_of() == n);
        } else if n == 5 {
            assert((CatKind::Calico).ordinal_of() == n);
        } else if n == 6 {
            assert((CatKind::Persian).ordinal_of() == n);
        } else if n == 7 {
            assert((CatKind::Ragdoll).ordinal_of() == n);
        } else if n == 8 {
            assert((CatKind::White).ordinal_of() == n);
        } else if n == 9 {
            assert((CatKind::Jellie).ordinal_of() == n);
        } else if n == 10 {
            assert((CatKind::AllBlack).ordinal_of() == n);
        }
    }

    fn ordinal(&self) -> (r: u8) {
        match self {
            CatKind::Tabby => 0,
            CatKind::Black => 1,
            CatKind::Red => 2,
            CatKind::Siamese => 3,
            CatKind::BritishShorthair => 4,
            CatKind::Calico => 5,
            CatKind::Persian => 6,
            CatKind::Ragdoll => 7,
            CatKind::White => 8,
            CatKind::Jellie => 9,
            CatKind::AllBlack => 10,
        }
    }

    fn from_ordinal(n: u8) -> (r: Option<Self>) {
        match n {
            0 => Some(CatKind::Tabby),
            1 => Some(CatKind::Black),
            2 => Some(CatKind::Red),
            3 => Some(CatKind::Siamese),
            4 => Some(CatKind::BritishShorthair),
            5 => Some(CatKind::Calico),
            6 => Some(CatKind::Persian),
            7 => Some(CatKind::Ragdoll),
            8 => Some(CatKind::White),
            9 => Some(CatKind::Jellie),
            10 => Some(CatKind::AllBlack),
            _ => None,
        }
    }
}

impl Default for CatKind {
    fn default() -> (r: Self)
        ensures
            r == CatKind::Black,
    {
        CatKind::Black
    }
}

impl CatKind {
    /// Appends the variable-length integer of this variant's position.
    pub fn encode(&self, out: &mut Vec<u8>)
        ensures
            final(out)@ == old(out)@ + ordinal_bytes(*self),
    {
        encode_ordinal(self, out)
    }

    /// The number of bytes that `encode` writes.
    pub fn encoded_len(&self) -> (r: usize)
        ensures
            r == ordinal_bytes(*self).len(),
    {
        ordinal_encoded_len(self)
    }

    /// Reads a variant from its position, written at `pos`.
    pub fn decode(buf: &[u8], pos: usize) -> (r: Result<(Self, usize), CodecError>)
        requires
            pos <= buf@.len(),
        ensures
            match r {
                Ok((v, end)) => pos < end <= buf@.len() && parse_ordinal::<Self>(buf@.skip(pos as int))
                    == Ok::<(Self, nat), CodecError>((v, (end - pos) as nat)),
                Err(e) => parse_ordinal::<Self>(buf@.skip(pos as int)) == Err::<(Self, nat), CodecError>(e),
            },
    {
        decode_ordinal(buf, pos)
    }
}

/// The climate variant of a frog.
#[derive(Clone, Copy, Debug, PartialEq, Eq, Structural, PartialOrd, Ord, Hash)]
pub enum FrogKind {
    Temperate,
    Warm,
    Cold,
}

impl OrdinalEnum for FrogKind {
    open spec fn ordinal_of(self) -> nat {
        match self {
            FrogKind::Temperate => 0,
            FrogKind::Warm => 1,
            FrogKind::Cold => 2,
        }
    }

    open spec fn count() -> nat {
        3
    }

    proof fn lemma_ordinal_bound(self) {
    }

    proof fn lemma_ordinal_injective(self, other: Self) {
    }

    proof fn lemma_ordinal_onto(n: nat) {
        if n == 0 {
            assert((FrogKind::Temperate).ordinal_of() == n);
        } else if n == 1 {
            assert((FrogKind::Warm).ordinal_of() == n);
        } else if n == 2 {
            assert((FrogKind::Cold).ordinal_of() == n);
        }
    }

    fn ordinal(&self) -> (r: u8) {
        match self {
            FrogKind::Temperate => 0,
            FrogKind::Warm => 1,
            FrogKind::Cold => 2,
        }
    }

    fn from_ordinal(n: u8) -> (r: Option<Self>) {
        match n {
            0 => Some(FrogKind::Temperate),
            1 => Some(FrogKind::Warm),
            2 => Some(FrogKind::Cold),
            _ => None,
        }
    }
}

impl Default for FrogKind {
    fn default() -> (r: Self)
        ensures
            r == FrogKind::Temperate,
    {
        FrogKind::Temperate
    }
}

impl FrogKind {
    /// Appends the variable-length integer of this variant's position.
    pub fn encode(&self, out: &mut Vec<u8>)
        ensures
            final(out)@ == old(out)@ + ordinal_bytes(*self),
    {
        encode_ordinal(self, out)
    }

    /// The number of bytes that `encode` writes.
    pub fn encoded_len(&self) -> (r: usize)
        ensures
            r == ordinal_bytes(*self).len(),
    {
        ordinal_encoded_len(self)
    }

    /// Reads a variant from its position, written at `pos`.
    pub fn decode(buf: &[u8], pos: usize) -> (r: Result<(Self, usize), CodecError>)
        requires
            pos <= buf@.len(),
        ensures
            match r {
                Ok((v, end)) => pos < end <= buf@.len() && parse_ordinal::<Self>(buf@.skip(pos as int))
                    == Ok::<(Self, nat), CodecError>((v, (end - pos) as nat)),
                Err(e) => parse_ordinal::<Self>(buf@.skip(pos as int)) == Err::<(Self, nat), CodecError>(e),
            },
    {
        decode_ordinal(buf, pos)
    }
}

/// The motive of a painting.
#[derive(Clone, Copy, Debug, PartialEq, Eq, Structural, PartialOrd, Ord, Hash)]
pub enum PaintingKind {
    Kebab,
    Aztec,
    Alban,
    Aztec2,
    Bomb,
    Plant,
    Wasteland,
    Pool,
    Courbet,
    Sea,
    Sunset,
    Creebet,
    Wanderer,
    Graham,
    Match,
    Bust,
    Stage,
    Void,
    SkullAndRoses,
    Wither,
    Fighters,
    Pointer,
    Pigscene,
    BurningSkull,
    Skeleton,
    Earth,
    Wind,
    Water,
    Fire,
    DonkeyKong,
}

impl OrdinalEnum for PaintingKind {
    open spec fn ordinal_of(self) -> nat {
        match self {
            PaintingKind::Kebab => 0,
            PaintingKind::Aztec => 1,
            PaintingKind::Alban => 2,
            PaintingKind::Aztec2 => 3,
            PaintingKind::Bomb => 4,
            PaintingKind::Plant => 5,
            PaintingKind::Wasteland => 6,
            PaintingKind::Pool => 7,
            PaintingKind::Courbet => 8,
            PaintingKind::Sea => 9,
            PaintingKind::Sunset => 10,
            PaintingKind::Creebet => 11,
            PaintingKind::Wanderer => 12,
            PaintingKind::Graham => 13,
            PaintingKind::Match => 14,
            PaintingKind::Bust => 15,
            PaintingKind::Stage => 16,
            PaintingKind::Void => 17,
            PaintingKind::SkullAndRoses => 18,
            PaintingKind::Wither => 19,
            PaintingKind::Fighters => 20,
            PaintingKind::Pointer => 21,
            PaintingKind::Pigscene => 22,
            PaintingKind::BurningSkull => 23,
            PaintingKind::Skeleton => 24,
            PaintingKind::Earth => 25,
            PaintingKind::Wind => 26,
            PaintingKind::Water => 27,
            PaintingKind::Fire => 28,
            PaintingKind::DonkeyKong => 29,
        }
    }

    open spec fn count() -> nat {
        30
    }

    proof fn lemma_ordinal_bound(self) {
    }

    proof fn lemma_ordinal_injective(self, other: Self) {
    }

    proof fn lemma_ordinal_onto(n: nat) {
        if n == 0 {
            assert((PaintingKind::Kebab).ordinal_of() == n);
        } else if n == 1 {
            assert((PaintingKind::Aztec).ordinal_of() == n);
        } else if n == 2 {
            assert((PaintingKind::Alban).ordinal_of() == n);
        } else if n == 3 {
            assert((PaintingKind::Aztec2).ordinal_of() == n);
        } else if n == 4 {
            assert((PaintingKind::Bomb).ordinal_of() == n);
        } else if n == 5 {
            assert((PaintingKind::Plant).ordinal_of() == n);
        } else if n == 6 {
            assert((PaintingKind::Wasteland).ordinal_of() == n);
        } else if n == 7 {
            assert((PaintingKind::Pool).ordinal_of() == n);
        } else if n == 8 {
            assert((PaintingKind::Courbet).ordinal_of() == n);
        } else if n == 9 {
            assert((PaintingKind::Sea).ordinal_of() == n);
        } else if n == 10 {
            assert((PaintingKind::Sunset).ordinal_of() == n);
        } else if n == 11 {
            assert((PaintingKind::Creebet).ordinal_of() == n);
        } else if n == 12 {
            assert((PaintingKind::Wanderer).ordinal_of() == n);
        } else if n == 13 {
            assert((PaintingKind::Graham).ordinal_of() == n);
        } else if n == 14 {
            assert((PaintingKind::Match).ordinal_of() == n);
        } else if n == 15 {
            assert((PaintingKind::Bust).ordinal_of() == n);
        } else if n == 16 {
            assert((PaintingKind::Stage).ordinal_of() == n);
        } else if n == 17 {
            assert((PaintingKind::Void).ordinal_of() == n);
        } else if n == 18 {
            assert((PaintingKind::SkullAndRoses).ordinal_of() == n);
        } else if n == 19 {
            assert((PaintingKind::Wither).ordinal_of() == n);
        } else if n == 20 {
            assert((PaintingKind::Fighters).ordinal_of() == n);
        } else if n == 21 {
            assert((PaintingKind::Pointer).ordinal_of() == n);
        } else if n == 22 {
            assert((PaintingKind::Pigscene).ordinal_of() == n);
        } else if n == 23 {
            assert((PaintingKind::BurningSkull).ordinal_of() == n);
        } else if n == 24 {
            assert((PaintingKind::Skeleton).ordinal_of() == n);
        } else if n == 25 {
            assert((PaintingKind::Earth).ordinal_of() == n);
        } else if n == 26 {
            assert((PaintingKind::Wind).ordinal_of() == n);
        } else if n == 27 {
            assert((PaintingKind::Water).ordinal_of() == n);
        } else if n == 28 {
            assert((PaintingKind::Fire).ordinal_of() == n);
        } else if n == 29 {
            assert((PaintingKind::DonkeyKong).ordinal_of() == n);
        }
    }

    fn ordinal(&self) -> (r: u8) {
        match self {
            PaintingKind::Kebab => 0,
            PaintingKind::Aztec => 1,
            PaintingKind::Alban => 2,
            PaintingKind::Aztec2 => 3,
            PaintingKind::Bomb => 4,
            PaintingKind::Plant => 5,
            PaintingKind::Wasteland => 6,
            PaintingKind::Pool => 7,
            PaintingKind::Courbet => 8,
            PaintingKind::Sea => 9,
            PaintingKind::Sunset => 10,
            PaintingKind::Creebet => 11,
            PaintingKind::Wanderer => 12,
            PaintingKind::Graham => 13,
            PaintingKind::Match => 14,
            PaintingKind::Bust => 15,
            PaintingKind::Stage => 16,
            PaintingKind::Void => 17,
            PaintingKind::SkullAndRoses => 18,
            PaintingKind::Wither => 19,
            PaintingKind::Fighters => 20,
            PaintingKind::Pointer => 21,
            PaintingKind::Pigscene => 22,
            PaintingKind::BurningSkull => 23,
            PaintingKind::Skeleton => 24,
            PaintingKind::Earth => 25,
            PaintingKind::Wind => 26,
            PaintingKind::Water => 27,
            PaintingKind::Fire => 28,
            PaintingKind::DonkeyKong => 29,
        }
    }

    fn from_ordinal(n: u8) -> (r: Option<Self>) {
        match n {
            0 => Some(PaintingKind::Kebab),
            1 => Some(PaintingKind::Aztec),
            2 => Some(PaintingKind::Alban),
            3 => Some(PaintingKind::Aztec2),
            4 => Some(PaintingKind::Bomb),
            5 => Some(PaintingKind::Plant),
            6 => Some(PaintingKind::Wasteland),
            7 => Some(PaintingKind::Pool),
            8 => Some(PaintingKind::Courbet),
            9 => Some(PaintingKind::Sea),
            10 => Some(PaintingKind::Sunset),
            11 => Some(PaintingKind::Creebet),
            12 => Some(PaintingKind::Wanderer),
            13 => Some(PaintingKind::Graham),
            14 => Some(PaintingKind::Match),
            15 => Some(PaintingKind::Bust),
            16 => Some(PaintingKind::Stage),
            17 => Some(PaintingKind::Void),
            18 => Some(PaintingKind::SkullAndRoses),
            19 => Some(PaintingKind::Wither),
            20 => Some(PaintingKind::Fighters),
            21 => Some(PaintingKind::Pointer),
            22 => Some(PaintingKind::Pigscene),
            23 => Some(PaintingKind::BurningSkull),
            24 => Some(PaintingKind::Skeleton),
            25 => Some(PaintingKind::Earth),
            26 => Some(PaintingKind::Wind),
            27 => Some(PaintingKind::Water),
            28 => Some(PaintingKind::Fire),
            29 => Some(PaintingKind::DonkeyKong),
            _ => None,
        }
    }
}

impl Default for PaintingKind {
    fn default() -> (r: Self)
        ensures
            r == PaintingKind::Kebab,
    {
        PaintingKind::Kebab
    }
}

impl PaintingKind {
    /// Appends the variable-length integer of this variant's position.
    pub fn encode(&self, out: &mut Vec<u8>)
        ensures
            final(out)@ == old(out)@ + ordinal_bytes(*self),
    {
        encode_ordinal(self, out)
    }

    /// The number of bytes that `encode` writes.
    pub fn encoded_len(&self) -> (r: usize)
        ensures
            r == ordinal_bytes(*self).len(),
    {
        ordinal_encoded_len(self)
    }

    /// Reads a variant from its position, written at `pos`.
    pub fn decode(buf: &[u8], pos: usize) -> (r: Result<(Self, usize), CodecError>)
        requires
            pos <= buf@.len(),
        ensures
            match r {
                Ok((v, end)) => pos < end <= buf@.len() && parse_ordinal::<Self>(buf@.skip(pos as int))
                    == Ok::<(Self, nat), CodecError>((v, (end - pos) as nat)),
                Err(e) => parse_ordinal::<Self>(buf@.skip(pos as int)) == Err::<(Self, nat), CodecError>(e),
            },
    {
        decode_ordinal(buf, pos)
    }
}

/// A particle kind.
#[derive(Clone, Copy, Debug, PartialEq, Eq, Structural, PartialOrd, Ord, Hash)]
pub enum Particle {
    EntityEffect,
}

impl OrdinalEnum for Particle {
    open spec fn ordinal_of(self) -> nat {
        match self {
            Particle::EntityEffect => 0,
        }
    }

    open spec fn count() -> nat {
        1
    }

    proof fn lemma_ordinal_bound(self) {
    }

    proof fn lemma_ordinal_injective(self, other: Self) {
    }

    proof fn lemma_ordinal_onto(n: nat) {
        if n == 0 {
            assert((Particle::EntityEffect).ordinal_of() == n);
        }
    }

    fn ordinal(&self) -> (r: u8) {
        match self {
            Particle::EntityEffect => 0,
        }
    }

    fn from_ordinal(n: u8) -> (r: Option<Self>) {
        match n {
            0 => Some(Particle::EntityEffect),
            _ => None,
        }
    }
}

impl Particle {
    /// Appends the variable-length integer of this variant's position.
    pub fn encode(&self, out: &mut Vec<u8>)
        ensures
            final(out)@ == old(out)@ + ordinal_bytes(*self),
    {
        encode_ordinal(self, out)
    }

    /// The number of bytes that `encode` writes.
    pub fn encoded_len(&self) -> (r: usize)
        ensures
            r == ordinal_bytes(*self).len(),
    {
        ordinal_encoded_len(self)
    }

    /// Reads a variant from its position, written at `pos`.
    pub fn decode(buf: &[u8], pos: usize) -> (r: Result<(Self, usize), CodecError>)
        requires
            pos <= buf@.len(),
        ensures
            match r {
                Ok((v, end)) => pos < end <= buf@.len() && parse_ordinal::<Self>(buf@.skip(pos as int))
                    == Ok::<(Self, nat), CodecError>((v, (end - pos) as nat)),
                Err(e) => parse_ordinal::<Self>(buf@.skip(pos as int)) == Err::<(Self, nat), CodecError>(e),
            },
    {
        decode_ordinal(buf, pos)
    }
}
} // verus!
