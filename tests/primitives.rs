use wirecodec::error::CodecError;
use wirecodec::string::BoundedString;
use wirecodec::types::{
    BoatKind, CatKind, EulerAngle, Facing, FrogKind, MainArm, OptionalInt, PaintingKind, Particle,
    Pose, VillagerData, VillagerKind, VillagerProfession,
};
use wirecodec::varint::VarInt;

fn varint_bytes(n: i32) -> Vec<u8> {
    let mut out = Vec::new();
    VarInt(n).encode(&mut out);
    out
}

#[test]
fn varint_known_encodings() {
    assert_eq!(varint_bytes(0), vec![0x00]);
    assert_eq!(varint_bytes(1), vec![0x01]);
    assert_eq!(varint_bytes(127), vec![0x7f]);
    assert_eq!(varint_bytes(128), vec![0x80, 0x01]);
    assert_eq!(varint_bytes(255), vec![0xff, 0x01]);
    assert_eq!(varint_bytes(25565), vec![0xdd, 0xc7, 0x01]);
    assert_eq!(varint_bytes(i32::MAX), vec![0xff, 0xff, 0xff, 0xff, 0x07]);
    assert_eq!(varint_bytes(-1), vec![0xff, 0xff, 0xff, 0xff, 0x0f]);
    assert_eq!(varint_bytes(i32::MIN), vec![0x80, 0x80, 0x80, 0x80, 0x08]);
}

#[test]
fn varint_round_trip_and_minimal() {
    let values = [0, 1, -1, 63, 64, 127, 128, 16383, 16384, 2097151, 2097152, 268435455, 268435456, i32::MAX, i32::MIN, -12345];
    for &n in values.iter() {
        let mut bytes = varint_bytes(n);
        assert!(bytes.len() >= 1 && bytes.len() <= 5);
        if bytes.len() > 1 {
            assert_ne!(*bytes.last().unwrap(), 0);
        }
        assert_eq!(VarInt(n).encoded_len(), bytes.len());
        let len = bytes.len();
        bytes.push(0x42);
        assert_eq!(VarInt::decode(&bytes, 0), Ok((VarInt(n), len)));
    }
}

#[test]
fn varint_decode_at_offset() {
    let bytes = vec![0x09, 0x80, 0x01, 0x05];
    assert_eq!(VarInt::decode(&bytes, 1), Ok((VarInt(128), 3)));
    assert_eq!(VarInt::decode(&bytes, 3), Ok((VarInt(5), 4)));
}

#[test]
fn varint_decode_errors() {
    assert_eq!(VarInt::decode(&[], 0), Err(CodecError::Truncated));
    assert_eq!(VarInt::decode(&[0x80, 0x80], 0), Err(CodecError::Truncated));
    assert_eq!(VarInt::decode(&[0x80, 0x80, 0x80, 0x80, 0x80, 0x01], 0), Err(CodecError::MalformedVarInt));
}

#[test]
fn varint_decode_accepts_padding() {
    assert_eq!(VarInt::decode(&[0x80, 0x00], 0), Ok((VarInt(0), 2)));
}

#[test]
fn string_too_long_is_rejected() {
    let s: BoundedString<0, 5> = BoundedString("toolong".to_string());
    let mut out = vec![7u8];
    assert_eq!(s.encode(&mut out), Err(CodecError::StringLengthOutOfBounds));
    assert_eq!(out, vec![7u8]);
}

#[test]
fn string_too_short_is_rejected() {
    let s: BoundedString<2, 5> = BoundedString("a".to_string());
    let mut out = Vec::new();
    assert_eq!(s.encode(&mut out), Err(CodecError::StringLengthOutOfBounds));
    assert!(out.is_empty());
}

#[test]
fn string_bounds_count_characters_not_bytes() {
    let s: BoundedString<0, 3> = BoundedString("héé".to_string());
    let mut out = Vec::new();
    assert_eq!(s.encode(&mut out), Ok(()));
    assert_eq!(out, vec![5, b'h', 0xc3, 0xa9, 0xc3, 0xa9]);
    assert_eq!(BoundedString::<0, 3>::decode(&out, 0), Ok((s, 6)));
}

#[test]
fn string_round_trip() {
    for text in ["", "say", "hello world", "日本語", "emoji 🎉"].iter() {
        let s: BoundedString<0, 32767> = BoundedString(text.to_string());
        let mut out = Vec::new();
        assert_eq!(s.encode(&mut out), Ok(()));
        let len = out.len();
        out.extend_from_slice(&[1, 2, 3]);
        assert_eq!(BoundedString::<0, 32767>::decode(&out, 0), Ok((s, len)));
    }
}

#[test]
fn string_decode_errors() {
    assert_eq!(BoundedString::<0, 10>::decode(&[2, 0xff, 0xfe], 0), Err(CodecError::InvalidUtf8));
    assert_eq!(BoundedString::<0, 10>::decode(&[3, b'a', b'b'], 0), Err(CodecError::Truncated));
    assert_eq!(BoundedString::<0, 2>::decode(&[3, b'a', b'b', b'c'], 0), Err(CodecError::StringLengthOutOfBounds));
    assert_eq!(BoundedString::<0, 2>::decode(&[0xff, 0xff, 0xff, 0xff, 0x0f], 0), Err(CodecError::NegativeLength));
    assert_eq!(BoundedString::<0, 2>::decode(&[], 0), Err(CodecError::Truncated));
}

#[test]
fn optional_int_sentinel_edges() {
    let none = OptionalInt::new(None).unwrap();
    let mut out = Vec::new();
    none.encode(&mut out);
    assert_eq!(out, vec![0x00]);
    assert_eq!(none.get(), None);

    let zero = OptionalInt::new(Some(0)).unwrap();
    let mut out = Vec::new();
    zero.encode(&mut out);
    assert_eq!(out, vec![0x01]);
    assert_eq!(zero.get(), Some(0));

    assert_eq!(OptionalInt::new(Some(u32::MAX)), None);
}

#[test]
fn optional_int_round_trip() {
    for v in [None, Some(0u32), Some(1), Some(126), Some(127), Some(300), Some(i32::MAX as u32), Some(u32::MAX - 1)].iter() {
        let o = OptionalInt::new(*v).unwrap();
        assert_eq!(o.get(), *v);
        let mut out = Vec::new();
        o.encode(&mut out);
        assert_eq!(o.encoded_len(), out.len());
        let (back, end) = OptionalInt::decode(&out, 0).unwrap();
        assert_eq!(end, out.len());
        assert_eq!(back, o);
        assert_eq!(back.get(), *v);
    }
}

#[test]
fn optional_int_largest_present_value() {
    let o = OptionalInt::new(Some(u32::MAX - 1)).unwrap();
    let mut out = Vec::new();
    o.encode(&mut out);
    assert_eq!(out, vec![0xff, 0xff, 0xff, 0xff, 0x0f]);
}

#[test]
fn enum_ordinal_boundary() {
    assert_eq!(Facing::decode(&[6], 0), Err(CodecError::InvalidEnumOrdinal));
    assert_eq!(Facing::decode(&[5], 0), Ok((Facing::East, 1)));
    assert_eq!(PaintingKind::decode(&[30], 0), Err(CodecError::InvalidEnumOrdinal));
    assert_eq!(PaintingKind::decode(&[29], 0), Ok((PaintingKind::DonkeyKong, 1)));
    assert_eq!(Pose::decode(&[14], 0), Err(CodecError::InvalidEnumOrdinal));
    assert_eq!(Pose::decode(&[13], 0), Ok((Pose::Digging, 1)));
    assert_eq!(CatKind::decode(&[11], 0), Err(CodecError::InvalidEnumOrdinal));
    assert_eq!(CatKind::decode(&[10], 0), Ok((CatKind::AllBlack, 1)));
    assert_eq!(FrogKind::decode(&[3], 0), Err(CodecError::InvalidEnumOrdinal));
    assert_eq!(BoatKind::decode(&[5], 0), Ok((BoatKind::DarkOak, 1)));
    assert_eq!(Particle::decode(&[1], 0), Err(CodecError::InvalidEnumOrdinal));
    assert_eq!(Particle::decode(&[0], 0), Ok((Particle::EntityEffect, 1)));
    assert_eq!(Facing::decode(&[0xff, 0xff, 0xff, 0xff, 0x0f], 0), Err(CodecError::InvalidEnumOrdinal));
    assert_eq!(Facing::decode(&[0x80], 0), Err(CodecError::Truncated));
}

#[test]
fn enum_encodings() {
    let mut out = Vec::new();
    Facing::North.encode(&mut out);
    Pose::Sneaking.encode(&mut out);
    CatKind::Black.encode(&mut out);
    PaintingKind::Kebab.encode(&mut out);
    Particle::EntityEffect.encode(&mut out);
    assert_eq!(out, vec![2, 5, 1, 0, 0]);
    assert_eq!(FrogKind::Cold.encoded_len(), 1);
}

#[test]
fn enum_round_trip() {
    let faces = [Facing::Down, Facing::Up, Facing::North, Facing::South, Facing::West, Facing::East];
    for f in faces.iter() {
        let mut out = Vec::new();
        f.encode(&mut out);
        assert_eq!(Facing::decode(&out, 0), Ok((*f, 1)));
    }
    let mut out = Vec::new();
    PaintingKind::BurningSkull.encode(&mut out);
    assert_eq!(PaintingKind::decode(&out, 0), Ok((PaintingKind::BurningSkull, 1)));
}

#[test]
fn main_arm_is_one_raw_byte() {
    let mut out = Vec::new();
    MainArm::Left.encode(&mut out);
    MainArm::Right.encode(&mut out);
    assert_eq!(out, vec![0, 1]);
    assert_eq!(MainArm::Right.encoded_len(), 1);
    assert_eq!(MainArm::decode(&out, 1), Ok((MainArm::Right, 2)));
    assert_eq!(MainArm::decode(&[2], 0), Err(CodecError::InvalidEnumOrdinal));
    assert_eq!(MainArm::decode(&[], 0), Err(CodecError::Truncated));
    assert_eq!(MainArm::default(), MainArm::Right);
}

#[test]
fn villager_data_default_and_encoding() {
    let d = VillagerData::default();
    assert_eq!(d.level, 1);
    assert_eq!(d.kind, VillagerKind::Plains);
    assert_eq!(d.profession, VillagerProfession::NoProfession);
    let mut out = Vec::new();
    d.encode(&mut out);
    assert_eq!(out, vec![2, 0, 1]);
    assert_eq!(d.encoded_len(), 3);

    let d = VillagerData::new(VillagerKind::Taiga, VillagerProfession::Weaponsmith, 300);
    let mut out = Vec::new();
    d.encode(&mut out);
    assert_eq!(out, vec![6, 14, 0xac, 0x02]);
    assert_eq!(d.encoded_len(), 4);
}

#[test]
fn euler_angle_encoding() {
    let a = EulerAngle::new(1.0f32.to_bits(), (-2.5f32).to_bits(), 0.0f32.to_bits());
    let mut out = Vec::new();
    a.encode(&mut out);
    assert_eq!(out, vec![0x3f, 0x80, 0, 0, 0xc0, 0x20, 0, 0, 0, 0, 0, 0]);
    assert_eq!(a.encoded_len(), 12);
}
