use wirecodec::error::CodecError;
use wirecodec::node::{Argument, Literal, Node, NodeData, Parser};
use wirecodec::parser::{BrigadierFloat, BrigadierInteger, BrigadierLong};
use wirecodec::string::BoundedString;
use wirecodec::varint::VarInt;

fn name(s: &str) -> BoundedString<0, 32767> {
    BoundedString(s.to_string())
}

fn encode(node: &Node) -> Vec<u8> {
    let mut out = Vec::new();
    node.encode(&mut out).unwrap();
    out
}

#[test]
fn literal_say_scenario() {
    let node = Node {
        children: vec![],
        data: NodeData::Literal(Literal { name: name("say") }),
        is_executable: false,
        redirect_node: None,
    };
    let bytes = encode(&node);
    assert_eq!(bytes, vec![0x01, 0x00, 0x03, b's', b'a', b'y']);
    assert_eq!(Node::decode(&bytes, 0), Ok((node, 6)));
}

#[test]
fn integer_parser_scenario() {
    let p = BrigadierInteger { min: Some(0), max: None };
    let mut out = Vec::new();
    p.encode(&mut out);
    assert_eq!(out, vec![0x01, 0x00, 0x00, 0x00, 0x00]);
    assert_eq!(BrigadierInteger::decode(&out, 0), Ok((BrigadierInteger { min: Some(0), max: None }, 5)));
}

#[test]
fn integer_parser_both_bounds() {
    let p = BrigadierInteger { min: Some(-1), max: Some(258) };
    let mut out = Vec::new();
    p.encode(&mut out);
    assert_eq!(out, vec![0x03, 0xff, 0xff, 0xff, 0xff, 0x00, 0x00, 0x01, 0x02]);
    assert_eq!(BrigadierInteger::decode(&out, 0), Ok((p, 9)));
}

#[test]
fn integer_parser_max_only() {
    let p = BrigadierInteger { min: None, max: Some(i32::MIN) };
    let mut out = Vec::new();
    p.encode(&mut out);
    assert_eq!(out, vec![0x02, 0x80, 0x00, 0x00, 0x00]);
    assert_eq!(BrigadierInteger::decode(&out, 0), Ok((p, 5)));
}

#[test]
fn long_parser_round_trip() {
    let p = BrigadierLong { min: Some(i64::MIN), max: Some(0x0102030405060708) };
    let mut out = Vec::new();
    p.encode(&mut out);
    assert_eq!(
        out,
        vec![0x03, 0x80, 0, 0, 0, 0, 0, 0, 0, 0x01, 0x02, 0x03, 0x04, 0x05, 0x06, 0x07, 0x08]
    );
    assert_eq!(BrigadierLong::decode(&out, 0), Ok((p, 17)));
    let empty = BrigadierLong { min: None, max: None };
    let mut out = Vec::new();
    empty.encode(&mut out);
    assert_eq!(out, vec![0x00]);
    assert_eq!(BrigadierLong::decode(&out, 0), Ok((empty, 1)));
}

#[test]
fn float_parser_round_trip() {
    let p = BrigadierFloat { min: None, max: Some(1.5f32.to_bits()) };
    let mut out = Vec::new();
    p.encode(&mut out);
    assert_eq!(out, vec![0x02, 0x3f, 0xc0, 0x00, 0x00]);
    assert_eq!(BrigadierFloat::decode(&out, 0), Ok((p, 5)));
}

#[test]
fn range_parser_truncated() {
    assert_eq!(BrigadierInteger::decode(&[], 0), Err(CodecError::Truncated));
    assert_eq!(BrigadierInteger::decode(&[0x01, 0x00, 0x00], 0), Err(CodecError::Truncated));
    assert_eq!(BrigadierLong::decode(&[0x02, 0, 0, 0, 0], 0), Err(CodecError::Truncated));
    assert_eq!(BrigadierFloat::decode(&[0x03, 0, 0, 0, 0, 0], 0), Err(CodecError::Truncated));
}

#[test]
fn parser_union_round_trip() {
    let parsers = [
        Parser::BrigadierBool,
        Parser::BrigadierFloat(BrigadierFloat { min: Some(0.25f32.to_bits()), max: None }),
        Parser::BrigadierInteger(BrigadierInteger { min: Some(1), max: Some(64) }),
        Parser::BrigadierLong(BrigadierLong { min: None, max: Some(-5) }),
    ];
    let ids = [0u8, 1, 3, 4];
    for (p, id) in parsers.iter().zip(ids.iter()) {
        let mut out = Vec::new();
        p.encode(&mut out);
        assert_eq!(out[0], *id);
        assert_eq!(Parser::decode(&out, 0), Ok((*p, out.len())));
    }
}

#[test]
fn parser_unknown_id() {
    assert_eq!(Parser::decode(&[2, 0], 0), Err(CodecError::InvalidParserId));
    assert_eq!(Parser::decode(&[5], 0), Err(CodecError::InvalidParserId));
}

#[test]
fn argument_node_with_everything() {
    let node = Node {
        children: vec![VarInt(1), VarInt(300)],
        data: NodeData::Argument(Argument {
            name: name("count"),
            parser: Parser::BrigadierInteger(BrigadierInteger { min: Some(1), max: None }),
            suggestions_type: Some(name("minecraft:ask_server")),
        }),
        is_executable: true,
        redirect_node: Some(VarInt(7)),
    };
    let bytes = encode(&node);
    let mut expected = vec![0x02 | 0x04 | 0x08 | 0x10, 0x02, 0x01, 0xac, 0x02, 0x07, 0x05];
    expected.extend_from_slice(b"count");
    expected.extend_from_slice(&[0x03, 0x01, 0x00, 0x00, 0x00, 0x01, 20]);
    expected.extend_from_slice(b"minecraft:ask_server");
    assert_eq!(bytes, expected);
    assert_eq!(Node::decode(&bytes, 0), Ok((node, bytes.len())));
}

#[test]
fn argument_node_without_suggestions() {
    let node = Node {
        children: vec![],
        data: NodeData::Argument(Argument {
            name: name("flag"),
            parser: Parser::BrigadierBool,
            suggestions_type: None,
        }),
        is_executable: true,
        redirect_node: None,
    };
    let mut bytes = encode(&node);
    assert_eq!(bytes, vec![0x06, 0x00, 0x04, b'f', b'l', b'a', b'g', 0x00]);
    let len = bytes.len();
    bytes.extend_from_slice(&[0x03, b'x', b'y', b'z']);
    let (decoded, end) = Node::decode(&bytes, 0).unwrap();
    assert_eq!(end, len);
    assert_eq!(decoded, node);
}

#[test]
fn root_node_ignores_suggestions_bit() {
    let bytes = vec![0x10, 0x01, 0x02];
    let (node, end) = Node::decode(&bytes, 0).unwrap();
    assert_eq!(end, 3);
    assert_eq!(node.data, NodeData::Root);
    assert_eq!(node.children, vec![VarInt(2)]);
    assert!(!node.is_executable);
    assert_eq!(node.redirect_node, None);
}

#[test]
fn root_node_round_trip() {
    let node = Node { children: vec![VarInt(1), VarInt(2), VarInt(3)], data: NodeData::Root, is_executable: false, redirect_node: None };
    let bytes = encode(&node);
    assert_eq!(bytes, vec![0x00, 0x03, 0x01, 0x02, 0x03]);
    assert_eq!(Node::decode(&bytes, 0), Ok((node, 5)));
}

#[test]
fn node_decode_errors() {
    assert_eq!(Node::decode(&[0x03, 0x00], 0), Err(CodecError::InvalidNodeVariant));
    assert_eq!(Node::decode(&[], 0), Err(CodecError::Truncated));
    assert_eq!(Node::decode(&[0x01, 0x00, 0x05, b'a'], 0), Err(CodecError::Truncated));
    assert_eq!(Node::decode(&[0x00, 0x02, 0x01], 0), Err(CodecError::Truncated));
    assert_eq!(Node::decode(&[0x08, 0x00], 0), Err(CodecError::Truncated));
    assert_eq!(Node::decode(&[0x00, 0xff, 0xff, 0xff, 0xff, 0x0f], 0), Err(CodecError::NegativeLength));
    assert_eq!(Node::decode(&[0x02, 0x00, 0x01, b'a', 0x09], 0), Err(CodecError::InvalidParserId));
}

#[test]
fn node_encode_rejects_long_name() {
    let node = Node {
        children: vec![],
        data: NodeData::Literal(Literal { name: name(&"x".repeat(32768)) }),
        is_executable: false,
        redirect_node: None,
    };
    let mut out = vec![9u8];
    assert_eq!(node.encode(&mut out), Err(CodecError::StringLengthOutOfBounds));
    assert_eq!(out, vec![9u8]);
}

#[test]
fn mut_name_changes_only_the_name() {
    let mut node = Node {
        children: vec![VarInt(4)],
        data: NodeData::Literal(Literal { name: name("tp") }),
        is_executable: true,
        redirect_node: None,
    };
    *node.mut_name() = name("teleport");
    assert_eq!(node.data, NodeData::Literal(Literal { name: name("teleport") }));
    assert_eq!(node.children, vec![VarInt(4)]);
    assert!(node.is_executable);
}

#[test]
fn conversions_into_node_data_and_parser() {
    let lit = Literal { name: name("give") };
    assert_eq!(NodeData::from(lit.clone()), NodeData::Literal(lit));
    let range = BrigadierInteger { min: None, max: Some(9) };
    assert_eq!(Parser::from(range), Parser::BrigadierInteger(range));
    let long = BrigadierLong { min: Some(1), max: None };
    assert_eq!(Parser::from(long), Parser::BrigadierLong(long));
}
