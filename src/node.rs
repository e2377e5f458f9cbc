use vstd::prelude::*;

use crate::bytes::append_bytes;
use crate::error::CodecError;
use crate::parser::{
    float_range_bytes, integer_range_bytes, lemma_float_range_round_trip,
    lemma_integer_range_round_trip, lemma_long_range_round_trip, long_range_bytes,
    parse_float_range, parse_integer_range, parse_long_range, BrigadierFloat, BrigadierInteger,
    BrigadierLong,
};
use crate::string::{lemma_string_round_trip, parse_string, string_bytes, BoundedString};
use crate::varint::{lemma_varint_round_trip, parse_varint, varint_bytes, VarInt};

verus! {

/// The longest name, in characters, that a node may carry.
pub const NAME_MAX: usize = 32767;

/// The argument validator that a client applies to an argument node.
#[derive(Clone, Copy, Debug, PartialEq, Eq, Structural)]
pub enum Parser {
    BrigadierBool,
    BrigadierFloat(BrigadierFloat),
    BrigadierInteger(BrigadierInteger),
    BrigadierLong(BrigadierLong),
}

/// The wire form of a parser: its identifier, then its payload.
pub open spec fn parser_bytes(p: Parser) -> Seq<u8> {
    match p {
        Parser::BrigadierBool => varint_bytes(0),
        Parser::BrigadierFloat(f) => varint_bytes(1) + float_range_bytes(f),
        Parser::BrigadierInteger(i) => varint_bytes(3) + integer_range_bytes(i),
        Parser::BrigadierLong(l) => varint_bytes(4) + long_range_bytes(l),
    }
}

/// Reads a parser from the front of `s`: the parser and the bytes it took.
pub open spec fn parse_parser(s: Seq<u8>) -> Result<(Parser, nat), CodecError> {
    match parse_varint(s) {
        Err(e) => Err(e),
        Ok((id, n)) => {
            let t = s.skip(n as int);
            if id == 0 {
                Ok((Parser::BrigadierBool, n))
            } else if id == 1 {
                match parse_float_range(t) {
                    Ok((f, m)) => Ok((Parser::BrigadierFloat(f), n + m)),
                    Err(e) => Err(e),
                }
            } else if id == 3 {
                match parse_integer_range(t) {
                    Ok((i, m)) => Ok((Parser::BrigadierInteger(i), n + m)),
                    Err(e) => Err(e),
                }
            } else if id == 4 {
                match parse_long_range(t) {
                    Ok((l, m)) => Ok((Parser::BrigadierLong(l), n + m)),
                    Err(e) => Err(e),
                }
            } else {
                Err(CodecError::InvalidParserId)
            }
        },
    }
}

/// Decoding an encoded parser gives it back and takes exactly its bytes.
pub proof fn lemma_parser_round_trip(p: Parser, rest: Seq<u8>)
    ensures
        parse_parser(parser_bytes(p) + rest) == Ok::<(Parser, nat), CodecError>((p, parser_bytes(p).len())),
{
    match p {
        Parser::BrigadierBool => {
            lemma_varint_round_trip(0, rest);
        },
        Parser::BrigadierFloat(f) => {
            let b = float_range_bytes(f);
            assert(parser_bytes(p) + rest =~= varint_bytes(1) + (b + rest));
            lemma_varint_round_trip(1, b + rest);
            assert((parser_bytes(p) + rest).skip(varint_bytes(1).len() as int) =~= b + rest);
            lemma_float_range_round_trip(f, rest);
        },
        Parser::BrigadierInteger(i) => {
            let b = integer_range_bytes(i);
            assert(parser_bytes(p) + rest =~= varint_bytes(3) + (b + rest));
            lemma_varint_round_trip(3, b + rest);
            assert((parser_bytes(p) + rest).skip(varint_bytes(3).len() as int) =~= b + rest);
            lemma_integer_range_round_trip(i, rest);
        },
        Parser::BrigadierLong(l) => {
            let b = long_range_bytes(l);
            assert(parser_bytes(p) + rest =~= varint_bytes(4) + (b + rest));
            lemma_varint_round_trip(4, b + rest);
            assert((parser_bytes(p) + rest).skip(varint_bytes(4).len() as int) =~= b + rest);
            lemma_long_range_round_trip(l, rest);
        },
    }
}

impl Parser {
    /// Appends the identifier and the payload of this parser.
    pub fn encode(&self, out: &mut Vec<u8>)
        ensures
            final(out)@ == old(out)@ + parser_bytes(*self),
    {
        let ghost start = out@;
        match self {
            Parser::BrigadierBool => {
                VarInt(0).encode(out);
            },
            Parser::BrigadierFloat(f) => {
                VarInt(1).encode(out);
                f.encode(out);
            },
            Parser::BrigadierInteger(i) => {
                VarInt(3).encode(out);
                i.encode(out);
            },
            Parser::BrigadierLong(l) => {
                VarInt(4).encode(out);
                l.encode(out);
            },
        }
        assert(out@ =~= start + parser_bytes(*self));
    }

    /// Reads a parser that starts at `pos`; on success, returns it with the
    /// position just past it.
    pub fn decode(buf: &[u8], pos: usize) -> (r: Result<(Parser, usize), CodecError>)
        requires
            pos <= buf@.len(),
        ensures
            match r {
                Ok((v, end)) => pos < end <= buf@.len() && parse_parser(buf@.skip(pos as int))
                    == Ok::<(Parser, nat), CodecError>((v, (end - pos) as nat)),
                Err(e) => parse_parser(buf@.skip(pos as int)) == Err::<(Parser, nat), CodecError>(e),
            },
    {
        let ghost s = buf@.skip(pos as int);
        let (id, p) = match VarInt::decode(buf, pos) {
            Ok(t) => t,
            Err(e) => return Err(e),
        };
        assert(s.skip(p - pos) =~= buf@.skip(p as int));
        if id.0 == 0 {
            Ok((Parser::BrigadierBool, p))
        } else if id.0 == 1 {
            match BrigadierFloat::decode(buf, p) {
                Ok((f, end)) => Ok((Parser::BrigadierFloat(f), end)),
                Err(e) => Err(e),
            }
        } else if id.0 == 3 {
            match BrigadierInteger::decode(buf, p) {
                Ok((i, end)) => Ok((Parser::BrigadierInteger(i), end)),
                Err(e) => Err(e),
            }
        } else if id.0 == 4 {
            match BrigadierLong::decode(buf, p) {
                Ok((l, end)) => Ok((Parser::BrigadierLong(l), end)),
                Err(e) => Err(e),
            }
        } else {
            Err(CodecError::InvalidParserId)
        }
    }
}

/// A literal node: a fixed word of a command.
#[derive(Clone, Debug, PartialEq, Eq)]
pub struct Literal {
    pub name: BoundedString<0, 32767>,
}

/// An argument node: a named value checked by a parser, with an optional
/// identifier of the suggestions the client should offer.
#[derive(Clone, Debug, PartialEq, Eq)]
pub struct Argument {
    pub name: BoundedString<0, 32767>,
    pub parser: Parser,
    pub suggestions_type: Option<BoundedString<0, 32767>>,
}

/// What a node is: the root of the graph, a literal or an argument.
#[derive(Clone, Debug, PartialEq, Eq)]
pub enum NodeData {
    Root,
    Literal(Literal),
    Argument(Argument),
}

/// One node of a command graph. Children and redirect target are indices
/// of other nodes in the same graph.
#[derive(Clone, Debug, PartialEq, Eq)]
pub struct Node {
    pub children: Vec<VarInt>,
    pub data: NodeData,
    pub is_executable: bool,
    pub redirect_node: Option<VarInt>,
}

impl From<Literal> for NodeData {
    fn from(v: Literal) -> (r: NodeData)
        ensures
            r == NodeData::Literal(v),
    {
        NodeData::Literal(v)
    }
}

impl vstd::std_specs::convert::FromSpecImpl<Literal> for NodeData {
    open spec fn obeys_from_spec() -> bool {
        true
    }

    open spec fn from_spec(v: Literal) -> NodeData {
        NodeData::Literal(v)
    }
}

impl From<Argument> for NodeData {
    fn from(v: Argument) -> (r: NodeData)
        ensures
            r == NodeData::Argument(v),
    {
        NodeData::Argument(v)
    }
}

impl vstd::std_specs::convert::FromSpecImpl<Argument> for NodeData {
    open spec fn obeys_from_spec() -> bool {
        true
    }

    open spec fn from_spec(v: Argument) -> NodeData {
        NodeData::Argument(v)
    }
}

impl From<BrigadierFloat> for Parser {
    fn from(v: BrigadierFloat) -> (r: Parser)
        ensures
            r == Parser::BrigadierFloat(v),
    {
        Parser::BrigadierFloat(v)
    }
}

impl vstd::std_specs::convert::FromSpecImpl<BrigadierFloat> for Parser {
    open spec fn obeys_from_spec() -> bool {
        true
    }

    open spec fn from_spec(v: BrigadierFloat) -> Parser {
        Parser::BrigadierFloat(v)
    }
}

impl From<BrigadierInteger> for Parser {
    fn from(v: BrigadierInteger) -> (r: Parser)
        ensures
            r == Parser::BrigadierInteger(v),
    {
        Parser::BrigadierInteger(v)
    }
}

impl vstd::std_specs::convert::FromSpecImpl<BrigadierInteger> for Parser {
    open spec fn obeys_from_spec() -> bool {
        true
    }

    open spec fn from_spec(v: BrigadierInteger) -> Parser {
        Parser::BrigadierInteger(v)
    }
}

impl From<BrigadierLong> for Parser {
    fn from(v: BrigadierLong) -> (r: Parser)
        ensures
            r == Parser::BrigadierLong(v),
    {
        Parser::BrigadierLong(v)
    }
}

impl vstd::std_specs::convert::FromSpecImpl<BrigadierLong> for Parser {
    open spec fn obeys_from_spec() -> bool {
        true
    }

    open spec fn from_spec(v: BrigadierLong) -> Parser {
        Parser::BrigadierLong(v)
    }
}

/// The abstract content of a node's payload.
pub enum NodeDataModel {
    Root,
    Literal { name: Seq<char> },
    Argument { name: Seq<char>, parser: Parser, suggestions_type: Option<Seq<char>> },
}

/// The abstract content of a node.
pub struct NodeModel {
    pub children: Seq<VarInt>,
    pub data: NodeDataModel,
    pub is_executable: bool,
    pub redirect_node: Option<VarInt>,
}

impl View for NodeData {
    type V = NodeDataModel;

    open spec fn view(&self) -> NodeDataModel {
        match self {
            NodeData::Root => NodeDataModel::Root,
            NodeData::Literal(l) => NodeDataModel::Literal { name: l.name@ },
            NodeData::Argument(a) => NodeDataModel::Argument {
                name: a.name@,
                parser: a.parser,
                suggestions_type: match a.suggestions_type {
                    Some(t) => Some(t@),
                    None => None,
                },
            },
        }
    }
}

impl View for Node {
    type V = NodeModel;

    open spec fn view(&self) -> NodeModel {
        NodeModel {
            children: self.children@,
            data: self.data@,
            is_executable: self.is_executable,
            redirect_node: self.redirect_node,
        }
    }
}

/// The variant tag of a payload: 0 for root, 1 for literal, 2 for argument.
pub open spec fn data_tag(d: NodeDataModel) -> nat {
    match d {
        NodeDataModel::Root => 0,
        NodeDataModel::Literal { .. } => 1,
        NodeDataModel::Argument { .. } => 2,
    }
}

/// Whether a payload is an argument that names a suggestions type.
pub open spec fn has_suggestions(d: NodeDataModel) -> bool {
    d matches NodeDataModel::Argument { suggestions_type: Some(_), .. }
}

/// A node's flags byte: the variant tag in bits 0 and 1, then one bit each
/// for executable, redirect present and suggestions type present.
pub open spec fn node_flags(n: NodeModel) -> u8 {
    (data_tag(n.data) + (if n.is_executable { 4int } else { 0int }) + (if n.redirect_node is Some {
        8int
    } else {
        0int
    }) + (if has_suggestions(n.data) { 16int } else { 0int })) as u8
}

/// Whether the bit of `flags` whose value is `mask` (a power of two) is set.
pub open spec fn flag_set(flags: u8, mask: nat) -> bool {
    (flags as nat / mask) % 2 == 1
}

/// The variable-length integers of `cs`, one after another.
pub open spec fn varints_bytes(cs: Seq<VarInt>) -> Seq<u8>
    decreases cs.len(),
{
    if cs.len() == 0 {
        Seq::empty()
    } else {
        varint_bytes(cs[0].0) + varints_bytes(cs.drop_first())
    }
}

/// Reads `k` variable-length integers from the front of `s`.
pub open spec fn parse_varints(s: Seq<u8>, k: nat) -> Result<(Seq<VarInt>, nat), CodecError>
    decreases k,
{
    if k == 0 {
        Ok((Seq::empty(), 0))
    } else {
        match parse_varint(s) {
            Err(e) => Err(e),
            Ok((v, n)) => match parse_varints(s.skip(n as int), (k - 1) as nat) {
                Err(e) => Err(e),
                Ok((vs, m)) => Ok((seq![VarInt(v)] + vs, n + m)),
            },
        }
    }
}

/// The wire form of a child list: its count, then each index.
pub open spec fn children_bytes(cs: Seq<VarInt>) -> Seq<u8> {
    varint_bytes(cs.len() as i32) + varints_bytes(cs)
}

/// Reads a child list from the front of `s`.
pub open spec fn parse_children(s: Seq<u8>) -> Result<(Seq<VarInt>, nat), CodecError> {
    match parse_varint(s) {
        Err(e) => Err(e),
        Ok((k, n)) => {
            if k < 0 {
                Err(CodecError::NegativeLength)
            } else {
                match parse_varints(s.skip(n as int), k as nat) {
                    Err(e) => Err(e),
                    Ok((cs, m)) => Ok((cs, n + m)),
                }
            }
        },
    }
}

/// The wire form of an optional index: nothing when absent.
pub open spec fn opt_varint_bytes(v: Option<VarInt>) -> Seq<u8> {
    match v {
        Some(x) => varint_bytes(x.0),
        None => Seq::empty(),
    }
}

/// The wire form of an optional string: nothing when absent.
pub open spec fn opt_string_bytes(v: Option<Seq<char>>) -> Result<Seq<u8>, CodecError> {
    match v {
        Some(t) => string_bytes(t, 0, NAME_MAX as nat),
        None => Ok(Seq::empty()),
    }
}

/// The wire form of a payload.
pub open spec fn data_bytes(d: NodeDataModel) -> Result<Seq<u8>, CodecError> {
    match d {
        NodeDataModel::Root => Ok(Seq::empty()),
        NodeDataModel::Literal { name } => string_bytes(name, 0, NAME_MAX as nat),
        NodeDataModel::Argument { name, parser, suggestions_type } => match string_bytes(
            name,
            0,
            NAME_MAX as nat,
        ) {
            Err(e) => Err(e),
            Ok(b) => match opt_string_bytes(suggestions_type) {
                Err(e) => Err(e),
                Ok(c) => Ok(b + parser_bytes(parser) + c),
            },
        },
    }
}

/// Whether a node can be written: its child count fits the count prefix.
pub open spec fn node_encodable(n: NodeModel) -> bool {
    n.children.len() <= i32::MAX
}

/// The wire form of a node: flags, children, the redirect index if any,
/// then the payload. Fails when a name is out of its bounds.
pub open spec fn node_bytes(n: NodeModel) -> Result<Seq<u8>, CodecError> {
    match data_bytes(n.data) {
        Err(e) => Err(e),
        Ok(d) => Ok(
            seq![node_flags(n)] + children_bytes(n.children) + opt_varint_bytes(n.redirect_node) + d,
        ),
    }
}

/// Reads the payload that `flags` announces from the front of `s`.
pub open spec fn parse_data(s: Seq<u8>, flags: u8) -> Result<(NodeDataModel, nat), CodecError> {
    let tag = flags % 4;
    if tag == 0 {
        Ok((NodeDataModel::Root, 0))
    } else if tag == 1 {
        match parse_string(s, 0, NAME_MAX as nat) {
            Err(e) => Err(e),
            Ok((name, n)) => Ok((NodeDataModel::Literal { name }, n)),
        }
    } else if tag == 2 {
        match parse_string(s, 0, NAME_MAX as nat) {
            Err(e) => Err(e),
            Ok((name, n)) => match parse_parser(s.skip(n as int)) {
                Err(e) => Err(e),
                Ok((parser, m)) => if flag_set(flags, 16) {
                    match parse_string(s.skip((n + m) as int), 0, NAME_MAX as nat) {
                        Err(e) => Err(e),
                        Ok((t, k)) => Ok(
                            (NodeDataModel::Argument { name, parser, suggestions_type: Some(t) }, n + m + k),
                        ),
                    }
                } else {
                    Ok((NodeDataModel::Argument { name, parser, suggestions_type: None }, n + m))
                },
            },
        }
    } else {
        Err(CodecError::InvalidNodeVariant)
    }
}

/// Reads a node from the front of `s`: the node and the bytes it took.
pub open spec fn parse_node(s: Seq<u8>) -> Result<(NodeModel, nat), CodecError> {
    if s.len() == 0 {
        Err(CodecError::Truncated)
    } else {
        let flags = s[0];
        match parse_children(s.skip(1)) {
            Err(e) => Err(e),
            Ok((children, n1)) => {
                let p1 = 1 + n1;
                let redirect: Result<(Option<VarInt>, nat), CodecError> = if flag_set(flags, 8) {
                    match parse_varint(s.skip(p1 as int)) {
                        Err(e) => Err(e),
                        Ok((v, n)) => Ok((Some(VarInt(v)), n)),
                    }
                } else {
                    Ok((None, 0))
                };
                match redirect {
                    Err(e) => Err(e),
                    Ok((redirect_node, n2)) => match parse_data(s.skip((p1 + n2) as int), flags) {
                        Err(e) => Err(e),
                        Ok((data, n3)) => Ok(
                            (
                                NodeModel {
                                    children,
                                    data,
                                    is_executable: flag_set(flags, 4),
                                    redirect_node,
                                },
                                p1 + n2 + n3,
                            ),
                        ),
                    },
                }
            },
        }
    }
}

proof fn lemma_flags(n: NodeModel)
    ensures
        node_flags(n) % 4 == data_tag(n.data),
        flag_set(node_flags(n), 4) == n.is_executable,
        flag_set(node_flags(n), 8) == (n.redirect_node is Some),
        flag_set(node_flags(n), 16) == has_suggestions(n.data),
{
    let x: int = data_tag(n.data) + (if n.is_executable { 4int } else { 0int }) + (if n.redirect_node is Some {
        8int
    } else {
        0int
    }) + (if has_suggestions(n.data) { 16int } else { 0int });
    assert(0 <= x < 32);
    assert(node_flags(n) as int == x);
}

proof fn lemma_varints_round_trip(cs: Seq<VarInt>, rest: Seq<u8>)
    ensures
        parse_varints(varints_bytes(cs) + rest, cs.len()) == Ok::<(Seq<VarInt>, nat), CodecError>(
            (cs, varints_bytes(cs).len()),
        ),
    decreases cs.len(),
{
    if cs.len() > 0 {
        let b = varint_bytes(cs[0].0);
        let t = varints_bytes(cs.drop_first()) + rest;
        assert(varints_bytes(cs) + rest =~= b + t);
        lemma_varint_round_trip(cs[0].0, t);
        assert((b + t).skip(b.len() as int) =~= t);
        lemma_varints_round_trip(cs.drop_first(), rest);
        assert(VarInt(cs[0].0) == cs[0]);
        assert(seq![VarInt(cs[0].0)] + cs.drop_first() =~= cs);
        assert(varints_bytes(cs).len() == b.len() + varints_bytes(cs.drop_first()).len());
    } else {
        assert(cs =~= Seq::<VarInt>::empty());
        assert(varints_bytes(cs) + rest =~= rest);
    }
}

proof fn lemma_children_round_trip(cs: Seq<VarInt>, rest: Seq<u8>)
    requires
        cs.len() <= i32::MAX,
    ensures
        parse_children(children_bytes(cs) + rest) == Ok::<(Seq<VarInt>, nat), CodecError>(
            (cs, children_bytes(cs).len()),
        ),
{
    let b = varint_bytes(cs.len() as i32);
    let t = varints_bytes(cs) + rest;
    assert(children_bytes(cs) + rest =~= b + t);
    lemma_varint_round_trip(cs.len() as i32, t);
    assert((b + t).skip(b.len() as int) =~= t);
    lemma_varints_round_trip(cs, rest);
}

#[verifier::rlimit(100)]
proof fn lemma_argument_round_trip(
    name: Seq<char>,
    parser: Parser,
    suggestions_type: Option<Seq<char>>,
    flags: u8,
    rest: Seq<u8>,
)
    requires
        string_bytes(name, 0, NAME_MAX as nat) is Ok,
        opt_string_bytes(suggestions_type) is Ok,
        flags % 4 == 2,
        flag_set(flags, 16) == (suggestions_type is Some),
    ensures
        ({
            let b = string_bytes(name, 0, NAME_MAX as nat)->Ok_0 + parser_bytes(parser) + opt_string_bytes(
                suggestions_type,
            )->Ok_0;
            parse_data(b + rest, flags) == Ok::<(NodeDataModel, nat), CodecError>(
                (NodeDataModel::Argument { name, parser, suggestions_type }, b.len()),
            )
        }),
{
    let b = string_bytes(name, 0, NAME_MAX as nat)->Ok_0;
    let pb = parser_bytes(parser);
    let c = opt_string_bytes(suggestions_type)->Ok_0;
    let s = b + pb + c + rest;
    assert(parse_string(s, 0, NAME_MAX as nat) == Ok::<(Seq<char>, nat), CodecError>((name, b.len()))) by {
        assert(s =~= b + (pb + c + rest));
        lemma_string_round_trip(name, 0, NAME_MAX as nat, pb + c + rest);
    }
    assert(parse_parser(s.skip(b.len() as int)) == Ok::<(Parser, nat), CodecError>((parser, pb.len()))) by {
        assert(s.skip(b.len() as int) =~= pb + (c + rest));
        lemma_parser_round_trip(parser, c + rest);
    }
    assert(s.skip((b.len() + pb.len()) as int) =~= c + rest);
    if let Some(t) = suggestions_type {
        assert(parse_string(c + rest, 0, NAME_MAX as nat) == Ok::<(Seq<char>, nat), CodecError>((t, c.len()))) by {
            lemma_string_round_trip(t, 0, NAME_MAX as nat, rest);
        }
    } else {
        assert(c =~= Seq::<u8>::empty());
    }
    assert(b + pb + c + rest =~= s);
}

proof fn lemma_data_round_trip(d: NodeDataModel, flags: u8, rest: Seq<u8>)
    requires
        data_bytes(d) is Ok,
        flags % 4 == data_tag(d),
        flag_set(flags, 16) == has_suggestions(d),
    ensures
        parse_data(data_bytes(d)->Ok_0 + rest, flags) == Ok::<(NodeDataModel, nat), CodecError>(
            (d, data_bytes(d)->Ok_0.len()),
        ),
{
    match d {
        NodeDataModel::Root => {},
        NodeDataModel::Literal { name } => {
            lemma_string_round_trip(name, 0, NAME_MAX as nat, rest);
        },
        NodeDataModel::Argument { name, parser, suggestions_type } => {
            lemma_argument_round_trip(name, parser, suggestions_type, flags, rest);
        },
    }
}

/// Decoding the encoding of any node that can be encoded gives back that
/// node and consumes exactly the bytes that were written.
#[verifier::rlimit(50)]
pub proof fn lemma_node_round_trip(n: NodeModel, rest: Seq<u8>)
    requires
        node_encodable(n),
        node_bytes(n) is Ok,
    ensures
        parse_node(node_bytes(n)->Ok_0 + rest) == Ok::<(NodeModel, nat), CodecError>(
            (n, node_bytes(n)->Ok_0.len()),
        ),
{
    let f = node_flags(n);
    let cb = children_bytes(n.children);
    let rb = opt_varint_bytes(n.redirect_node);
    let d = data_bytes(n.data)->Ok_0;
    let s = node_bytes(n)->Ok_0 + rest;
    lemma_flags(n);
    assert(s =~= seq![f] + cb + rb + d + rest);
    assert(s.skip(1) =~= cb + (rb + d + rest));
    lemma_children_round_trip(n.children, rb + d + rest);
    assert(s.skip((1 + cb.len()) as int) =~= rb + (d + rest));
    if let Some(v) = n.redirect_node {
        lemma_varint_round_trip(v.0, d + rest);
    }
    assert(s.skip((1 + cb.len() + rb.len()) as int) =~= d + rest);
    lemma_data_round_trip(n.data, f, rest);
}

/// Every flag of a decoded node agrees with what was decoded: the variant
/// tag, the executable bit and the redirect bit; a suggestions type is
/// present exactly when the node is an argument whose suggestions bit is
/// set, so a root or literal node never has one.
pub proof fn lemma_decoded_flags(s: Seq<u8>)
    requires
        parse_node(s) is Ok,
    ensures
        data_tag(parse_node(s)->Ok_0.0.data) == s[0] % 4,
        parse_node(s)->Ok_0.0.is_executable == flag_set(s[0], 4),
        (parse_node(s)->Ok_0.0.redirect_node is Some) == flag_set(s[0], 8),
        has_suggestions(parse_node(s)->Ok_0.0.data) == (parse_node(s)->Ok_0.0.data is Argument && flag_set(
            s[0],
            16,
        )),
{
}

/// An argument payload whose suggestions bit is unset has no suggestions
/// type, and it ends right after its parser: no byte is read for the
/// absent field.
pub proof fn lemma_argument_without_suggestions(s: Seq<u8>, flags: u8)
    requires
        flags % 4 == 2,
        !flag_set(flags, 16),
        parse_data(s, flags) is Ok,
    ensures
        parse_data(s, flags)->Ok_0.0 matches NodeDataModel::Argument { suggestions_type: None, .. },
        parse_string(s, 0, NAME_MAX as nat) matches Ok((_, n)) && parse_parser(s.skip(n as int)) matches Ok(
            (_, m),
        ) && parse_data(s, flags)->Ok_0.1 == n + m,
{
}

fn encode_data(d: &NodeData, out: &mut Vec<u8>) -> (r: Result<(), CodecError>)
    ensures
        match data_bytes(d@) {
            Ok(b) => r is Ok && final(out)@ == old(out)@ + b,
            Err(e) => r == Err::<(), CodecError>(e),
        },
{
    let ghost start = out@;
    match d {
        NodeData::Root => Ok(()),
        NodeData::Literal(l) => l.name.encode(out),
        NodeData::Argument(a) => {
            if let Err(e) = a.name.encode(out) {
                return Err(e);
            }
            let ghost mid = out@;
            a.parser.encode(out);
            if let Some(t) = &a.suggestions_type {
                if let Err(e) = t.encode(out) {
                    return Err(e);
                }
            }
            assert(out@ =~= start + data_bytes(d@)->Ok_0);
            Ok(())
        },
    }
}

fn decode_varints(buf: &[u8], pos: usize, k: u32) -> (r: Result<(Vec<VarInt>, usize), CodecError>)
    requires
        pos <= buf@.len(),
    ensures
        match r {
            Ok((v, end)) => pos <= end <= buf@.len() && parse_varints(buf@.skip(pos as int), k as nat)
                == Ok::<(Seq<VarInt>, nat), CodecError>((v@, (end - pos) as nat)),
            Err(e) => parse_varints(buf@.skip(pos as int), k as nat) == Err::<(Seq<VarInt>, nat), CodecError>(e),
        },
{
    let mut v: Vec<VarInt> = Vec::new();
    let mut p: usize = pos;
    let mut i: u32 = 0;
    while i < k
        invariant
            pos <= p <= buf@.len(),
            i <= k,
            parse_varints(buf@.skip(pos as int), k as nat) == match parse_varints(buf@.skip(p as int), (k - i) as nat) {
                Ok((rest, m)) => Ok((v@ + rest, ((p - pos) + m) as nat)),
                Err(e) => Err(e),
            },
        decreases k - i,
    {
        let ghost t = buf@.skip(p as int);
        match VarInt::decode(buf, p) {
            Ok((x, end)) => {
                assert(t.skip(end - p) =~= buf@.skip(end as int));
                proof {
                    if let Ok((rest, m)) = parse_varints(buf@.skip(end as int), (k - i - 1) as nat) {
                        assert(v@.push(x) + rest =~= v@ + (seq![VarInt(x.0)] + rest));
                    }
                }
                v.push(x);
                p = end;
            },
            Err(e) => {
                return Err(e);
            },
        }
        i = i + 1;
    }
    assert(v@ + Seq::<VarInt>::empty() =~= v@);
    Ok((v, p))
}

fn decode_data(buf: &[u8], pos: usize, flags: u8) -> (r: Result<(NodeData, usize), CodecError>)
    requires
        pos <= buf@.len(),
    ensures
        match r {
            Ok((d, end)) => pos <= end <= buf@.len() && parse_data(buf@.skip(pos as int), flags)
                == Ok::<(NodeDataModel, nat), CodecError>((d@, (end - pos) as nat)),
            Err(e) => parse_data(buf@.skip(pos as int), flags) == Err::<(NodeDataModel, nat), CodecError>(e),
        },
{
    let ghost s = buf@.skip(pos as int);
    let tag = flags % 4;
    if tag == 0 {
        Ok((NodeData::Root, pos))
    } else if tag == 1 {
        match BoundedString::<0, 32767>::decode(buf, pos) {
            Ok((name, end)) => Ok((NodeData::Literal(Literal { name }), end)),
            Err(e) => Err(e),
        }
    } else if tag == 2 {
        let (name, p1) = match BoundedString::<0, 32767>::decode(buf, pos) {
            Ok(t) => t,
            Err(e) => return Err(e),
        };
        assert(s.skip(p1 - pos) =~= buf@.skip(p1 as int));
        let (parser, p2) = match Parser::decode(buf, p1) {
            Ok(t) => t,
            Err(e) => return Err(e),
        };
        assert(s.skip(p2 - pos) =~= buf@.skip(p2 as int));
        if (flags / 16) % 2 == 1 {
            match BoundedString::<0, 32767>::decode(buf, p2) {
                Ok((t, p3)) => Ok(
                    (NodeData::Argument(Argument { name, parser, suggestions_type: Some(t) }), p3),
                ),
                Err(e) => Err(e),
            }
        } else {
            Ok((NodeData::Argument(Argument { name, parser, suggestions_type: None }), p2))
        }
    } else {
        Err(CodecError::InvalidNodeVariant)
    }
}

impl Node {
    /// Appends the encoding of this node to `out`, or fails, writing
    /// nothing, when a name or suggestions identifier is out of its bounds.
    pub fn encode(&self, out: &mut Vec<u8>) -> (r: Result<(), CodecError>)
        requires
            node_encodable(self@),
        ensures
            match node_bytes(self@) {
                Ok(b) => r is Ok && final(out)@ == old(out)@ + b,
                Err(e) => r == Err::<(), CodecError>(e) && final(out)@ == old(out)@,
            },
    {
        let mut payload: Vec<u8> = Vec::new();
        if let Err(e) = encode_data(&self.data, &mut payload) {
            return Err(e);
        }
        let ghost start = out@;
        let tag: u8 = match &self.data {
            NodeData::Root => 0,
            NodeData::Literal(_) => 1,
            NodeData::Argument(_) => 2,
        };
        let suggested = match &self.data {
            NodeData::Argument(a) => a.suggestions_type.is_some(),
            _ => false,
        };
        let flags: u8 = tag + (if self.is_executable { 4u8 } else { 0u8 }) + (if self.redirect_node.is_some() {
            8u8
        } else {
            0u8
        }) + (if suggested { 16u8 } else { 0u8 });
        out.push(flags);
        let ghost after_flags = out@;
        VarInt(self.children.len() as i32).encode(out);
        let ghost cs = self.children@;
        let ghost counted = out@;
        let mut i: usize = 0;
        assert(cs.skip(0) =~= cs);
        while i < self.children.len()
            invariant
                i <= cs.len(),
                cs == self.children@,
                out@ + varints_bytes(cs.skip(i as int)) == counted + varints_bytes(cs),
            decreases cs.len() - i,
        {
            let ghost prev = out@;
            self.children[i].encode(out);
            assert(cs.skip(i as int).drop_first() =~= cs.skip(i + 1));
            assert(out@ + varints_bytes(cs.skip(i + 1)) =~= prev + varints_bytes(cs.skip(i as int)));
            i = i + 1;
        }
        assert(cs.skip(i as int) =~= Seq::<VarInt>::empty());
        if let Some(target) = self.redirect_node {
            target.encode(out);
        }
        append_bytes(out, payload.as_slice());
        assert(out@ =~= start + node_bytes(self@)->Ok_0);
        Ok(())
    }

    /// The name of a literal or argument node, to be changed in place.
    pub fn mut_name(&mut self) -> (r: &mut BoundedString<0, 32767>)
        requires
            !(old(self).data is Root),
        ensures
            final(self).children == old(self).children,
            final(self).is_executable == old(self).is_executable,
            final(self).redirect_node == old(self).redirect_node,
            match old(self).data {
                NodeData::Literal(l) => *r == l.name && final(self).data == NodeData::Literal(
                    Literal { name: *final(r) },
                ),
                NodeData::Argument(a) => *r == a.name && final(self).data == NodeData::Argument(
                    Argument { name: *final(r), parser: a.parser, suggestions_type: a.suggestions_type },
                ),
                NodeData::Root => false,
            },
    {
        match &mut self.data {
            NodeData::Literal(literal) => &mut literal.name,
            NodeData::Argument(argument) => &mut argument.name,
            NodeData::Root => {
                loop
                    invariant
                        false,
                    decreases self.children@.len(),
                {
                    assert(false);
                }
            },
        }
    }

    /// Reads a node that starts at `pos`; on success, returns it with the
    /// position just past it.
    #[verifier::rlimit(50)]
    pub fn decode(buf: &[u8], pos: usize) -> (r: Result<(Node, usize), CodecError>)
        requires
            pos <= buf@.len(),
        ensures
            match r {
                Ok((v, end)) => pos < end <= buf@.len() && parse_node(buf@.skip(pos as int))
                    == Ok::<(NodeModel, nat), CodecError>((v@, (end - pos) as nat)),
                Err(e) => parse_node(buf@.skip(pos as int)) == Err::<(NodeModel, nat), CodecError>(e),
            },
    {
        let ghost s = buf@.skip(pos as int);
        if pos >= buf.len() {
            return Err(CodecError::Truncated);
        }
        let flags = buf[pos];
        assert(s.skip(1) =~= buf@.skip(pos + 1));
        let (count, p0) = match VarInt::decode(buf, pos + 1) {
            Ok(t) => t,
            Err(e) => return Err(e),
        };
        if count.0 < 0 {
            return Err(CodecError::NegativeLength);
        }
        assert(s.skip(1).skip(p0 - pos - 1) =~= buf@.skip(p0 as int));
        let (children, p1) = match decode_varints(buf, p0, count.0 as u32) {
            Ok(t) => t,
            Err(e) => return Err(e),
        };
        assert(s.skip(p1 - pos) =~= buf@.skip(p1 as int));
        let mut p2 = p1;
        let redirect_node = if (flags / 8) % 2 == 1 {
            match VarInt::decode(buf, p1) {
                Ok((v, end)) => {
                    p2 = end;
                    Some(v)
                },
                Err(e) => return Err(e),
            }
        } else {
            None
        };
        assert(s.skip(p2 - pos) =~= buf@.skip(p2 as int));
        let (data, p3) = match decode_data(buf, p2, flags) {
            Ok(t) => t,
            Err(e) => return Err(e),
        };
        Ok((Node { children, data, is_executable: (flags / 4) % 2 == 1, redirect_node }, p3))
    }
}

} // verus!
