//! A binary wire codec for a game protocol: variable-length integers,
//! bounded strings, sentinel-encoded optional integers, ordinal
//! enumerations, range-constrained numeric parsers and the command dispatch
//! node graph.

pub mod bytes;
pub mod error;
pub mod node;
pub mod ordinal;
pub mod parser;
pub mod string;
pub mod types;
pub mod varint;
