//! A verified binary wire-format codec in the protocol-buffers style:
//! base-128 varints, ZigZag transforms for signed values, four wire-type
//! payload shapes, field tagging, packed repeated arrays and recursive
//! embedded messages.  Byte-level encoding and decoding are specified
//! against a mathematical model of the wire format, and the round-trip,
//! minimality, tag-packing and truncation-detection laws are proved in
//! `laws` and `parser`.

pub mod decode;
pub mod encode;
pub mod error;
pub mod laws;
pub mod parser;
pub mod reader;
pub mod wire;
pub mod zigzag;

pub use error::Error;
