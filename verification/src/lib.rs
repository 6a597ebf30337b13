//! Decoding of fixed-layout binary records ("plain old data") from a byte
//! stream into typed values.
//!
//! A record's wire representation is the concatenation, in declaration
//! order, of each field's fixed-width encoding under a per-field byte-order
//! strategy (little-endian unless overridden).  An optional caller-supplied
//! argument can be threaded into the fields that request it.
//!
//! - [`byte_order`] defines the byte-order strategy and its mathematical
//!   meaning.
//! - [`reader`] is the shared stream cursor that decoding consumes.
//! - [`decode`] is the decode capability: the [`decode::Decode`] trait that
//!   every decodable type implements.
//! - [`primitives`] implements the capability for the built-in scalar types
//!   and decodes fixed arrays of them.
//! - [`schema`] describes a record as an ordered sequence of field
//!   descriptors and validates it.
//! - [`record`] decodes a whole record, field by field, in declaration
//!   order.

pub mod byte_order;
pub mod decode;
pub mod primitives;
pub mod reader;
pub mod record;
pub mod schema;

pub use byte_order::ByteOrder;
pub use decode::{Decode, Nil};
pub use reader::{DecodeError, Reader};
