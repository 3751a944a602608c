//! The wire value type: what a command receives and what it answers. It
//! mirrors the Redis serialization protocol's frame kinds; the codec that
//! turns frames into bytes on the socket lives outside the library.

use vstd::prelude::*;
use vstd::utf8::encode_utf8;

verus! {

#[derive(Debug, PartialEq, Eq)]
pub enum Value {
    /// Null bulk reply.
    Null,
    /// Null array reply.
    NullArray,
    /// A simple (status) string.
    Simple(String),
    /// An error string.
    Error(String),
    /// An integer.
    Integer(i64),
    /// A binary-safe bulk string.
    Bulk(Vec<u8>),
    /// An array of values.
    Array(Vec<Value>),
}

/// The bytes a value contributes as a command argument: simple strings
/// count by their UTF-8 bytes, bulks by their bytes, nothing else counts.
pub open spec fn value_bytes(v: Value) -> Option<Seq<u8>> {
    match v {
        Value::Simple(s) => Some(encode_utf8(s@)),
        Value::Bulk(b) => Some(b@),
        _ => None,
    }
}

pub open spec fn is_simple(v: Value, s: Seq<char>) -> bool {
    v matches Value::Simple(m) && m@ == s
}

pub open spec fn is_error(v: Value, s: Seq<char>) -> bool {
    v matches Value::Error(m) && m@ == s
}

pub open spec fn is_bulk(v: Value, s: Seq<u8>) -> bool {
    v matches Value::Bulk(b) && b@ == s
}

/// An array whose elements are exactly the given bulk strings, in order.
pub open spec fn is_bulk_array(v: Value, items: Seq<Seq<u8>>) -> bool {
    v matches Value::Array(elems) && elems@.len() == items.len() && forall|i: int|
        0 <= i < items.len() ==> is_bulk(#[trigger] elems@[i], items[i])
}

} // verus!
