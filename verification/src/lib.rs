//! Serialization and deserialization utilities.
//!
//! `serialize` and `deserialize` encode typed data in CBOR and decode it
//! again; `encode` and `decode` do the same for protobuf messages.
//!
//! CBOR is a self-describing format, and the way through it has two steps.
//! A piece of typed data (`Data`) is stood for by a node of the
//! self-describing model (`Node`), and the node is encoded in bytes; bytes
//! are decoded to a node, and the node is bound to the shape (`Shape`) that
//! the caller expects. The steps between data and nodes are this crate's own
//! and are proved; the steps between nodes and bytes are those of the
//! `ciborium` crate, and the contracts name what it gives.

pub mod cbor;
pub mod data;
pub mod decimal;
pub mod decode;
pub mod encode;
pub mod json_u64;
pub mod node;
pub mod round_trip;
pub mod shape;

pub use data::{Data, DataView};
pub use json_u64::JsonU64;
pub use node::{Item, Node};
pub use prost::{DecodeError, EncodeError, Message};
pub use shape::{Expected, Mismatch, MismatchView, Shape, ShapeView};

use cbor::{decoding, encoding};
use data::{encoded, lemma_encoded_is_encodable};
use decode::{classified, ErrorView, Failure, FailureView};
use shape::{bound, described};
use vstd::prelude::*;

verus! {

/// The error of `prost` for bytes that are no valid message.
#[verifier::external_type_specification]
#[verifier::external_body]
pub struct ExDecodeError(prost::DecodeError);

/// The bytes that stand for a piece of data: the encoding of the node that
/// stands for it.
pub open spec fn serialized(data: DataView) -> Seq<u8> {
    encoding(encoded(data))
}

/// What a buffer stands for as a piece of data of the given shape, or the
/// error: the failure to decode the buffer, classified, or else the reason
/// why the decoded node does not bind to the shape, as a semantic error
/// without an offset.
pub open spec fn deserialized(shape: ShapeView, bytes: Seq<u8>) -> Result<DataView, ErrorView> {
    match decoding(bytes) {
        Ok(item) => match bound(shape, item) {
            Ok(data) => Ok(data),
            Err(mismatch) => Err(classified(FailureView::Semantic(None, described(mismatch)))),
        },
        Err(failure) => Err(classified(failure)),
    }
}

/// Serialize the given piece of data.
///
/// This method produces CBOR-encoded bytes. It never fails: the error is
/// kept for sinks other than memory.
pub fn serialize(value: &Data) -> (out: Result<Vec<u8>, encode::Error>)
    ensures
        out matches Ok(bytes) && bytes@ == serialized(value@),
{
    let node = value.to_node();
    proof {
        lemma_encoded_is_encodable(value@);
    }
    node.to_bytes_with_capacity(value.capacity_hint())
}

/// Deserialize the given bytes to a piece of data of the given shape.
///
/// This method expects CBOR-encoded bytes. Bytes after the encoded value are
/// ignored.
pub fn deserialize(shape: &Shape, bytes: &[u8]) -> (out: Result<Data, decode::Error>)
    ensures
        match deserialized(shape@, bytes@) {
            Ok(data) => out matches Ok(x) && x@ == data,
            Err(error) => out matches Err(e) && e@ == error,
        },
{
    match Node::from_bytes(bytes) {
        Ok(node) => match shape.bind(&node) {
            Ok(data) => Ok(data),
            Err(mismatch) => {
                let failure = Failure::Semantic(None, mismatch.describe());
                Err(decode::Error::from(failure))
            },
        },
        Err(failure) => Err(decode::Error::from(failure)),
    }
}

/// Encode the given message to protobuf: `prost::Message::encode_to_vec`.
/// Nothing is stated of the bytes.
#[verifier::external_body]
pub fn encode<T: prost::Message>(value: &T) -> (bytes: Vec<u8>) {
    value.encode_to_vec()
}

/// Decode the protobuf-encoded bytes into a message: `prost::Message::decode`.
/// Nothing is stated of the result.
#[verifier::external_body]
pub fn decode<T: prost::Message + Default>(buf: &[u8]) -> (out: Result<T, prost::DecodeError>) {
    T::decode(buf)
}

} // verus!
