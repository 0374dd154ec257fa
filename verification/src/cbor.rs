//! The byte encoding of the data model, which the `ciborium` crate provides.
//!
//! The crate's own tree of values is opaque here. `held` names what such a
//! tree holds; `assemble` puts one node of it together and `inspect` takes
//! one apart, so that the walk over a whole tree is verified.

use crate::decode::{Failure, FailureView};
use crate::encode;
use crate::node::{encodable, integer_in_range, Item, Node};
use ciborium::value::Value as Outside;
use vstd::prelude::*;
use vstd::slice::slice_to_vec;

verus! {

/// The tree of values of the `ciborium` crate.
#[verifier::external_type_specification]
#[verifier::external_body]
pub struct ExOutside(ciborium::value::Value);

/// What a tree of the `ciborium` crate holds.
pub uninterp spec fn held(v: Outside) -> Item;

/// The bytes that `ciborium::ser::into_writer` writes for a tree that holds
/// `item`.
pub uninterp spec fn encoding(item: Item) -> Seq<u8>;

/// What `ciborium::de::from_reader` makes of a buffer: the tree that it
/// holds, or the failure.
pub uninterp spec fn decoding(bytes: Seq<u8>) -> Result<Item, FailureView>;

/// What each tree of a list holds.
spec fn held_each(items: Seq<Outside>) -> Seq<Item> {
    Seq::new(items.len(), |i: int| held(items[i]))
}

/// What each key and each value of a list of pairs holds.
spec fn held_pairs(entries: Seq<(Outside, Outside)>) -> Seq<(Item, Item)> {
    Seq::new(entries.len(), |i: int| (held(entries[i].0), held(entries[i].1)))
}

/// One node of an outside tree, with its children still outside.
enum Part {
    Integer(i128),
    Bytes(Vec<u8>),
    Float(u64),
    Text(String),
    Bool(bool),
    Null,
    Tag(u64, Outside),
    Array(Vec<Outside>),
    Mapping(Vec<(Outside, Outside)>),
}

impl Part {
    /// What the node holds, children included.
    spec fn item(self) -> Item {
        match self {
            Part::Integer(n) => Item::Integer(n as int),
            Part::Bytes(bytes) => Item::Bytes(bytes@),
            Part::Float(bits) => Item::Float(bits),
            Part::Text(text) => Item::Text(text@),
            Part::Bool(b) => Item::Bool(b),
            Part::Null => Item::Null,
            Part::Tag(tag, inner) => Item::Tag(tag, Box::new(held(inner))),
            Part::Array(items) => Item::Array(held_each(items@)),
            Part::Mapping(entries) => Item::Mapping(held_pairs(entries@)),
        }
    }
}

/// Takes the root of an outside tree apart: one arm for each variant of
/// `ciborium::value::Value`, moving its fields. An integer of that crate is
/// always one that an integer node can hold; a float is given by its bits.
#[verifier::external_body]
fn inspect(v: Outside) -> (node: Part)
    ensures
        node.item() == held(v),
        node matches Part::Integer(n) ==> integer_in_range(n as int),
{
    match v {
        Outside::Integer(n) => Part::Integer(n.into()),
        Outside::Bytes(bytes) => Part::Bytes(bytes),
        Outside::Float(x) => Part::Float(x.to_bits()),
        Outside::Text(text) => Part::Text(text),
        Outside::Bool(b) => Part::Bool(b),
        Outside::Null => Part::Null,
        Outside::Tag(tag, inner) => Part::Tag(tag, *inner),
        Outside::Array(items) => Part::Array(items),
        Outside::Map(entries) => Part::Mapping(entries),
        _ => Part::Null,
    }
}

/// Puts the root of an outside tree together: one arm for each variant of
/// `ciborium::value::Value`, moving the fields. An integer in the range of an
/// integer node becomes that integer by `ciborium::value::Value::from`. A
/// float is read by `ciborium::de::from_reader` from the nine bytes of its
/// double-precision encoding: the initial byte and its bits, most
/// significant byte first.
#[verifier::external_body]
fn assemble(part: Part) -> (v: Outside)
    requires
        part matches Part::Integer(n) ==> integer_in_range(n as int),
    ensures
        held(v) == part.item(),
{
    match part {
        Part::Integer(n) => Outside::from(n),
        Part::Bytes(bytes) => Outside::Bytes(bytes),
        Part::Float(bits) => ciborium::de::from_reader(
            &[&[0xfb][..], &bits.to_be_bytes()[..]].concat()[..],
        ).unwrap_or(Outside::Null),
        Part::Text(text) => Outside::Text(text),
        Part::Bool(b) => Outside::Bool(b),
        Part::Null => Outside::Null,
        Part::Tag(tag, inner) => Outside::Tag(tag, Box::new(inner)),
        Part::Array(items) => Outside::Array(items),
        Part::Mapping(entries) => Outside::Map(entries),
    }
}

/// `ciborium::ser::into_writer` with a vector as the writer: the encoding of
/// the tree is appended to it. Writing to a vector cannot fail, and a tree of
/// values has nothing that the serializer refuses, so the call succeeds.
#[verifier::external_body]
fn write(v: &Outside, writer: &mut Vec<u8>) -> (out: Result<(), encode::Error>)
    ensures
        out is Ok,
        final(writer)@ == old(writer)@ + encoding(held(*v)),
{
    ciborium::ser::into_writer(v, writer).map_err(|_| encode::Error)
}

/// `ciborium::de::from_reader` on a slice, for a tree of values. The
/// contract only gives the result its name; the failure is handed over
/// variant by variant, an underlying read error as the text that `Debug`
/// gives for it.
#[verifier::external_body]
fn read(bytes: &[u8]) -> (out: Result<Outside, Failure>)
    ensures
        match out {
            Ok(v) => decoding(bytes@) == Ok::<Item, FailureView>(held(v)),
            Err(failure) => decoding(bytes@) == Err::<Item, FailureView>(failure@),
        },
{
    match ciborium::de::from_reader::<Outside, _>(bytes) {
        Ok(v) => Ok(v),
        Err(ciborium::de::Error::Io(e)) => Err(Failure::Io(format!("{e:#?}"))),
        Err(ciborium::de::Error::Syntax(at)) => Err(Failure::Syntax(at)),
        Err(ciborium::de::Error::Semantic(at, text)) => Err(Failure::Semantic(at, text)),
        Err(ciborium::de::Error::RecursionLimitExceeded) => Err(Failure::RecursionLimitExceeded),
    }
}

/// The same list in the opposite order.
fn reversed<T>(items: Vec<T>) -> (out: Vec<T>)
    ensures
        out@ == items@.reverse(),
{
    let ghost all = items@;
    let mut rest = items;
    let mut out: Vec<T> = Vec::with_capacity(rest.len());
    while rest.len() > 0
        invariant
            rest@ == all.take(rest.len() as int),
            out.len() + rest.len() == all.len(),
            forall|j: int| 0 <= j < out.len() ==> out[j] == all[all.len() - 1 - j],
        decreases rest.len(),
    {
        let last = rest.pop();
        match last {
            Some(x) => {
                out.push(x);
            },
            None => {},
        }
    }
    assert(out@ =~= all.reverse());
    out
}

/// Builds the outside tree that holds what `value` holds. `None` exactly
/// when `value` holds an integer that no integer node can hold.
fn to_outside(value: &Node) -> (out: Option<Outside>)
    ensures
        out is Some <==> encodable(value@),
        out matches Some(v) ==> held(v) == value@,
    decreases value,
{
    match value {
        Node::Integer(n) => {
            if -0x1_0000_0000_0000_0000 <= *n && *n <= 0xffff_ffff_ffff_ffff {
                Some(assemble(Part::Integer(*n)))
            } else {
                None
            }
        },
        Node::Bytes(bytes) => Some(assemble(Part::Bytes(slice_to_vec(bytes.as_slice())))),
        Node::Float(bits) => Some(assemble(Part::Float(*bits))),
        Node::Text(text) => Some(assemble(Part::Text(text.clone()))),
        Node::Bool(b) => Some(assemble(Part::Bool(*b))),
        Node::Null => Some(assemble(Part::Null)),
        Node::Tag(tag, inner) => {
            match to_outside(inner) {
                Some(v) => Some(assemble(Part::Tag(*tag, v))),
                None => None,
            }
        },
        Node::Array(items) => {
            let mut out: Vec<Outside> = Vec::new();
            let mut i: usize = 0;
            while i < items.len()
                invariant
                    i <= items.len(),
                    value == Node::Array(*items),
                    out.len() == i,
                    forall|j: int| 0 <= j < i ==> encodable(#[trigger] items[j]@),
                    forall|j: int| 0 <= j < i ==> held(#[trigger] out[j]) == items[j]@,
                decreases items.len() - i,
            {
                match to_outside(&items[i]) {
                    Some(v) => {
                        out.push(v);
                    },
                    None => {
                        assert(!encodable(value@->Array_0[i as int]));
                        return None;
                    },
                }
                i = i + 1;
            }
            let ghost built = out@;
            let v = assemble(Part::Array(out));
            assert(held_each(built) =~= value@->Array_0);
            Some(v)
        },
        Node::Mapping(entries) => {
            let mut out: Vec<(Outside, Outside)> = Vec::new();
            let mut i: usize = 0;
            while i < entries.len()
                invariant
                    i <= entries.len(),
                    value == Node::Mapping(*entries),
                    out.len() == i,
                    forall|j: int|
                        0 <= j < i ==> encodable((#[trigger] entries[j]).0@) && encodable(
                            entries[j].1@,
                        ),
                    forall|j: int|
                        0 <= j < i ==> held((#[trigger] out[j]).0) == entries[j].0@ && held(
                            out[j].1,
                        ) == entries[j].1@,
                decreases entries.len() - i,
            {
                let key = to_outside(&entries[i].0);
                let val = to_outside(&entries[i].1);
                match (key, val) {
                    (Some(k), Some(v)) => {
                        out.push((k, v));
                    },
                    _ => {
                        assert(!(encodable(value@->Mapping_0[i as int].0) && encodable(
                            value@->Mapping_0[i as int].1,
                        )));
                        return None;
                    },
                }
                i = i + 1;
            }
            let ghost built = out@;
            let v = assemble(Part::Mapping(out));
            assert(held_pairs(built) =~= value@->Mapping_0);
            Some(v)
        },
    }
}

/// Builds the node that holds what the outside tree holds.
fn from_outside(v: Outside) -> (value: Node)
    ensures
        value@ == held(v),
        encodable(value@),
    decreases held(v),
{
    match inspect(v) {
        Part::Integer(n) => Node::Integer(n),
        Part::Bytes(bytes) => Node::Bytes(bytes),
        Part::Float(bits) => Node::Float(bits),
        Part::Text(text) => Node::Text(text),
        Part::Bool(b) => Node::Bool(b),
        Part::Null => Node::Null,
        Part::Tag(tag, inner) => {
            assert(decreases_to!(held(v) => held(v)->Tag_1));
            assert(*held(v)->Tag_1 == held(inner));
            Node::Tag(tag, Box::new(from_outside(inner)))
        },
        Part::Array(items) => {
            let ghost all = items@;
            let mut rest = items;
            let mut out: Vec<Node> = Vec::new();
            while rest.len() > 0
                invariant
                    held(v) == Item::Array(held_each(all)),
                    rest@ == all.take(rest.len() as int),
                    out.len() + rest.len() == all.len(),
                    forall|j: int|
                        0 <= j < out.len() ==> (#[trigger] out[j])@ == held(all[all.len() - 1 - j])
                            && encodable(out[j]@),
                decreases rest.len(),
            {
                let last = rest.pop();
                match last {
                    Some(x) => {
                        let ghost item = held_each(all)[rest.len() as int];
                        assert(item == held(x));
                        assert(decreases_to!(held(v) => held(v)->Array_0));
                        assert(decreases_to!(held_each(all) => item));
                        out.push(from_outside(x));
                    },
                    None => {},
                }
            }
            let out = reversed(out);
            let value = Node::Array(out);
            assert(value@->Array_0 =~= held_each(all));
            value
        },
        Part::Mapping(entries) => {
            let ghost all = entries@;
            let mut rest = entries;
            let mut out: Vec<(Node, Node)> = Vec::new();
            while rest.len() > 0
                invariant
                    held(v) == Item::Mapping(held_pairs(all)),
                    rest@ == all.take(rest.len() as int),
                    out.len() + rest.len() == all.len(),
                    forall|j: int|
                        0 <= j < out.len() ==> (#[trigger] out[j]).0@ == held(
                            all[all.len() - 1 - j].0,
                        ) && out[j].1@ == held(all[all.len() - 1 - j].1) && encodable(out[j].0@)
                            && encodable(out[j].1@),
                decreases rest.len(),
            {
                let last = rest.pop();
                match last {
                    Some((k, x)) => {
                        let ghost pair = held_pairs(all)[rest.len() as int];
                        assert(pair == (held(k), held(x)));
                        assert(decreases_to!(held(v) => held(v)->Mapping_0));
                        assert(decreases_to!(held_pairs(all) => pair));
                        assert(decreases_to!(pair => pair.0));
                        assert(decreases_to!(pair => pair.1));
                        let key = from_outside(k);
                        let val = from_outside(x);
                        out.push((key, val));
                    },
                    None => {},
                }
            }
            let out = reversed(out);
            let value = Node::Mapping(out);
            assert(value@->Mapping_0 =~= held_pairs(all));
            value
        },
    }
}

impl Node {
    /// Encodes the node, in a buffer for which room for `capacity` bytes is
    /// asked in advance. Fails exactly when the node holds an integer that
    /// no integer node can hold; whatever the capacity, and whether or not
    /// the room was had, the bytes are the same.
    pub fn to_bytes_with_capacity(&self, capacity: usize) -> (out: Result<Vec<u8>, encode::Error>)
        ensures
            out is Ok <==> encodable(self@),
            out matches Ok(bytes) ==> bytes@ == encoding(self@),
    {
        match to_outside(self) {
            Some(v) => {
                let mut writer: Vec<u8> = Vec::new();
                let _ = writer.try_reserve(capacity);
                match write(&v, &mut writer) {
                    Ok(()) => {
                        assert(writer@ =~= encoding(self@));
                        Ok(writer)
                    },
                    Err(e) => Err(e),
                }
            },
            None => Err(encode::Error),
        }
    }

    /// Encodes the node. Fails exactly when the node holds an integer that
    /// no integer node can hold.
    pub fn to_bytes(&self) -> (out: Result<Vec<u8>, encode::Error>)
        ensures
            out is Ok <==> encodable(self@),
            out matches Ok(bytes) ==> bytes@ == encoding(self@),
    {
        self.to_bytes_with_capacity(0)
    }

    /// Decodes the node at the start of `bytes`; what follows it is ignored.
    pub fn from_bytes(bytes: &[u8]) -> (out: Result<Node, Failure>)
        ensures
            match out {
                Ok(value) => decoding(bytes@) == Ok::<Item, FailureView>(value@) && encodable(
                    value@,
                ),
                Err(failure) => decoding(bytes@) == Err::<Item, FailureView>(failure@),
            },
    {
        match read(bytes) {
            Ok(v) => Ok(from_outside(v)),
            Err(failure) => Err(failure),
        }
    }
}

} // verus!
