//! The self-describing data model: what an encoded buffer holds.

use vstd::prelude::*;
use vstd::slice::slice_to_vec;

verus! {

/// A node of the self-describing model, as mathematics sees it.
pub enum Item {
    /// An integer.
    Integer(int),
    /// A string of bytes.
    Bytes(Seq<u8>),
    /// A floating-point number, by the bits of its double-precision form.
    Float(u64),
    /// A string of characters.
    Text(Seq<char>),
    /// A truth value.
    Bool(bool),
    /// The absent value.
    Null,
    /// A numbered tag on another node.
    Tag(u64, Box<Item>),
    /// A list of nodes.
    Array(Seq<Item>),
    /// A list of pairs of a key and what it stands for, in order.
    Mapping(Seq<(Item, Item)>),
}

/// A node of the self-describing model.
#[derive(Debug, PartialEq, Eq)]
pub enum Node {
    /// An integer.
    Integer(i128),
    /// A string of bytes.
    Bytes(Vec<u8>),
    /// A floating-point number, by the bits of its double-precision form.
    Float(u64),
    /// A string of characters.
    Text(String),
    /// A truth value.
    Bool(bool),
    /// The absent value.
    Null,
    /// A numbered tag on another node.
    Tag(u64, Box<Node>),
    /// A list of nodes.
    Array(Vec<Node>),
    /// A list of pairs of a key and what it stands for, in order.
    Mapping(Vec<(Node, Node)>),
}

impl Node {
    /// What this node holds.
    pub open spec fn item(&self) -> Item
        decreases self,
    {
        match self {
            Node::Integer(n) => Item::Integer(*n as int),
            Node::Bytes(bytes) => Item::Bytes(bytes@),
            Node::Float(bits) => Item::Float(*bits),
            Node::Text(text) => Item::Text(text@),
            Node::Bool(b) => Item::Bool(*b),
            Node::Null => Item::Null,
            Node::Tag(tag, inner) => Item::Tag(*tag, Box::new(inner.item())),
            Node::Array(items) => Item::Array(
                Seq::new(
                    items.len() as nat,
                    |i: int|
                        if 0 <= i < items.len() {
                            items[i].item()
                        } else {
                            Item::Null
                        },
                ),
            ),
            Node::Mapping(entries) => Item::Mapping(
                Seq::new(
                    entries.len() as nat,
                    |i: int|
                        if 0 <= i < entries.len() {
                            (entries[i].0.item(), entries[i].1.item())
                        } else {
                            (Item::Null, Item::Null)
                        },
                ),
            ),
        }
    }
}

impl View for Node {
    type V = Item;

    open spec fn view(&self) -> Item {
        self.item()
    }
}

/// The least and the greatest integer that an integer node can hold.
pub open spec fn integer_in_range(n: int) -> bool {
    -0x1_0000_0000_0000_0000 <= n <= 0xffff_ffff_ffff_ffff
}

/// Whether every integer in `item` is one that an integer node can hold.
pub open spec fn encodable(item: Item) -> bool
    decreases item,
{
    match item {
        Item::Integer(n) => integer_in_range(n),
        Item::Tag(_, inner) => encodable(*inner),
        Item::Array(items) => forall|i: int| 0 <= i < items.len() ==> encodable(#[trigger] items[i]),
        Item::Mapping(entries) => forall|i: int|
            0 <= i < entries.len() ==> encodable((#[trigger] entries[i]).0) && encodable(
                entries[i].1,
            ),
        _ => true,
    }
}

} // verus!

verus! {

fn copies_of(nodes: &Vec<Node>) -> (out: Vec<Node>)
    ensures
        out.len() == nodes.len(),
        forall|i: int| 0 <= i < nodes.len() ==> (#[trigger] out[i])@ == nodes[i]@,
    decreases nodes,
{
    let mut out: Vec<Node> = Vec::new();
    let mut i: usize = 0;
    while i < nodes.len()
        invariant
            i <= nodes.len(),
            out.len() == i,
            forall|j: int| 0 <= j < i ==> (#[trigger] out[j])@ == nodes[j]@,
        decreases nodes.len() - i,
    {
        out.push(nodes[i].copy());
        i = i + 1;
    }
    out
}

impl Node {
    /// Builds a node that holds what this node holds.
    pub fn copy(&self) -> (out: Node)
        ensures
            out@ == self@,
        decreases self,
    {
        match self {
            Node::Integer(n) => Node::Integer(*n),
            Node::Bytes(bytes) => Node::Bytes(slice_to_vec(bytes.as_slice())),
            Node::Float(bits) => Node::Float(*bits),
            Node::Text(text) => Node::Text(text.clone()),
            Node::Bool(b) => Node::Bool(*b),
            Node::Null => Node::Null,
            Node::Tag(tag, inner) => Node::Tag(*tag, Box::new(inner.copy())),
            Node::Array(items) => {
                let out = Node::Array(copies_of(items));
                assert(out@->Array_0 =~= self@->Array_0);
                out
            },
            Node::Mapping(entries) => {
                let mut copies: Vec<(Node, Node)> = Vec::new();
                let mut i: usize = 0;
                while i < entries.len()
                    invariant
                        i <= entries.len(),
                        self == Node::Mapping(*entries),
                        copies.len() == i,
                        forall|j: int|
                            0 <= j < i ==> (#[trigger] copies[j]).0@ == entries[j].0@
                                && copies[j].1@ == entries[j].1@,
                    decreases entries.len() - i,
                {
                    assert(decreases_to!(self => self->Mapping_0));
                    assert(decreases_to!(entries => entries[i as int]));
                    assert(decreases_to!(entries[i as int] => entries[i as int].0));
                    assert(decreases_to!(entries[i as int] => entries[i as int].1));
                    let key = entries[i].0.copy();
                    let val = entries[i].1.copy();
                    copies.push((key, val));
                    i = i + 1;
                }
                let out = Node::Mapping(copies);
                assert(out@->Mapping_0 =~= self@->Mapping_0);
                out
            },
        }
    }
}

impl Clone for Node {
    fn clone(&self) -> (out: Node)
        ensures
            out@ == self@,
    {
        self.copy()
    }
}

} // verus!
