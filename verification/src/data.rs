//! Typed data: what a program holds before it is encoded and after it is
//! decoded, and the node of the self-describing model that stands for it.

use crate::node::{encodable, Item, Node};
use vstd::prelude::*;
use vstd::slice::slice_to_vec;

verus! {

/// A piece of typed data, as mathematics sees it.
pub enum DataView {
    Unit,
    Bool(bool),
    Unsigned(u64),
    Signed(i64),
    Float(u64),
    Text(Seq<char>),
    ByteArray(Seq<u8>),
    Optional(Option<Box<DataView>>),
    Sequence(Seq<DataView>),
    Tuple(Seq<DataView>),
    Wrapper(Box<DataView>),
    Record(Seq<(Seq<char>, DataView)>),
    Variant(Seq<char>, Option<Box<DataView>>),
}

/// A piece of typed data.
#[derive(Debug, PartialEq, Eq)]
pub enum Data {
    /// The value without content.
    Unit,
    /// A truth value.
    Bool(bool),
    /// An unsigned integer of up to 64 bits.
    Unsigned(u64),
    /// A signed integer of up to 64 bits.
    Signed(i64),
    /// A floating-point number, by the bits of its double-precision form.
    Float(u64),
    /// A string.
    Text(String),
    /// A byte array of fixed size.
    ByteArray(Vec<u8>),
    /// A value that may be absent.
    Optional(Option<Box<Data>>),
    /// A list of any length, all of whose items have one shape.
    Sequence(Vec<Data>),
    /// A tuple, or a structure with unnamed fields.
    Tuple(Vec<Data>),
    /// A structure with a single unnamed field.
    Wrapper(Box<Data>),
    /// A structure with named fields, in the order of their declaration.
    Record(Vec<(String, Data)>),
    /// A variant of an enumeration, by its name, with what it carries.
    Variant(String, Option<Box<Data>>),
}

impl Data {
    /// What this piece of data holds.
    pub open spec fn plain(&self) -> DataView
        decreases self,
    {
        match self {
            Data::Unit => DataView::Unit,
            Data::Bool(b) => DataView::Bool(*b),
            Data::Unsigned(n) => DataView::Unsigned(*n),
            Data::Signed(n) => DataView::Signed(*n),
            Data::Float(bits) => DataView::Float(*bits),
            Data::Text(text) => DataView::Text(text@),
            Data::ByteArray(bytes) => DataView::ByteArray(bytes@),
            Data::Optional(None) => DataView::Optional(None),
            Data::Optional(Some(inner)) => DataView::Optional(Some(Box::new(inner.plain()))),
            Data::Sequence(items) => DataView::Sequence(
                Seq::new(
                    items.len() as nat,
                    |i: int|
                        if 0 <= i < items.len() {
                            items[i].plain()
                        } else {
                            DataView::Unit
                        },
                ),
            ),
            Data::Tuple(items) => DataView::Tuple(
                Seq::new(
                    items.len() as nat,
                    |i: int|
                        if 0 <= i < items.len() {
                            items[i].plain()
                        } else {
                            DataView::Unit
                        },
                ),
            ),
            Data::Wrapper(inner) => DataView::Wrapper(Box::new(inner.plain())),
            Data::Record(fields) => DataView::Record(
                Seq::new(
                    fields.len() as nat,
                    |i: int|
                        if 0 <= i < fields.len() {
                            (fields[i].0@, fields[i].1.plain())
                        } else {
                            (Seq::empty(), DataView::Unit)
                        },
                ),
            ),
            Data::Variant(name, None) => DataView::Variant(name@, None),
            Data::Variant(name, Some(inner)) => DataView::Variant(
                name@,
                Some(Box::new(inner.plain())),
            ),
        }
    }
}

impl View for Data {
    type V = DataView;

    open spec fn view(&self) -> DataView {
        self.plain()
    }
}

/// The node that stands for a piece of data.
///
/// A wrapper adds nothing to what it wraps. A present optional value is the
/// value itself, an absent one the null node. A record is a mapping from the
/// names of its fields, in their order. A variant without content is its
/// name; one with content is a mapping of one entry, from its name.
pub open spec fn encoded(data: DataView) -> Item
    decreases data,
{
    match data {
        DataView::Unit => Item::Null,
        DataView::Bool(b) => Item::Bool(b),
        DataView::Unsigned(n) => Item::Integer(n as int),
        DataView::Signed(n) => Item::Integer(n as int),
        DataView::Float(bits) => Item::Float(bits),
        DataView::Text(text) => Item::Text(text),
        DataView::ByteArray(bytes) => Item::Bytes(bytes),
        DataView::Optional(None) => Item::Null,
        DataView::Optional(Some(inner)) => encoded(*inner),
        DataView::Sequence(items) => Item::Array(
            Seq::new(
                items.len(),
                |i: int|
                    if 0 <= i < items.len() {
                        encoded(items[i])
                    } else {
                        Item::Null
                    },
            ),
        ),
        DataView::Tuple(items) => Item::Array(
            Seq::new(
                items.len(),
                |i: int|
                    if 0 <= i < items.len() {
                        encoded(items[i])
                    } else {
                        Item::Null
                    },
            ),
        ),
        DataView::Wrapper(inner) => encoded(*inner),
        DataView::Record(fields) => Item::Mapping(
            Seq::new(
                fields.len(),
                |i: int|
                    if 0 <= i < fields.len() {
                        (Item::Text(fields[i].0), encoded(fields[i].1))
                    } else {
                        (Item::Null, Item::Null)
                    },
            ),
        ),
        DataView::Variant(name, None) => Item::Text(name),
        DataView::Variant(name, Some(inner)) => Item::Mapping(
            seq![(Item::Text(name), encoded(*inner))],
        ),
    }
}

/// The node that stands for a piece of data holds only integers that an
/// integer node can hold.
pub proof fn lemma_encoded_is_encodable(data: DataView)
    ensures
        encodable(encoded(data)),
    decreases data,
{
    match data {
        DataView::Optional(Some(inner)) => lemma_encoded_is_encodable(*inner),
        DataView::Sequence(items) => {
            assert forall|i: int| 0 <= i < items.len() implies encodable(
                #[trigger] encoded(data)->Array_0[i],
            ) by {
                lemma_encoded_is_encodable(items[i]);
            }
        },
        DataView::Tuple(items) => {
            assert forall|i: int| 0 <= i < items.len() implies encodable(
                #[trigger] encoded(data)->Array_0[i],
            ) by {
                lemma_encoded_is_encodable(items[i]);
            }
        },
        DataView::Wrapper(inner) => lemma_encoded_is_encodable(*inner),
        DataView::Record(fields) => {
            assert forall|i: int| 0 <= i < fields.len() implies encodable(
                (#[trigger] encoded(data)->Mapping_0[i]).0,
            ) && encodable(encoded(data)->Mapping_0[i].1) by {
                lemma_encoded_is_encodable(fields[i].1);
            }
        },
        DataView::Variant(name, Some(inner)) => {
            lemma_encoded_is_encodable(*inner);
            let entries = encoded(data)->Mapping_0;
            assert forall|i: int| 0 <= i < entries.len() implies encodable(
                (#[trigger] entries[i]).0,
            ) && encodable(entries[i].1) by {
                assert(entries[i] == (Item::Text(name), encoded(*inner)));
            }
        },
        _ => {},
    }
}

/// The sum of a list of sizes.
pub open spec fn total(sizes: Seq<nat>) -> nat
    decreases sizes.len(),
{
    if sizes.len() == 0 {
        0
    } else {
        total(sizes.drop_last()) + sizes.last()
    }
}

/// The bytes that a piece of data takes in memory, not counting what a
/// string or a list keeps on the heap: the measure by which the output
/// buffer is sized in advance.
pub open spec fn footprint(data: DataView) -> nat
    decreases data,
{
    match data {
        DataView::Unit => 0,
        DataView::Bool(_) => 1,
        DataView::Unsigned(_) => 8,
        DataView::Signed(_) => 8,
        DataView::Float(_) => 8,
        DataView::Text(_) => 24,
        DataView::ByteArray(bytes) => bytes.len(),
        DataView::Optional(None) => 1,
        DataView::Optional(Some(inner)) => 1 + footprint(*inner),
        DataView::Sequence(_) => 24,
        DataView::Tuple(items) => total(footprints(items)),
        DataView::Wrapper(inner) => footprint(*inner),
        DataView::Record(fields) => total(field_footprints(fields)),
        DataView::Variant(_, None) => 4,
        DataView::Variant(_, Some(inner)) => 4 + footprint(*inner),
    }
}

/// The footprint of each item of a list.
pub open spec fn footprints(items: Seq<DataView>) -> Seq<nat>
    decreases items,
{
    Seq::new(
        items.len(),
        |i: int|
            if 0 <= i < items.len() {
                footprint(items[i])
            } else {
                0
            },
    )
}

/// The footprint of each field of a record.
pub open spec fn field_footprints(fields: Seq<(Seq<char>, DataView)>) -> Seq<nat>
    decreases fields,
{
    Seq::new(
        fields.len(),
        |i: int|
            if 0 <= i < fields.len() {
                footprint(fields[i].1)
            } else {
                0
            },
    )
}

/// The greatest capacity that is ever asked for.
pub open spec fn capacity_limit() -> nat {
    isize::MAX as nat
}

/// The capacity that the output buffer starts with: twice the footprint, or
/// the greatest capacity where that would be more.
pub open spec fn capacity_hint(data: DataView) -> nat {
    if 2 * footprint(data) <= capacity_limit() {
        2 * footprint(data)
    } else {
        capacity_limit()
    }
}

/// `n`, or the greatest `usize` where `n` is more.
pub open spec fn saturated(n: nat) -> usize {
    if n <= usize::MAX {
        n as usize
    } else {
        usize::MAX
    }
}

fn nodes_of(items: &Vec<Data>) -> (out: Vec<Node>)
    ensures
        out.len() == items.len(),
        forall|i: int| 0 <= i < items.len() ==> (#[trigger] out[i])@ == encoded(items[i]@),
    decreases items,
{
    let mut out: Vec<Node> = Vec::new();
    let mut i: usize = 0;
    while i < items.len()
        invariant
            i <= items.len(),
            out.len() == i,
            forall|j: int| 0 <= j < i ==> (#[trigger] out[j])@ == encoded(items[j]@),
        decreases items.len() - i,
    {
        out.push(items[i].to_node());
        i = i + 1;
    }
    out
}

fn footprints_of(items: &Vec<Data>) -> (out: usize)
    ensures
        out == saturated(total(Seq::new(items.len() as nat, |i: int| footprint(items[i]@)))),
    decreases items,
{
    let ghost sizes = Seq::new(items.len() as nat, |i: int| footprint(items[i]@));
    let mut sum: usize = 0;
    let mut i: usize = 0;
    assert(sizes.take(0) =~= Seq::<nat>::empty());
    while i < items.len()
        invariant
            i <= items.len(),
            sizes == Seq::new(items.len() as nat, |i: int| footprint(items[i]@)),
            sum == saturated(total(sizes.take(i as int))),
        decreases items.len() - i,
    {
        let size = items[i].footprint();
        proof {
            let longer = sizes.take(i + 1);
            assert(longer.drop_last() =~= sizes.take(i as int));
            assert(longer.last() == sizes[i as int]);
        }
        sum = sum.saturating_add(size);
        i = i + 1;
    }
    assert(sizes.take(i as int) =~= sizes);
    sum
}

impl Data {
    /// Builds the node that stands for this piece of data.
    pub fn to_node(&self) -> (node: Node)
        ensures
            node@ == encoded(self@),
        decreases self,
    {
        match self {
            Data::Unit => Node::Null,
            Data::Bool(b) => Node::Bool(*b),
            Data::Unsigned(n) => Node::Integer(*n as i128),
            Data::Signed(n) => Node::Integer(*n as i128),
            Data::Float(bits) => Node::Float(*bits),
            Data::Text(text) => Node::Text(text.clone()),
            Data::ByteArray(bytes) => Node::Bytes(slice_to_vec(bytes.as_slice())),
            Data::Optional(None) => Node::Null,
            Data::Optional(Some(inner)) => inner.to_node(),
            Data::Sequence(items) => {
                let node = Node::Array(nodes_of(items));
                assert(node@->Array_0 =~= encoded(self@)->Array_0);
                node
            },
            Data::Tuple(items) => {
                let node = Node::Array(nodes_of(items));
                assert(node@->Array_0 =~= encoded(self@)->Array_0);
                node
            },
            Data::Wrapper(inner) => inner.to_node(),
            Data::Record(fields) => {
                let mut entries: Vec<(Node, Node)> = Vec::new();
                let mut i: usize = 0;
                while i < fields.len()
                    invariant
                        i <= fields.len(),
                        self == Data::Record(*fields),
                        entries.len() == i,
                        forall|j: int|
                            0 <= j < i ==> (#[trigger] entries[j]).0@ == Item::Text(fields[j].0@)
                                && entries[j].1@ == encoded(fields[j].1@),
                    decreases fields.len() - i,
                {
                    let key = Node::Text(fields[i].0.clone());
                    assert(decreases_to!(self => self->Record_0));
                    assert(decreases_to!(fields => fields[i as int]));
                    assert(decreases_to!(fields[i as int] => fields[i as int].1));
                    let val = fields[i].1.to_node();
                    entries.push((key, val));
                    i = i + 1;
                }
                let node = Node::Mapping(entries);
                assert forall|j: int| 0 <= j < fields.len() implies node@->Mapping_0[j] == encoded(
                    self@,
                )->Mapping_0[j] by {
                    assert(self@->Record_0[j] == (fields[j].0@, fields[j].1@));
                    assert(node@->Mapping_0[j] == (entries[j].0@, entries[j].1@));
                }
                assert(node@->Mapping_0 =~= encoded(self@)->Mapping_0);
                node
            },
            Data::Variant(name, None) => Node::Text(name.clone()),
            Data::Variant(name, Some(inner)) => {
                let mut entries: Vec<(Node, Node)> = Vec::with_capacity(1);
                let key = Node::Text(name.clone());
                let val = inner.to_node();
                assert(key@ == Item::Text(name@));
                entries.push((key, val));
                let node = Node::Mapping(entries);
                let ghost single = seq![(Item::Text(name@), encoded(inner@))];
                assert(node@->Mapping_0 =~= single);
                node
            },
        }
    }

    /// Measures the bytes that this piece of data takes in memory, up to the
    /// greatest `usize`.
    pub fn footprint(&self) -> (out: usize)
        ensures
            out == saturated(footprint(self@)),
        decreases self,
    {
        match self {
            Data::Unit => 0,
            Data::Bool(_) => 1,
            Data::Unsigned(_) => 8,
            Data::Signed(_) => 8,
            Data::Float(_) => 8,
            Data::Text(_) => 24,
            Data::ByteArray(bytes) => bytes.len(),
            Data::Optional(None) => 1,
            Data::Optional(Some(inner)) => inner.footprint().saturating_add(1),
            Data::Sequence(_) => 24,
            Data::Tuple(items) => {
                let out = footprints_of(items);
                assert(Seq::new(items.len() as nat, |i: int| footprint(items[i]@)) =~= footprints(
                    self@->Tuple_0,
                ));
                out
            },
            Data::Wrapper(inner) => inner.footprint(),
            Data::Record(fields) => {
                let ghost sizes = field_footprints(self@->Record_0);
                let mut sum: usize = 0;
                let mut i: usize = 0;
                assert(sizes.take(0) =~= Seq::<nat>::empty());
                while i < fields.len()
                    invariant
                        i <= fields.len(),
                        self == Data::Record(*fields),
                        sizes == field_footprints(self@->Record_0),
                        sum == saturated(total(sizes.take(i as int))),
                    decreases fields.len() - i,
                {
                    assert(decreases_to!(self => self->Record_0));
                    assert(decreases_to!(fields => fields[i as int]));
                    assert(decreases_to!(fields[i as int] => fields[i as int].1));
                    let size = fields[i].1.footprint();
                    proof {
                        let longer = sizes.take(i + 1);
                        assert(longer.drop_last() =~= sizes.take(i as int));
                        assert(longer.last() == sizes[i as int]);
                    }
                    sum = sum.saturating_add(size);
                    i = i + 1;
                }
                assert(sizes.take(i as int) =~= sizes);
                sum
            },
            Data::Variant(_, None) => 4,
            Data::Variant(_, Some(inner)) => inner.footprint().saturating_add(4),
        }
    }

    /// The capacity that the output buffer for this piece of data starts
    /// with.
    pub fn capacity_hint(&self) -> (out: usize)
        ensures
            out == capacity_hint(self@),
    {
        let size = self.footprint();
        let limit: usize = isize::MAX as usize;
        if size <= limit / 2 {
            2 * size
        } else {
            limit
        }
    }
}

} // verus!

verus! {

fn copies_of(items: &Vec<Data>) -> (out: Vec<Data>)
    ensures
        out.len() == items.len(),
        forall|i: int| 0 <= i < items.len() ==> (#[trigger] out[i])@ == items[i]@,
    decreases items,
{
    let mut out: Vec<Data> = Vec::new();
    let mut i: usize = 0;
    while i < items.len()
        invariant
            i <= items.len(),
            out.len() == i,
            forall|j: int| 0 <= j < i ==> (#[trigger] out[j])@ == items[j]@,
        decreases items.len() - i,
    {
        out.push(items[i].copy());
        i = i + 1;
    }
    out
}

impl Data {
    /// Builds a piece of data that holds what this piece holds.
    pub fn copy(&self) -> (out: Data)
        ensures
            out@ == self@,
        decreases self,
    {
        match self {
            Data::Unit => Data::Unit,
            Data::Bool(b) => Data::Bool(*b),
            Data::Unsigned(n) => Data::Unsigned(*n),
            Data::Signed(n) => Data::Signed(*n),
            Data::Float(bits) => Data::Float(*bits),
            Data::Text(text) => Data::Text(text.clone()),
            Data::ByteArray(bytes) => Data::ByteArray(slice_to_vec(bytes.as_slice())),
            Data::Optional(None) => Data::Optional(None),
            Data::Optional(Some(inner)) => Data::Optional(Some(Box::new(inner.copy()))),
            Data::Sequence(items) => {
                let out = Data::Sequence(copies_of(items));
                assert(out@->Sequence_0 =~= self@->Sequence_0);
                out
            },
            Data::Tuple(items) => {
                let out = Data::Tuple(copies_of(items));
                assert(out@->Tuple_0 =~= self@->Tuple_0);
                out
            },
            Data::Wrapper(inner) => Data::Wrapper(Box::new(inner.copy())),
            Data::Record(fields) => {
                let mut copies: Vec<(String, Data)> = Vec::new();
                let mut i: usize = 0;
                while i < fields.len()
                    invariant
                        i <= fields.len(),
                        self == Data::Record(*fields),
                        copies.len() == i,
                        forall|j: int|
                            0 <= j < i ==> (#[trigger] copies[j]).0@ == fields[j].0@
                                && copies[j].1@ == fields[j].1@,
                    decreases fields.len() - i,
                {
                    assert(decreases_to!(self => self->Record_0));
                    assert(decreases_to!(fields => fields[i as int]));
                    assert(decreases_to!(fields[i as int] => fields[i as int].1));
                    let name = fields[i].0.clone();
                    let piece = fields[i].1.copy();
                    copies.push((name, piece));
                    i = i + 1;
                }
                let out = Data::Record(copies);
                assert(out@->Record_0 =~= self@->Record_0);
                out
            },
            Data::Variant(name, None) => Data::Variant(name.clone(), None),
            Data::Variant(name, Some(inner)) => Data::Variant(
                name.clone(),
                Some(Box::new(inner.copy())),
            ),
        }
    }
}

impl Clone for Data {
    fn clone(&self) -> (out: Data)
        ensures
            out@ == self@,
    {
        self.copy()
    }
}

} // verus!
