//! Shapes: what a program expects a node to stand for, and the binding of a
//! node to a shape.

use crate::data::{Data, DataView};
use crate::decimal::{decimal, render};
use crate::node::{Item, Node};
use vstd::prelude::*;
use vstd::slice::slice_to_vec;
use vstd::string::*;

verus! {

/// A shape, as mathematics sees it.
pub enum ShapeView {
    Unit,
    Bool,
    Unsigned,
    Signed,
    Float,
    Text,
    ByteArray(nat),
    Optional(Box<ShapeView>),
    Sequence(Box<ShapeView>),
    Tuple(Seq<ShapeView>),
    Wrapper(Box<ShapeView>),
    Record(Seq<(Seq<char>, ShapeView)>),
    Choice(Seq<(Seq<char>, Option<ShapeView>)>),
}

/// The shape of a piece of typed data: what a decoder is asked to find.
#[derive(Debug, PartialEq, Eq)]
pub enum Shape {
    /// The value without content.
    Unit,
    /// A truth value.
    Bool,
    /// An unsigned integer of up to 64 bits.
    Unsigned,
    /// A signed integer of up to 64 bits.
    Signed,
    /// A floating-point number.
    Float,
    /// A string.
    Text,
    /// A byte array of the given size.
    ByteArray(usize),
    /// A value of the given shape that may be absent.
    Optional(Box<Shape>),
    /// A list of any length whose items all have the given shape.
    Sequence(Box<Shape>),
    /// A tuple, or a structure with unnamed fields, of the given shapes.
    Tuple(Vec<Shape>),
    /// A structure with a single unnamed field of the given shape.
    Wrapper(Box<Shape>),
    /// A structure with the given named fields.
    Record(Vec<(String, Shape)>),
    /// An enumeration with the given variants: the name of each, and the
    /// shape of what it carries, if it carries anything.
    Choice(Vec<(String, Option<Shape>)>),
}

impl Shape {
    /// What this shape asks for.
    pub open spec fn plain(&self) -> ShapeView
        decreases self,
    {
        match self {
            Shape::Unit => ShapeView::Unit,
            Shape::Bool => ShapeView::Bool,
            Shape::Unsigned => ShapeView::Unsigned,
            Shape::Signed => ShapeView::Signed,
            Shape::Float => ShapeView::Float,
            Shape::Text => ShapeView::Text,
            Shape::ByteArray(size) => ShapeView::ByteArray(*size as nat),
            Shape::Optional(inner) => ShapeView::Optional(Box::new(inner.plain())),
            Shape::Sequence(inner) => ShapeView::Sequence(Box::new(inner.plain())),
            Shape::Tuple(shapes) => ShapeView::Tuple(
                Seq::new(
                    shapes.len() as nat,
                    |i: int|
                        if 0 <= i < shapes.len() {
                            shapes[i].plain()
                        } else {
                            ShapeView::Unit
                        },
                ),
            ),
            Shape::Wrapper(inner) => ShapeView::Wrapper(Box::new(inner.plain())),
            Shape::Record(fields) => ShapeView::Record(
                Seq::new(
                    fields.len() as nat,
                    |i: int|
                        if 0 <= i < fields.len() {
                            (fields[i].0@, fields[i].1.plain())
                        } else {
                            (Seq::empty(), ShapeView::Unit)
                        },
                ),
            ),
            Shape::Choice(variants) => ShapeView::Choice(
                Seq::new(
                    variants.len() as nat,
                    |i: int|
                        if 0 <= i < variants.len() {
                            (
                                variants[i].0@,
                                match variants[i].1 {
                                    Some(content) => Some(content.plain()),
                                    None => None,
                                },
                            )
                        } else {
                            (Seq::empty(), None)
                        },
                ),
            ),
        }
    }
}

impl View for Shape {
    type V = ShapeView;

    open spec fn view(&self) -> ShapeView {
        self.plain()
    }
}

/// The kind of node that a shape asks for.
#[derive(Clone, Copy, Debug, PartialEq, Eq, Structural)]
pub enum Expected {
    Null,
    Bool,
    Integer,
    Float,
    Text,
    Bytes,
    Array,
    Mapping,
    Variant,
}

/// Why a node does not bind to a shape, as mathematics sees it.
pub enum MismatchView {
    Kind(Expected),
    Range,
    Length { expected: nat, found: nat },
    MissingField(Seq<char>),
    DuplicateField(Seq<char>),
    UnknownVariant(Seq<char>),
}

/// Why a node does not bind to a shape.
#[derive(Clone, Debug, PartialEq, Eq)]
pub enum Mismatch {
    /// The node is not of the kind that the shape asks for.
    Kind(Expected),
    /// An integer is outside the range of its type.
    Range,
    /// A list has not as many items as the shape asks for.
    Length { expected: usize, found: usize },
    /// A mapping has no entry for this field of a record.
    MissingField(String),
    /// A mapping has more than one entry for this field of a record.
    DuplicateField(String),
    /// The enumeration has no variant of this name.
    UnknownVariant(String),
}

impl View for Mismatch {
    type V = MismatchView;

    open spec fn view(&self) -> MismatchView {
        match self {
            Mismatch::Kind(expected) => MismatchView::Kind(*expected),
            Mismatch::Range => MismatchView::Range,
            Mismatch::Length { expected, found } => MismatchView::Length {
                expected: *expected as nat,
                found: *found as nat,
            },
            Mismatch::MissingField(name) => MismatchView::MissingField(name@),
            Mismatch::DuplicateField(name) => MismatchView::DuplicateField(name@),
            Mismatch::UnknownVariant(name) => MismatchView::UnknownVariant(name@),
        }
    }
}

/// The words for a kind of node.
pub open spec fn expected_name(expected: Expected) -> Seq<char> {
    match expected {
        Expected::Null => "null"@,
        Expected::Bool => "a boolean"@,
        Expected::Integer => "an integer"@,
        Expected::Float => "a float"@,
        Expected::Text => "a string"@,
        Expected::Bytes => "bytes"@,
        Expected::Array => "an array"@,
        Expected::Mapping => "a map"@,
        Expected::Variant => "a variant"@,
    }
}

/// The description of a mismatch.
pub open spec fn described(mismatch: MismatchView) -> Seq<char> {
    match mismatch {
        MismatchView::Kind(expected) => "invalid type, expected "@ + expected_name(expected),
        MismatchView::Range => "integer out of range"@,
        MismatchView::Length { expected, found } => "invalid length "@ + decimal(found)
            + ", expected "@ + decimal(expected),
        MismatchView::MissingField(name) => "missing field "@ + name,
        MismatchView::DuplicateField(name) => "duplicate field "@ + name,
        MismatchView::UnknownVariant(name) => "unknown variant "@ + name,
    }
}

impl Mismatch {
    /// Describes the mismatch in words.
    pub fn describe(&self) -> (text: String)
        ensures
            text@ == described(self@),
    {
        match self {
            Mismatch::Kind(expected) => {
                let name = match expected {
                    Expected::Null => "null",
                    Expected::Bool => "a boolean",
                    Expected::Integer => "an integer",
                    Expected::Float => "a float",
                    Expected::Text => "a string",
                    Expected::Bytes => "bytes",
                    Expected::Array => "an array",
                    Expected::Mapping => "a map",
                    Expected::Variant => "a variant",
                };
                String::from_str("invalid type, expected ").concat(name)
            },
            Mismatch::Range => String::from_str("integer out of range"),
            Mismatch::Length { expected, found } => {
                let mut text = String::from_str("invalid length ");
                text.append(render(*found as u64).as_str());
                text.append(", expected ");
                text.append(render(*expected as u64).as_str());
                text
            },
            Mismatch::MissingField(name) => String::from_str("missing field ").concat(
                name.as_str(),
            ),
            Mismatch::DuplicateField(name) => String::from_str("duplicate field ").concat(
                name.as_str(),
            ),
            Mismatch::UnknownVariant(name) => String::from_str("unknown variant ").concat(
                name.as_str(),
            ),
        }
    }
}

/// The node under all the tags that are put on it.
pub open spec fn strip(item: Item) -> Item
    decreases item,
{
    match item {
        Item::Tag(_, inner) => strip(*inner),
        _ => item,
    }
}

/// The integer nodes that stand for the bytes of a string of bytes.
pub open spec fn byte_items(bytes: Seq<u8>) -> Seq<Item> {
    Seq::new(bytes.len(), |i: int| Item::Integer(bytes[i] as int))
}

/// The items of a list: those of an array, or the bytes of a string of
/// bytes, each as an integer.
pub open spec fn elements(item: Item) -> Option<Seq<Item>> {
    match item {
        Item::Array(items) => Some(items),
        Item::Bytes(bytes) => Some(byte_items(bytes)),
        _ => None,
    }
}

/// All the values of a list of results, or the error of the first that
/// failed.
#[verifier::opaque]
pub open spec fn collect<T>(results: Seq<Result<T, MismatchView>>) -> Result<Seq<T>, MismatchView> {
    if forall|i: int| 0 <= i < results.len() ==> (#[trigger] results[i]) is Ok {
        Ok(Seq::new(results.len(), |i: int| results[i]->Ok_0))
    } else {
        Err(results[first_failure(results)]->Err_0)
    }
}

/// The place of the first result that failed.
pub open spec fn first_failure<T>(results: Seq<Result<T, MismatchView>>) -> int {
    choose|i: int|
        0 <= i < results.len() && (#[trigger] results[i]) is Err && forall|j: int|
            0 <= j < i ==> (#[trigger] results[j]) is Ok
}

/// Where every result is a value, `collect` gives the values.
pub proof fn lemma_collect_values<T>(results: Seq<Result<T, MismatchView>>, values: Seq<T>)
    requires
        results.len() == values.len(),
        forall|i: int| 0 <= i < results.len() ==> #[trigger] results[i] == Ok::<T, MismatchView>(
            values[i],
        ),
    ensures
        collect(results) == Ok::<Seq<T>, MismatchView>(values),
{
    reveal(collect);
    assert(collect(results)->Ok_0 =~= values);
}

/// Where the result at `i` failed and none before it did, `collect` gives
/// its error.
pub proof fn lemma_collect_failure<T>(results: Seq<Result<T, MismatchView>>, i: int)
    requires
        0 <= i < results.len(),
        results[i] is Err,
        forall|j: int| 0 <= j < i ==> (#[trigger] results[j]) is Ok,
    ensures
        collect(results) == Err::<Seq<T>, MismatchView>(results[i]->Err_0),
{
    reveal(collect);
    let k = first_failure(results);
    assert(0 <= k < results.len() && results[k] is Err && forall|j: int|
        0 <= j < k ==> (#[trigger] results[j]) is Ok);
    if k < i {
        assert(results[k] is Ok);
    }
    if i < k {
        assert(results[i] is Ok);
    }
}

/// The byte that a node stands for.
pub open spec fn byte_of(item: Item) -> Result<u8, MismatchView> {
    match strip(item) {
        Item::Integer(n) => if 0 <= n <= 255 {
            Ok(n as u8)
        } else {
            Err(MismatchView::Range)
        },
        _ => Err(MismatchView::Kind(Expected::Integer)),
    }
}

/// The byte that each node of a list stands for.
pub open spec fn bytes_of(items: Seq<Item>) -> Seq<Result<u8, MismatchView>> {
    Seq::new(items.len(), |i: int| byte_of(items[i]))
}

/// What a mapping has under a name.
pub enum Lookup {
    /// No entry has the name as its key.
    Missing,
    /// One entry has the name as its key, and this is its value.
    Found(Item),
    /// More than one entry has the name as its key.
    Duplicate,
}

/// What the entries of a mapping have under a name. Only a key that is a
/// string counts; other entries are passed over.
pub open spec fn lookup(entries: Seq<(Item, Item)>, name: Seq<char>) -> Lookup
    decreases entries.len(),
{
    if entries.len() == 0 {
        Lookup::Missing
    } else {
        let before = lookup(entries.drop_last(), name);
        if entries.last().0 == Item::Text(name) {
            match before {
                Lookup::Missing => Lookup::Found(entries.last().1),
                _ => Lookup::Duplicate,
            }
        } else {
            before
        }
    }
}

/// The place of the first variant of the given name, if there is one.
#[verifier::opaque]
pub open spec fn position(variants: Seq<(Seq<char>, Option<ShapeView>)>, name: Seq<char>) -> Option<
    int,
> {
    if exists|i: int| 0 <= i < variants.len() && (#[trigger] variants[i]).0 == name {
        Some(
            choose|i: int|
                0 <= i < variants.len() && (#[trigger] variants[i]).0 == name && forall|j: int|
                    0 <= j < i ==> (#[trigger] variants[j]).0 != name,
        )
    } else {
        None
    }
}

/// Where the variant at `k` has the name and none before it has, `position`
/// gives `k`.
pub proof fn lemma_position_first(
    variants: Seq<(Seq<char>, Option<ShapeView>)>,
    name: Seq<char>,
    k: int,
)
    requires
        0 <= k < variants.len(),
        variants[k].0 == name,
        forall|j: int| 0 <= j < k ==> (#[trigger] variants[j]).0 != name,
    ensures
        position(variants, name) == Some(k),
{
    reveal(position);
    let found = position(variants, name)->0;
    assert(0 <= found < variants.len() && variants[found].0 == name && forall|j: int|
        0 <= j < found ==> (#[trigger] variants[j]).0 != name);
    if found < k {
        assert(variants[found].0 != name);
    }
    if k < found {
        assert(variants[k].0 != name);
    }
}

/// Where no variant has the name, `position` gives nothing.
pub proof fn lemma_position_none(variants: Seq<(Seq<char>, Option<ShapeView>)>, name: Seq<char>)
    requires
        forall|j: int| 0 <= j < variants.len() ==> (#[trigger] variants[j]).0 != name,
    ensures
        position(variants, name) is None,
{
    reveal(position);
}

/// Each field's name with the value that was found for it.
pub open spec fn named(fields: Seq<(Seq<char>, ShapeView)>, values: Seq<DataView>) -> Seq<
    (Seq<char>, DataView),
> {
    Seq::new(fields.len(), |i: int| (fields[i].0, values[i]))
}

/// The piece of data of the given shape that a node stands for, or why it
/// stands for none.
///
/// Tags on a node are passed over. A wrapper is bound as what it wraps. An
/// optional value is absent for the null node and present otherwise. A byte
/// array is bound to a string of bytes or to an array of integers, either of
/// exactly its size. A tuple is bound to a list of exactly its length. The
/// fields of a record are looked up by name in a mapping, in the order of
/// their declaration: each must occur exactly once; entries under other keys
/// are passed over.
/// A variant without content is bound to its name, one with content to a
/// mapping of one entry from its name.
pub open spec fn bound(shape: ShapeView, item: Item) -> Result<DataView, MismatchView>
    decreases shape, 0nat,
{
    let node = strip(item);
    match shape {
        ShapeView::Unit => if node is Null {
            Ok(DataView::Unit)
        } else {
            Err(MismatchView::Kind(Expected::Null))
        },
        ShapeView::Bool => match node {
            Item::Bool(b) => Ok(DataView::Bool(b)),
            _ => Err(MismatchView::Kind(Expected::Bool)),
        },
        ShapeView::Unsigned => match node {
            Item::Integer(n) => if 0 <= n <= u64::MAX {
                Ok(DataView::Unsigned(n as u64))
            } else {
                Err(MismatchView::Range)
            },
            _ => Err(MismatchView::Kind(Expected::Integer)),
        },
        ShapeView::Signed => match node {
            Item::Integer(n) => if i64::MIN <= n <= i64::MAX {
                Ok(DataView::Signed(n as i64))
            } else {
                Err(MismatchView::Range)
            },
            _ => Err(MismatchView::Kind(Expected::Integer)),
        },
        ShapeView::Float => match node {
            Item::Float(bits) => Ok(DataView::Float(bits)),
            _ => Err(MismatchView::Kind(Expected::Float)),
        },
        ShapeView::Text => match node {
            Item::Text(text) => Ok(DataView::Text(text)),
            _ => Err(MismatchView::Kind(Expected::Text)),
        },
        ShapeView::ByteArray(size) => match node {
            Item::Bytes(bytes) => if bytes.len() == size {
                Ok(DataView::ByteArray(bytes))
            } else {
                Err(MismatchView::Length { expected: size, found: bytes.len() })
            },
            Item::Array(items) => if items.len() == size {
                match collect(bytes_of(items)) {
                    Ok(bytes) => Ok(DataView::ByteArray(bytes)),
                    Err(mismatch) => Err(mismatch),
                }
            } else {
                Err(MismatchView::Length { expected: size, found: items.len() })
            },
            _ => Err(MismatchView::Kind(Expected::Bytes)),
        },
        ShapeView::Optional(inner) => if node is Null {
            Ok(DataView::Optional(None))
        } else {
            match bound(*inner, node) {
                Ok(data) => Ok(DataView::Optional(Some(Box::new(data)))),
                Err(mismatch) => Err(mismatch),
            }
        },
        ShapeView::Sequence(inner) => match elements(node) {
            Some(items) => match collect(bound_each(*inner, items)) {
                Ok(values) => Ok(DataView::Sequence(values)),
                Err(mismatch) => Err(mismatch),
            },
            None => Err(MismatchView::Kind(Expected::Array)),
        },
        ShapeView::Tuple(shapes) => match elements(node) {
            Some(items) => if items.len() == shapes.len() {
                match collect(bound_tuple(shapes, items)) {
                    Ok(values) => Ok(DataView::Tuple(values)),
                    Err(mismatch) => Err(mismatch),
                }
            } else {
                Err(MismatchView::Length { expected: shapes.len(), found: items.len() })
            },
            None => Err(MismatchView::Kind(Expected::Array)),
        },
        ShapeView::Wrapper(inner) => match bound(*inner, node) {
            Ok(data) => Ok(DataView::Wrapper(Box::new(data))),
            Err(mismatch) => Err(mismatch),
        },
        ShapeView::Record(fields) => match node {
            Item::Mapping(entries) => match collect(bound_fields(fields, entries)) {
                Ok(values) => Ok(DataView::Record(named(fields, values))),
                Err(mismatch) => Err(mismatch),
            },
            _ => Err(MismatchView::Kind(Expected::Mapping)),
        },
        ShapeView::Choice(variants) => match node {
            Item::Text(name) => match position(variants, name) {
                Some(i) => if variants[i].1 is None {
                    Ok(DataView::Variant(name, None))
                } else {
                    Err(MismatchView::Kind(Expected::Mapping))
                },
                None => Err(MismatchView::UnknownVariant(name)),
            },
            Item::Mapping(entries) => if entries.len() == 1 {
                match entries[0].0 {
                    Item::Text(name) => match position(variants, name) {
                        Some(i) => match bound_content(variants, entries[0].1)[i] {
                            Ok(data) => Ok(DataView::Variant(name, Some(Box::new(data)))),
                            Err(mismatch) => Err(mismatch),
                        },
                        None => Err(MismatchView::UnknownVariant(name)),
                    },
                    _ => Err(MismatchView::Kind(Expected::Text)),
                }
            } else {
                Err(MismatchView::Length { expected: 1, found: entries.len() })
            },
            _ => Err(MismatchView::Kind(Expected::Variant)),
        },
    }
}

/// What each node of a list stands for, as a piece of one shape.
pub open spec fn bound_each(shape: ShapeView, items: Seq<Item>) -> Seq<
    Result<DataView, MismatchView>,
>
    decreases shape, 1nat,
{
    Seq::new(items.len(), |i: int| bound(shape, items[i]))
}

/// What each node of a list stands for, as a piece of the shape at its
/// place.
pub open spec fn bound_tuple(shapes: Seq<ShapeView>, items: Seq<Item>) -> Seq<
    Result<DataView, MismatchView>,
>
    decreases shapes, 1nat,
{
    Seq::new(
        shapes.len(),
        |i: int|
            if 0 <= i < shapes.len() {
                bound(shapes[i], items[i])
            } else {
                Err(MismatchView::Range)
            },
    )
}

/// What a mapping has for each field of a record.
pub open spec fn bound_fields(fields: Seq<(Seq<char>, ShapeView)>, entries: Seq<(Item, Item)>) -> Seq<
    Result<DataView, MismatchView>,
>
    decreases fields, 1nat,
{
    Seq::new(
        fields.len(),
        |i: int|
            if 0 <= i < fields.len() {
                match lookup(entries, fields[i].0) {
                    Lookup::Found(item) => bound(fields[i].1, item),
                    Lookup::Missing => Err(MismatchView::MissingField(fields[i].0)),
                    Lookup::Duplicate => Err(MismatchView::DuplicateField(fields[i].0)),
                }
            } else {
                Err(MismatchView::Range)
            },
    )
}

/// What a node stands for as the content of each variant of an enumeration.
/// A variant without content has none.
pub open spec fn bound_content(variants: Seq<(Seq<char>, Option<ShapeView>)>, item: Item) -> Seq<
    Result<DataView, MismatchView>,
>
    decreases variants, 1nat,
{
    Seq::new(
        variants.len(),
        |i: int|
            if 0 <= i < variants.len() {
                match variants[i].1 {
                    Some(content) => bound(content, item),
                    None => Err(MismatchView::Kind(Expected::Text)),
                }
            } else {
                Err(MismatchView::Range)
            },
    )
}

} // verus!

verus! {

/// Whether a result of binding is the one that `bound` gives.
pub open spec fn agrees(out: Result<Data, Mismatch>, expected: Result<DataView, MismatchView>) -> bool {
    match expected {
        Ok(data) => out matches Ok(x) && x@ == data,
        Err(mismatch) => out matches Err(e) && e@ == mismatch,
    }
}

/// What was found in a mapping under a name.
enum Hit<'a> {
    Missing,
    Found(&'a Node),
    Duplicate,
}

fn untagged(node: &Node) -> (out: &Node)
    ensures
        out@ == strip(node@),
        !(out is Tag),
    decreases node,
{
    match node {
        Node::Tag(_, inner) => untagged(&**inner),
        _ => node,
    }
}

fn to_byte(node: &Node) -> (out: Result<u8, Mismatch>)
    ensures
        match byte_of(node@) {
            Ok(b) => out matches Ok(x) && x == b,
            Err(mismatch) => out matches Err(e) && e@ == mismatch,
        },
{
    match untagged(node) {
        Node::Integer(n) => {
            if 0 <= *n && *n <= 255 {
                Ok(*n as u8)
            } else {
                Err(Mismatch::Range)
            }
        },
        _ => Err(Mismatch::Kind(Expected::Integer)),
    }
}

fn count_elements(node: &Node) -> (out: Option<usize>)
    ensures
        match elements(node@) {
            Some(items) => out == Some(items.len() as usize) && items.len() <= usize::MAX,
            None => out is None,
        },
{
    match node {
        Node::Array(items) => Some(items.len()),
        Node::Bytes(bytes) => Some(bytes.len()),
        _ => None,
    }
}

fn find_field<'a>(node: &'a Node, name: &String) -> (hit: Hit<'a>)
    requires
        node is Mapping,
    ensures
        match lookup(node@->Mapping_0, name@) {
            Lookup::Missing => hit is Missing,
            Lookup::Found(item) => hit matches Hit::Found(found) && found@ == item,
            Lookup::Duplicate => hit is Duplicate,
        },
{
    match node {
        Node::Mapping(entries) => {
            let ghost all = node@->Mapping_0;
            let mut hit: Hit<'a> = Hit::Missing;
            let mut k: usize = 0;
            assert(all.take(0) =~= Seq::<(Item, Item)>::empty());
            while k < entries.len()
                invariant
                    k <= entries.len(),
                    node == Node::Mapping(*entries),
                    all == node@->Mapping_0,
                    all.len() == entries.len(),
                    match lookup(all.take(k as int), name@) {
                        Lookup::Missing => hit is Missing,
                        Lookup::Found(item) => hit matches Hit::Found(found) && found@ == item,
                        Lookup::Duplicate => hit is Duplicate,
                    },
                decreases entries.len() - k,
            {
                let same = match &entries[k].0 {
                    Node::Text(key) => *key == *name,
                    _ => false,
                };
                proof {
                    let longer = all.take(k + 1);
                    assert(longer.drop_last() =~= all.take(k as int));
                    assert(longer.last() == all[k as int]);
                    assert(all[k as int] == (entries[k as int].0@, entries[k as int].1@));
                    assert(same == (all[k as int].0 == Item::Text(name@)));
                }
                if same {
                    hit = match hit {
                        Hit::Missing => Hit::Found(&entries[k].1),
                        _ => Hit::Duplicate,
                    };
                }
                k = k + 1;
            }
            assert(all.take(k as int) =~= all);
            hit
        },
        _ => Hit::Missing,
    }
}

fn find_variant(shape: &Shape, name: &String) -> (out: Option<usize>)
    requires
        shape is Choice,
    ensures
        match position(shape@->Choice_0, name@) {
            Some(i) => out == Some(i as usize) && 0 <= i < shape->Choice_0.len(),
            None => out is None,
        },
{
    match shape {
        Shape::Choice(variants) => {
            let ghost all = shape@->Choice_0;
            let mut k: usize = 0;
            while k < variants.len()
                invariant
                    k <= variants.len(),
                    shape == Shape::Choice(*variants),
                    all == shape@->Choice_0,
                    all.len() == variants.len(),
                    forall|j: int| 0 <= j < k ==> (#[trigger] all[j]).0 != name@,
                decreases variants.len() - k,
            {
                assert(all[k as int].0 == variants[k as int].0@);
                if variants[k].0 == *name {
                    proof {
                        lemma_position_first(all, name@, k as int);
                    }
                    return Some(k);
                }
                k = k + 1;
            }
            proof {
                lemma_position_none(all, name@);
            }
            None
        },
        _ => None,
    }
}

/// Whether a list of pieces holds the given values, place by place.
pub open spec fn holds_each(pieces: Seq<Data>, values: Seq<DataView>) -> bool {
    pieces.len() == values.len() && forall|j: int|
        0 <= j < pieces.len() ==> (#[trigger] pieces[j])@ == values[j]
}

/// The bytes that the nodes of an array stand for, or why one of them
/// stands for none.
fn bytes_from(core: &Node) -> (out: Result<Vec<u8>, Mismatch>)
    requires
        core is Array,
    ensures
        match collect(bytes_of(core@->Array_0)) {
            Ok(bytes) => out matches Ok(x) && x@ == bytes,
            Err(mismatch) => out matches Err(e) && e@ == mismatch,
        },
{
    match core {
        Node::Array(items) => {
            let ghost results = bytes_of(core@->Array_0);
            let mut out: Vec<u8> = Vec::with_capacity(items.len());
            let mut i: usize = 0;
            while i < items.len()
                invariant
                    i <= items.len(),
                    core == Node::Array(*items),
                    results == bytes_of(core@->Array_0),
                    out.len() == i,
                    forall|j: int|
                        0 <= j < i ==> #[trigger] results[j] == Ok::<u8, MismatchView>(out[j]),
                decreases items.len() - i,
            {
                assert(core@->Array_0[i as int] == items[i as int]@);
                match to_byte(&items[i]) {
                    Ok(b) => {
                        out.push(b);
                    },
                    Err(mismatch) => {
                        proof {
                            lemma_collect_failure(results, i as int);
                        }
                        return Err(mismatch);
                    },
                }
                i = i + 1;
            }
            proof {
                lemma_collect_values(results, out@);
            }
            Ok(out)
        },
        _ => Err(Mismatch::Kind(Expected::Bytes)),
    }
}

impl Shape {
    fn bind_element(&self, node: &Node, i: usize) -> (out: Result<Data, Mismatch>)
        requires
            elements(node@) matches Some(items) && i < items.len(),
        ensures
            agrees(out, bound(self@, elements(node@)->0[i as int])),
        decreases self, 2nat,
    {
        match node {
            Node::Array(items) => self.bind(&items[i]),
            Node::Bytes(bytes) => {
                let item = Node::Integer(bytes[i] as i128);
                self.bind(&item)
            },
            _ => Err(Mismatch::Kind(Expected::Array)),
        }
    }

    /// Binds each item of a list to this shape.
    fn bind_each(&self, core: &Node, count: usize) -> (out: Result<Vec<Data>, Mismatch>)
        requires
            elements(core@) matches Some(items) && items.len() == count,
        ensures
            match collect(bound_each(self@, elements(core@)->0)) {
                Ok(values) => out matches Ok(pieces) && holds_each(pieces@, values),
                Err(mismatch) => out matches Err(e) && e@ == mismatch,
            },
        decreases self, 3nat,
    {
        let ghost items = elements(core@)->0;
        let ghost results = bound_each(self@, items);
        let mut out: Vec<Data> = Vec::new();
        let mut i: usize = 0;
        while i < count
            invariant
                i <= count,
                count == items.len(),
                elements(core@) == Some(items),
                results == bound_each(self@, items),
                out.len() == i,
                forall|j: int|
                    0 <= j < i ==> #[trigger] results[j] == Ok::<DataView, MismatchView>(out[j]@),
            decreases count - i,
        {
            assert(results[i as int] == bound(self@, items[i as int]));
            match self.bind_element(core, i) {
                Ok(data) => {
                    out.push(data);
                },
                Err(mismatch) => {
                    proof {
                        lemma_collect_failure(results, i as int);
                    }
                    return Err(mismatch);
                },
            }
            i = i + 1;
        }
        proof {
            lemma_collect_values(results, Seq::new(out.len() as nat, |j: int| out[j]@));
        }
        Ok(out)
    }

    /// Binds each item of a list to the shape at its place in this tuple.
    fn bind_tuple(&self, core: &Node, count: usize) -> (out: Result<Vec<Data>, Mismatch>)
        requires
            self is Tuple,
            elements(core@) matches Some(items) && items.len() == count,
            count == self@->Tuple_0.len(),
        ensures
            match collect(bound_tuple(self@->Tuple_0, elements(core@)->0)) {
                Ok(values) => out matches Ok(pieces) && holds_each(pieces@, values),
                Err(mismatch) => out matches Err(e) && e@ == mismatch,
            },
        decreases self, 0nat,
    {
        match self {
            Shape::Tuple(shapes) => {
                let ghost items = elements(core@)->0;
                let ghost results = bound_tuple(self@->Tuple_0, items);
                let mut out: Vec<Data> = Vec::new();
                let mut i: usize = 0;
                while i < count
                    invariant
                        i <= count,
                        count == items.len(),
                        count == shapes.len(),
                        self == Shape::Tuple(*shapes),
                        elements(core@) == Some(items),
                        results == bound_tuple(self@->Tuple_0, items),
                        out.len() == i,
                        forall|j: int|
                            0 <= j < i ==> #[trigger] results[j] == Ok::<DataView, MismatchView>(
                                out[j]@,
                            ),
                    decreases count - i,
                {
                    assert(self@->Tuple_0[i as int] == shapes[i as int]@);
                    assert(results[i as int] == bound(shapes[i as int]@, items[i as int]));
                    assert(decreases_to!(self => self->Tuple_0));
                    assert(decreases_to!(shapes => shapes[i as int]));
                    match shapes[i].bind_element(core, i) {
                        Ok(data) => {
                            out.push(data);
                        },
                        Err(mismatch) => {
                            proof {
                                lemma_collect_failure(results, i as int);
                            }
                            return Err(mismatch);
                        },
                    }
                    i = i + 1;
                }
                proof {
                    lemma_collect_values(results, Seq::new(out.len() as nat, |j: int| out[j]@));
                }
                Ok(out)
            },
            _ => Err(Mismatch::Kind(Expected::Array)),
        }
    }

    /// Binds what a mapping has for each field of this record.
    fn bind_fields(&self, core: &Node) -> (out: Result<Vec<(String, Data)>, Mismatch>)
        requires
            self is Record,
            core is Mapping,
        ensures
            match collect(bound_fields(self@->Record_0, core@->Mapping_0)) {
                Ok(values) => out matches Ok(pieces) && pieces.len() == values.len()
                    && pieces.len() == self@->Record_0.len() && forall|j: int|
                    0 <= j < pieces.len() ==> (#[trigger] pieces[j]).0@ == self@->Record_0[j].0
                        && pieces[j].1@ == values[j],
                Err(mismatch) => out matches Err(e) && e@ == mismatch,
            },
        decreases self, 0nat,
    {
        match self {
            Shape::Record(fields) => {
                let ghost declared = self@->Record_0;
                let ghost results = bound_fields(declared, core@->Mapping_0);
                let mut out: Vec<(String, Data)> = Vec::new();
                let mut i: usize = 0;
                while i < fields.len()
                    invariant
                        i <= fields.len(),
                        self == Shape::Record(*fields),
                        core is Mapping,
                        declared == self@->Record_0,
                        declared.len() == fields.len(),
                        results == bound_fields(declared, core@->Mapping_0),
                        out.len() == i,
                        forall|j: int|
                            0 <= j < i ==> #[trigger] results[j] == Ok::<DataView, MismatchView>(
                                out[j].1@,
                            ) && out[j].0@ == declared[j].0,
                    decreases fields.len() - i,
                {
                    assert(declared[i as int] == (fields[i as int].0@, fields[i as int].1@));
                    assert(decreases_to!(self => self->Record_0));
                    assert(decreases_to!(fields => fields[i as int]));
                    assert(decreases_to!(fields[i as int] => fields[i as int].1));
                    let name = &fields[i].0;
                    let outcome = match find_field(core, name) {
                        Hit::Found(item) => fields[i].1.bind(item),
                        Hit::Missing => Err(Mismatch::MissingField(name.clone())),
                        Hit::Duplicate => Err(Mismatch::DuplicateField(name.clone())),
                    };
                    assert(agrees(outcome, results[i as int]));
                    match outcome {
                        Ok(data) => {
                            out.push((name.clone(), data));
                        },
                        Err(mismatch) => {
                            proof {
                                lemma_collect_failure(results, i as int);
                            }
                            return Err(mismatch);
                        },
                    }
                    i = i + 1;
                }
                proof {
                    let values = Seq::new(out.len() as nat, |j: int| out[j].1@);
                    lemma_collect_values(results, values);
                    assert forall|j: int| 0 <= j < out.len() implies (#[trigger] out[j]).0@
                        == declared[j].0 && out[j].1@ == values[j] by {
                        assert(results[j] == Ok::<DataView, MismatchView>(out[j].1@));
                    }
                }
                Ok(out)
            },
            _ => Err(Mismatch::Kind(Expected::Mapping)),
        }
    }

    /// Binds a node without tags to this enumeration.
    fn bind_choice(&self, core: &Node) -> (out: Result<Data, Mismatch>)
        requires
            self is Choice,
            !(core is Tag),
        ensures
            agrees(out, bound(self@, core@)),
        decreases self, 0nat,
    {
        match self {
            Shape::Choice(variants) => match core {
                Node::Text(name) => match find_variant(self, name) {
                    Some(k) => {
                        assert(self@->Choice_0[k as int].1 is None == variants[k as int].1 is None);
                        match &variants[k].1 {
                            None => Ok(Data::Variant(name.clone(), None)),
                            Some(_) => Err(Mismatch::Kind(Expected::Mapping)),
                        }
                    },
                    None => Err(Mismatch::UnknownVariant(name.clone())),
                },
                Node::Mapping(entries) => {
                    if entries.len() != 1 {
                        return Err(Mismatch::Length { expected: 1, found: entries.len() });
                    }
                    assert(core@->Mapping_0[0] == (entries[0].0@, entries[0].1@));
                    match &entries[0].0 {
                        Node::Text(name) => match find_variant(self, name) {
                            Some(k) => {
                                let ghost all = self@->Choice_0;
                                assert(all[k as int].1 == match variants[k as int].1 {
                                    Some(content) => Some(content@),
                                    None => None,
                                });
                                let ghost content_node = entries[0].1@;
                                assert(bound_content(all, content_node)[k as int] == match all[k
                                    as int].1 {
                                    Some(content) => bound(content, content_node),
                                    None => Err(MismatchView::Kind(Expected::Text)),
                                });
                                assert(decreases_to!(self => self->Choice_0));
                                assert(decreases_to!(variants => variants[k as int]));
                                assert(decreases_to!(variants[k as int] => variants[k as int].1));
                                match &variants[k].1 {
                                    Some(content) => {
                                        assert(decreases_to!(variants[k as int].1 => content));
                                        match content.bind(&entries[0].1) {
                                            Ok(data) => Ok(
                                                Data::Variant(name.clone(), Some(Box::new(data))),
                                            ),
                                            Err(mismatch) => Err(mismatch),
                                        }
                                    },
                                    None => Err(Mismatch::Kind(Expected::Text)),
                                }
                            },
                            None => Err(Mismatch::UnknownVariant(name.clone())),
                        },
                        _ => Err(Mismatch::Kind(Expected::Text)),
                    }
                },
                _ => Err(Mismatch::Kind(Expected::Variant)),
            },
            _ => Err(Mismatch::Kind(Expected::Variant)),
        }
    }

    /// Binds a node to this shape: builds the piece of data of this shape
    /// that the node stands for, or says why it stands for none.
    pub fn bind(&self, node: &Node) -> (out: Result<Data, Mismatch>)
        ensures
            agrees(out, bound(self@, node@)),
        decreases self, 1nat,
    {
        let core = untagged(node);
        match self {
            Shape::Unit => match core {
                Node::Null => Ok(Data::Unit),
                _ => Err(Mismatch::Kind(Expected::Null)),
            },
            Shape::Bool => match core {
                Node::Bool(b) => Ok(Data::Bool(*b)),
                _ => Err(Mismatch::Kind(Expected::Bool)),
            },
            Shape::Unsigned => match core {
                Node::Integer(n) => {
                    if 0 <= *n && *n <= 0xffff_ffff_ffff_ffff {
                        Ok(Data::Unsigned(*n as u64))
                    } else {
                        Err(Mismatch::Range)
                    }
                },
                _ => Err(Mismatch::Kind(Expected::Integer)),
            },
            Shape::Signed => match core {
                Node::Integer(n) => {
                    if -0x8000_0000_0000_0000 <= *n && *n <= 0x7fff_ffff_ffff_ffff {
                        Ok(Data::Signed(*n as i64))
                    } else {
                        Err(Mismatch::Range)
                    }
                },
                _ => Err(Mismatch::Kind(Expected::Integer)),
            },
            Shape::Float => match core {
                Node::Float(bits) => Ok(Data::Float(*bits)),
                _ => Err(Mismatch::Kind(Expected::Float)),
            },
            Shape::Text => match core {
                Node::Text(text) => Ok(Data::Text(text.clone())),
                _ => Err(Mismatch::Kind(Expected::Text)),
            },
            Shape::ByteArray(size) => match core {
                Node::Bytes(bytes) => {
                    if bytes.len() == *size {
                        Ok(Data::ByteArray(slice_to_vec(bytes.as_slice())))
                    } else {
                        Err(Mismatch::Length { expected: *size, found: bytes.len() })
                    }
                },
                Node::Array(items) => {
                    if items.len() == *size {
                        match bytes_from(core) {
                            Ok(bytes) => Ok(Data::ByteArray(bytes)),
                            Err(mismatch) => Err(mismatch),
                        }
                    } else {
                        Err(Mismatch::Length { expected: *size, found: items.len() })
                    }
                },
                _ => Err(Mismatch::Kind(Expected::Bytes)),
            },
            Shape::Optional(inner) => match core {
                Node::Null => Ok(Data::Optional(None)),
                _ => match inner.bind(core) {
                    Ok(data) => Ok(Data::Optional(Some(Box::new(data)))),
                    Err(mismatch) => Err(mismatch),
                },
            },
            Shape::Sequence(inner) => match count_elements(core) {
                Some(count) => match inner.bind_each(core, count) {
                    Ok(pieces) => {
                        let data = Data::Sequence(pieces);
                        assert(data@->Sequence_0 =~= collect(
                            bound_each(inner@, elements(core@)->0),
                        )->Ok_0);
                        Ok(data)
                    },
                    Err(mismatch) => Err(mismatch),
                },
                None => Err(Mismatch::Kind(Expected::Array)),
            },
            Shape::Tuple(shapes) => match count_elements(core) {
                Some(count) => {
                    if count == shapes.len() {
                        match self.bind_tuple(core, count) {
                            Ok(pieces) => {
                                let data = Data::Tuple(pieces);
                                assert(data@->Tuple_0 =~= collect(
                                    bound_tuple(self@->Tuple_0, elements(core@)->0),
                                )->Ok_0);
                                Ok(data)
                            },
                            Err(mismatch) => Err(mismatch),
                        }
                    } else {
                        Err(Mismatch::Length { expected: shapes.len(), found: count })
                    }
                },
                None => Err(Mismatch::Kind(Expected::Array)),
            },
            Shape::Wrapper(inner) => match inner.bind(core) {
                Ok(data) => Ok(Data::Wrapper(Box::new(data))),
                Err(mismatch) => Err(mismatch),
            },
            Shape::Record(fields) => match core {
                Node::Mapping(_) => match self.bind_fields(core) {
                    Ok(pieces) => {
                        let data = Data::Record(pieces);
                        assert(data@->Record_0 =~= named(
                            self@->Record_0,
                            collect(bound_fields(self@->Record_0, core@->Mapping_0))->Ok_0,
                        ));
                        Ok(data)
                    },
                    Err(mismatch) => Err(mismatch),
                },
                _ => Err(Mismatch::Kind(Expected::Mapping)),
            },
            Shape::Choice(_) => self.bind_choice(core),
        }
    }
}

} // verus!

verus! {

fn copies_of(shapes: &Vec<Shape>) -> (out: Vec<Shape>)
    ensures
        out.len() == shapes.len(),
        forall|i: int| 0 <= i < shapes.len() ==> (#[trigger] out[i])@ == shapes[i]@,
    decreases shapes,
{
    let mut out: Vec<Shape> = Vec::new();
    let mut i: usize = 0;
    while i < shapes.len()
        invariant
            i <= shapes.len(),
            out.len() == i,
            forall|j: int| 0 <= j < i ==> (#[trigger] out[j])@ == shapes[j]@,
        decreases shapes.len() - i,
    {
        out.push(shapes[i].copy());
        i = i + 1;
    }
    out
}

impl Shape {
    /// Builds a shape that asks for what this shape asks for.
    pub fn copy(&self) -> (out: Shape)
        ensures
            out@ == self@,
        decreases self,
    {
        match self {
            Shape::Unit => Shape::Unit,
            Shape::Bool => Shape::Bool,
            Shape::Unsigned => Shape::Unsigned,
            Shape::Signed => Shape::Signed,
            Shape::Float => Shape::Float,
            Shape::Text => Shape::Text,
            Shape::ByteArray(size) => Shape::ByteArray(*size),
            Shape::Optional(inner) => Shape::Optional(Box::new(inner.copy())),
            Shape::Sequence(inner) => Shape::Sequence(Box::new(inner.copy())),
            Shape::Tuple(shapes) => {
                let out = Shape::Tuple(copies_of(shapes));
                assert(out@->Tuple_0 =~= self@->Tuple_0);
                out
            },
            Shape::Wrapper(inner) => Shape::Wrapper(Box::new(inner.copy())),
            Shape::Record(fields) => {
                let mut copies: Vec<(String, Shape)> = Vec::new();
                let mut i: usize = 0;
                while i < fields.len()
                    invariant
                        i <= fields.len(),
                        self == Shape::Record(*fields),
                        copies.len() == i,
                        forall|j: int|
                            0 <= j < i ==> (#[trigger] copies[j]).0@ == fields[j].0@
                                && copies[j].1@ == fields[j].1@,
                    decreases fields.len() - i,
                {
                    assert(decreases_to!(self => self->Record_0));
                    assert(decreases_to!(fields => fields[i as int]));
                    assert(decreases_to!(fields[i as int] => fields[i as int].1));
                    let name = fields[i].0.clone();
                    let shape = fields[i].1.copy();
                    copies.push((name, shape));
                    i = i + 1;
                }
                let out = Shape::Record(copies);
                assert(out@->Record_0 =~= self@->Record_0);
                out
            },
            Shape::Choice(variants) => {
                let mut copies: Vec<(String, Option<Shape>)> = Vec::new();
                let mut i: usize = 0;
                while i < variants.len()
                    invariant
                        i <= variants.len(),
                        self == Shape::Choice(*variants),
                        copies.len() == i,
                        forall|j: int|
                            0 <= j < i ==> (#[trigger] copies[j]).0@ == variants[j].0@ && (
                            match (copies[j].1, variants[j].1) {
                                (Some(a), Some(b)) => a@ == b@,
                                (None, None) => true,
                                _ => false,
                            }),
                    decreases variants.len() - i,
                {
                    assert(decreases_to!(self => self->Choice_0));
                    assert(decreases_to!(variants => variants[i as int]));
                    assert(decreases_to!(variants[i as int] => variants[i as int].1));
                    let name = variants[i].0.clone();
                    let content = match &variants[i].1 {
                        Some(shape) => {
                            assert(decreases_to!(variants[i as int].1 => shape));
                            Some(shape.copy())
                        },
                        None => None,
                    };
                    copies.push((name, content));
                    i = i + 1;
                }
                let out = Shape::Choice(copies);
                assert(out@->Choice_0 =~= self@->Choice_0);
                out
            },
        }
    }
}

impl Clone for Shape {
    fn clone(&self) -> (out: Shape)
        ensures
            out@ == self@,
    {
        self.copy()
    }
}

} // verus!
