//! What holds of encoding and binding together.

use crate::cbor::decoding;
use crate::data::{encoded, Data, DataView};
use crate::decode::{ErrorView, FailureView, Kind};
use crate::node::Item;
use crate::shape::{
    bound, bound_content, bound_each, bound_fields, bound_tuple, elements,
    lemma_collect_values, lemma_position_first, lookup, named, strip, Expected, Lookup,
    MismatchView, ShapeView,
};
use crate::{deserialized, serialized};
use vstd::prelude::*;

verus! {

/// Whether a piece of the given shape may be stood for by the null node.
pub open spec fn nullable(shape: ShapeView) -> bool
    decreases shape,
{
    match shape {
        ShapeView::Unit => true,
        ShapeView::Optional(_) => true,
        ShapeView::Wrapper(inner) => nullable(*inner),
        _ => false,
    }
}

/// Whether no two entries of a list have the same name.
pub open spec fn distinct_names<T>(entries: Seq<(Seq<char>, T)>) -> bool {
    forall|i: int, j: int|
        0 <= i < j < entries.len() ==> (#[trigger] entries[i]).0 != (#[trigger] entries[j]).0
}

/// Whether a shape is one that a type can have, and that is decoded without
/// ambiguity: the fields of a record have distinct names, so have the
/// variants of an enumeration, and what is optional is not itself something
/// that the null node may stand for.
pub open spec fn sound(shape: ShapeView) -> bool
    decreases shape,
{
    match shape {
        ShapeView::Optional(inner) => sound(*inner) && !nullable(*inner),
        ShapeView::Sequence(inner) => sound(*inner),
        ShapeView::Tuple(shapes) => forall|i: int|
            0 <= i < shapes.len() ==> sound(#[trigger] shapes[i]),
        ShapeView::Wrapper(inner) => sound(*inner),
        ShapeView::Record(fields) => distinct_names(fields) && forall|i: int|
            0 <= i < fields.len() ==> sound((#[trigger] fields[i]).1),
        ShapeView::Choice(variants) => distinct_names(variants) && forall|i: int|
            0 <= i < variants.len() ==> ((#[trigger] variants[i]).1 matches Some(content)
                ==> sound(content)),
        _ => true,
    }
}

/// Whether a piece of data has the given shape.
pub open spec fn conforms(data: DataView, shape: ShapeView) -> bool
    decreases data,
{
    match data {
        DataView::Unit => shape is Unit,
        DataView::Bool(_) => shape is Bool,
        DataView::Unsigned(_) => shape is Unsigned,
        DataView::Signed(_) => shape is Signed,
        DataView::Float(_) => shape is Float,
        DataView::Text(_) => shape is Text,
        DataView::ByteArray(bytes) => shape matches ShapeView::ByteArray(size) && bytes.len()
            == size,
        DataView::Optional(None) => shape is Optional,
        DataView::Optional(Some(inner)) => shape matches ShapeView::Optional(s) && conforms(
            *inner,
            *s,
        ),
        DataView::Sequence(items) => shape matches ShapeView::Sequence(s) && forall|i: int|
            0 <= i < items.len() ==> conforms(#[trigger] items[i], *s),
        DataView::Tuple(items) => shape matches ShapeView::Tuple(shapes) && shapes.len()
            == items.len() && forall|i: int|
            0 <= i < items.len() ==> conforms(#[trigger] items[i], shapes[i]),
        DataView::Wrapper(inner) => shape matches ShapeView::Wrapper(s) && conforms(*inner, *s),
        DataView::Record(values) => shape matches ShapeView::Record(fields) && fields.len()
            == values.len() && forall|i: int|
            0 <= i < values.len() ==> (#[trigger] values[i]).0 == fields[i].0 && conforms(
                values[i].1,
                fields[i].1,
            ),
        DataView::Variant(name, content) => shape matches ShapeView::Choice(variants)
            && exists|i: int|
            0 <= i < variants.len() && (#[trigger] variants[i]).0 == name && match content {
                Some(inner) => variants[i].1 matches Some(s) && conforms(*inner, s),
                None => variants[i].1 is None,
            },
    }
}

/// The node that stands for a piece of data carries no tag.
pub proof fn lemma_encoded_carries_no_tag(data: DataView)
    ensures
        strip(encoded(data)) == encoded(data),
    decreases data,
{
    match data {
        DataView::Optional(Some(inner)) => lemma_encoded_carries_no_tag(*inner),
        DataView::Wrapper(inner) => lemma_encoded_carries_no_tag(*inner),
        _ => {},
    }
}

/// Binding passes over the tags on a node.
pub proof fn lemma_bound_passes_over_tags(shape: ShapeView, item: Item)
    ensures
        bound(shape, strip(item)) == bound(shape, item),
{
    lemma_strip_twice(item);
}

/// Stripping the tags of a node twice is stripping them once.
pub proof fn lemma_strip_twice(item: Item)
    ensures
        strip(strip(item)) == strip(item),
    decreases item,
{
    match item {
        Item::Tag(_, inner) => lemma_strip_twice(*inner),
        _ => {},
    }
}

/// Only a piece of a shape that the null node may stand for is stood for by
/// the null node.
pub proof fn lemma_encoded_is_not_null(data: DataView, shape: ShapeView)
    requires
        conforms(data, shape),
        !nullable(shape),
    ensures
        !(encoded(data) is Null),
    decreases data,
{
    match data {
        DataView::Wrapper(inner) => {
            lemma_encoded_is_not_null(*inner, *shape->Wrapper_0);
        },
        _ => {},
    }
}

/// A mapping without an entry under a name has nothing under it.
proof fn lemma_lookup_absent(entries: Seq<(Item, Item)>, name: Seq<char>)
    requires
        forall|k: int| 0 <= k < entries.len() ==> (#[trigger] entries[k]).0 != Item::Text(name),
    ensures
        lookup(entries, name) == Lookup::Missing,
    decreases entries.len(),
{
    if entries.len() > 0 {
        let before = entries.drop_last();
        assert forall|k: int| 0 <= k < before.len() implies (#[trigger] before[k]).0
            != Item::Text(name) by {
            assert(before[k] == entries[k]);
        }
        lemma_lookup_absent(before, name);
        assert(entries.last() == entries[entries.len() - 1]);
    }
}

/// A mapping with a single entry under a name has the value of that entry
/// under it.
proof fn lemma_lookup_single(entries: Seq<(Item, Item)>, name: Seq<char>, i: int)
    requires
        0 <= i < entries.len(),
        entries[i].0 == Item::Text(name),
        forall|k: int|
            0 <= k < entries.len() && k != i ==> (#[trigger] entries[k]).0 != Item::Text(name),
    ensures
        lookup(entries, name) == Lookup::Found(entries[i].1),
    decreases entries.len(),
{
    let before = entries.drop_last();
    assert(entries.last() == entries[entries.len() - 1]);
    if i == entries.len() - 1 {
        assert forall|k: int| 0 <= k < before.len() implies (#[trigger] before[k]).0
            != Item::Text(name) by {
            assert(before[k] == entries[k]);
        }
        lemma_lookup_absent(before, name);
    } else {
        assert(before[i] == entries[i]);
        assert forall|k: int| 0 <= k < before.len() && k != i implies (#[trigger] before[k]).0
            != Item::Text(name) by {
            assert(before[k] == entries[k]);
        }
        lemma_lookup_single(before, name, i);
    }
}

/// Decoding gives back what was encoded: the node that stands for a piece
/// of data binds, to a sound shape that the piece has, as that piece.
pub proof fn lemma_round_trip(data: DataView, shape: ShapeView)
    requires
        sound(shape),
        conforms(data, shape),
    ensures
        bound(shape, encoded(data)) == Ok::<DataView, MismatchView>(data),
    decreases data,
{
    lemma_encoded_carries_no_tag(data);
    match data {
        DataView::Optional(Some(inner)) => {
            let s = *shape->Optional_0;
            lemma_round_trip(*inner, s);
            lemma_encoded_is_not_null(*inner, s);
        },
        DataView::Sequence(items) => {
            let s = *shape->Sequence_0;
            let nodes = encoded(data)->Array_0;
            let results = bound_each(s, nodes);
            assert(elements(encoded(data)) == Some(nodes));
            assert forall|i: int| 0 <= i < results.len() implies #[trigger] results[i] == Ok::<
                DataView,
                MismatchView,
            >(items[i]) by {
                lemma_round_trip(items[i], s);
            }
            lemma_collect_values(results, items);
        },
        DataView::Tuple(items) => {
            let shapes = shape->Tuple_0;
            let nodes = encoded(data)->Array_0;
            let results = bound_tuple(shapes, nodes);
            assert(elements(encoded(data)) == Some(nodes));
            assert forall|i: int| 0 <= i < results.len() implies #[trigger] results[i] == Ok::<
                DataView,
                MismatchView,
            >(items[i]) by {
                lemma_round_trip(items[i], shapes[i]);
            }
            lemma_collect_values(results, items);
        },
        DataView::Wrapper(inner) => {
            lemma_round_trip(*inner, *shape->Wrapper_0);
        },
        DataView::Record(values) => {
            let fields = shape->Record_0;
            let entries = encoded(data)->Mapping_0;
            let results = bound_fields(fields, entries);
            let pieces = Seq::new(values.len(), |i: int| values[i].1);
            assert forall|i: int| 0 <= i < results.len() implies #[trigger] results[i] == Ok::<
                DataView,
                MismatchView,
            >(pieces[i]) by {
                assert(entries[i] == (Item::Text(values[i].0), encoded(values[i].1)));
                assert forall|k: int| 0 <= k < entries.len() && k != i implies (
                #[trigger] entries[k]).0 != Item::Text(fields[i].0) by {
                    assert(entries[k].0 == Item::Text(values[k].0));
                    assert(values[k].0 == fields[k].0);
                    if k < i {
                        assert(fields[k].0 != fields[i].0);
                    } else {
                        assert(fields[i].0 != fields[k].0);
                    }
                }
                lemma_lookup_single(entries, fields[i].0, i);
                lemma_round_trip(values[i].1, fields[i].1);
            }
            lemma_collect_values(results, pieces);
            assert(named(fields, pieces) =~= values);
        },
        DataView::Variant(name, content) => {
            let variants = shape->Choice_0;
            let i = choose|i: int|
                0 <= i < variants.len() && (#[trigger] variants[i]).0 == name && match content {
                    Some(inner) => variants[i].1 matches Some(s) && conforms(*inner, s),
                    None => variants[i].1 is None,
                };
            assert forall|j: int| 0 <= j < i implies (#[trigger] variants[j]).0 != name by {
                assert(variants[j].0 != variants[i].0);
            }
            lemma_position_first(variants, name, i);
            match content {
                Some(inner) => {
                    let s = variants[i].1->Some_0;
                    lemma_round_trip(*inner, s);
                    let entries = encoded(data)->Mapping_0;
                    assert(entries.len() == 1);
                    assert(entries[0] == (Item::Text(name), encoded(*inner)));
                    assert(bound_content(variants, encoded(*inner))[i] == bound(
                        s,
                        encoded(*inner),
                    ));
                },
                None => {},
            }
        },
        _ => {},
    }
}

/// Deserializing gives back what was serialized, wherever decoding the bytes
/// gives back the node that they were encoded from.
pub proof fn lemma_round_trip_through_bytes(data: DataView, shape: ShapeView)
    requires
        sound(shape),
        conforms(data, shape),
    ensures
        decoding(serialized(data)) == Ok::<Item, FailureView>(encoded(data)) ==> deserialized(
            shape,
            serialized(data),
        ) == Ok::<DataView, ErrorView>(data),
{
    lemma_round_trip(data, shape);
}

/// A wrapper is transparent. It is encoded as what it wraps, bit for bit;
/// what stands for the wrapper binds to the shape of what it wraps, and what
/// stands for the wrapped piece binds to the shape of the wrapper. So the
/// bytes of either deserialize as the other, wherever decoding them gives
/// back the node that they were encoded from.
pub proof fn lemma_wrapper_is_transparent(data: DataView, shape: ShapeView)
    requires
        sound(shape),
        conforms(data, shape),
    ensures
        encoded(DataView::Wrapper(Box::new(data))) == encoded(data),
        serialized(DataView::Wrapper(Box::new(data))) == serialized(data),
        bound(shape, encoded(DataView::Wrapper(Box::new(data)))) == Ok::<DataView, MismatchView>(
            data,
        ),
        bound(ShapeView::Wrapper(Box::new(shape)), encoded(data)) == Ok::<DataView, MismatchView>(
            DataView::Wrapper(Box::new(data)),
        ),
        decoding(serialized(data)) == Ok::<Item, FailureView>(encoded(data)) ==> {
            &&& deserialized(shape, serialized(DataView::Wrapper(Box::new(data)))) == Ok::<
                DataView,
                ErrorView,
            >(data)
            &&& deserialized(ShapeView::Wrapper(Box::new(shape)), serialized(data)) == Ok::<
                DataView,
                ErrorView,
            >(DataView::Wrapper(Box::new(data)))
        },
{
    lemma_round_trip(data, shape);
    lemma_round_trip(DataView::Wrapper(Box::new(data)), ShapeView::Wrapper(Box::new(shape)));
}

/// Binding to the shape of a wrapper is binding to the shape of what it
/// wraps, whatever the node.
pub proof fn lemma_wrapper_binds_as_inner(shape: ShapeView, item: Item)
    ensures
        bound(ShapeView::Wrapper(Box::new(shape)), item) == match bound(shape, item) {
            Ok(data) => Ok::<DataView, MismatchView>(DataView::Wrapper(Box::new(data))),
            Err(mismatch) => Err(mismatch),
        },
{
    lemma_bound_passes_over_tags(shape, item);
}

/// Two pieces of data that hold the same are encoded in the same bytes.
pub proof fn lemma_serialized_is_determined(a: Data, b: Data)
    requires
        a@ == b@,
    ensures
        serialized(a@) == serialized(b@),
{
}

/// What stands for a tuple does not bind to a record: the mismatch says
/// that a mapping was expected.
pub proof fn lemma_tuple_is_no_record(items: Seq<DataView>, fields: Seq<(Seq<char>, ShapeView)>)
    ensures
        bound(ShapeView::Record(fields), encoded(DataView::Tuple(items))) == Err::<
            DataView,
            MismatchView,
        >(MismatchView::Kind(Expected::Mapping)),
{
}

/// The class of every error of decoding. A buffer that is decoded to a node
/// gives the piece that the node binds to, or a semantic error; one that is
/// not gives the error of the class of the failure, and no piece at all.
pub proof fn lemma_error_classes(shape: ShapeView, bytes: Seq<u8>)
    ensures
        match decoding(bytes) {
            Ok(item) => match deserialized(shape, bytes) {
                Ok(data) => bound(shape, item) == Ok::<DataView, MismatchView>(data),
                Err(error) => bound(shape, item) is Err && error.kind == Kind::SemanticError,
            },
            Err(failure) => deserialized(shape, bytes) matches Err(error) && error.kind == (
            match failure {
                FailureView::Io(_) => Kind::IoError,
                FailureView::Syntax(_) => Kind::SyntaxError,
                FailureView::Semantic(_, _) => Kind::SemanticError,
                FailureView::RecursionLimitExceeded => Kind::RecursionLimitExceeded,
            }),
        },
{
}

} // verus!
