use mc_util_serial::{deserialize, serialize, Data, Shape};

// A structure to test serialization and deserialization
#[derive(PartialEq, Debug)]
struct TestStruct {
    vec: Vec<u8>,
    integer: u64,
    float: f64,
}

fn test_struct_shape() -> Shape {
    Shape::Record(vec![
        ("vec".to_string(), Shape::Sequence(Box::new(Shape::Unsigned))),
        ("integer".to_string(), Shape::Unsigned),
        ("float".to_string(), Shape::Float),
    ])
}

fn test_struct_data(value: &TestStruct) -> Data {
    Data::Record(vec![
        (
            "vec".to_string(),
            Data::Sequence(value.vec.iter().map(|b| Data::Unsigned(*b as u64)).collect()),
        ),
        ("integer".to_string(), Data::Unsigned(value.integer)),
        ("float".to_string(), Data::Float(value.float.to_bits())),
    ])
}

fn test_struct_from(data: Data) -> TestStruct {
    let Data::Record(fields) = data else { panic!("not a record") };
    let mut fields = fields.into_iter();
    let Some((_, Data::Sequence(items))) = fields.next() else { panic!("no vec") };
    let Some((_, Data::Unsigned(integer))) = fields.next() else { panic!("no integer") };
    let Some((_, Data::Float(bits))) = fields.next() else { panic!("no float") };
    let vec = items
        .into_iter()
        .map(|item| {
            let Data::Unsigned(b) = item else { panic!("not a byte") };
            b as u8
        })
        .collect();
    TestStruct { vec, integer, float: f64::from_bits(bits) }
}

fn array_data(bytes: &[u8; 32]) -> Data {
    Data::ByteArray(bytes.to_vec())
}

fn array_from(data: Data) -> [u8; 32] {
    let Data::ByteArray(bytes) = data else { panic!("not a byte array") };
    bytes.try_into().expect("not 32 bytes")
}

/// Single, named byte array in a struct
#[derive(Debug, Default, PartialEq)]
struct ByteStruct {
    bytes: [u8; 32],
}

fn byte_struct_shape() -> Shape {
    Shape::Record(vec![("bytes".to_string(), Shape::ByteArray(32))])
}

fn byte_struct_data(value: &ByteStruct) -> Data {
    Data::Record(vec![("bytes".to_string(), array_data(&value.bytes))])
}

fn byte_struct_from(data: Data) -> ByteStruct {
    let Data::Record(fields) = data else { panic!("not a record") };
    let Some((_, bytes)) = fields.into_iter().next() else { panic!("no field") };
    ByteStruct { bytes: array_from(bytes) }
}

/// Unnamed byte array in structs
#[derive(Debug, Default, PartialEq)]
struct NewtypeBytes([u8; 32]);

fn newtype_shape() -> Shape {
    Shape::Wrapper(Box::new(Shape::ByteArray(32)))
}

fn newtype_data(value: &NewtypeBytes) -> Data {
    Data::Wrapper(Box::new(array_data(&value.0)))
}

fn newtype_from(data: Data) -> NewtypeBytes {
    let Data::Wrapper(inner) = data else { panic!("not a wrapper") };
    NewtypeBytes(array_from(*inner))
}

/// Tuple struct with unnamed byte arrays
#[derive(Debug, Default, PartialEq)]
struct TupleStruct([u8; 32], [u8; 32]);

fn tuple_struct_shape() -> Shape {
    Shape::Tuple(vec![Shape::ByteArray(32), Shape::ByteArray(32)])
}

fn tuple_struct_data(value: &TupleStruct) -> Data {
    Data::Tuple(vec![array_data(&value.0), array_data(&value.1)])
}

fn tuple_struct_from(data: Data) -> TupleStruct {
    let Data::Tuple(items) = data else { panic!("not a tuple") };
    let mut items = items.into_iter();
    let first = array_from(items.next().expect("no first field"));
    let second = array_from(items.next().expect("no second field"));
    TupleStruct(first, second)
}

#[derive(Debug, Default, PartialEq)]
struct InnerStruct {
    bytes: [u8; 32],
}

#[derive(Debug, Default, PartialEq)]
struct OuterStruct {
    inner: InnerStruct,
}

fn outer_struct_shape() -> Shape {
    Shape::Record(vec![("inner".to_string(), byte_struct_shape())])
}

fn outer_struct_data(value: &OuterStruct) -> Data {
    Data::Record(vec![(
        "inner".to_string(),
        Data::Record(vec![("bytes".to_string(), array_data(&value.inner.bytes))]),
    )])
}

fn outer_struct_from(data: Data) -> OuterStruct {
    let Data::Record(fields) = data else { panic!("not a record") };
    let Some((_, inner)) = fields.into_iter().next() else { panic!("no field") };
    OuterStruct { inner: InnerStruct { bytes: byte_struct_from(inner).bytes } }
}

#[test]
fn serialize_string() {
    const THE_STRING: &str = "There goes the baker with his tray, like always";

    let serialized = serialize(&Data::Text(THE_STRING.to_string())).unwrap();
    let deserialized = deserialize(&Shape::Text, &serialized).unwrap();
    let Data::Text(deserialized) = deserialized else { panic!("not a string") };
    assert_eq!(&deserialized, THE_STRING);
}

#[test]
fn serialize_struct() {
    let the_struct = TestStruct {
        vec: vec![233, 123, 0, 12],
        integer: 4_242_424_242,
        float: 1.2345,
    };
    let serialized = serialize(&test_struct_data(&the_struct)).unwrap();
    let deserialized = test_struct_from(deserialize(&test_struct_shape(), &serialized).unwrap());
    assert_eq!(deserialized, the_struct);
}

#[test]
fn serialize_array() {
    let bytes = [0x55u8; 32];

    let serialized = serialize(&array_data(&bytes)).expect("Could not serialize byte array.");
    let deserialized = array_from(
        deserialize(&Shape::ByteArray(32), &serialized).expect("Could not deserialize byte array."),
    );

    assert_eq!(deserialized, bytes);
}

#[test]
fn struct_with_array() {
    let expected = ByteStruct::default();
    let serialized =
        serialize(&byte_struct_data(&expected)).expect("Could not serialize byte struct.");
    let actual = byte_struct_from(
        deserialize(&byte_struct_shape(), &serialized).expect("Could not deserialize byte struct."),
    );

    assert_eq!(actual, expected);

    let expected = ByteStruct {
        bytes: [0x55u8; 32],
    };
    let serialized =
        serialize(&byte_struct_data(&expected)).expect("Could not serialize byte struct.");
    let actual = byte_struct_from(
        deserialize(&byte_struct_shape(), &serialized).expect("Could not deserialize byte struct."),
    );

    assert_eq!(actual, expected);
}

#[test]
fn newtype_bytes() {
    let expected = NewtypeBytes([0x55u8; 32]);
    let serialized =
        serialize(&newtype_data(&expected)).expect("Could not serialize transparent struct.");
    let actual = newtype_from(
        deserialize(&newtype_shape(), &serialized).expect("Could not deserialize byte struct."),
    );
    assert_eq!(expected, actual);
}

#[test]
fn newtype_bytes_vs_just_bytes() {
    let expected = NewtypeBytes([0x55u8; 32]);
    let serialized =
        serialize(&newtype_data(&expected)).expect("Could not serialize transparent struct.");

    let bytes = [0x55u8; 32];
    let bytes_serialized = serialize(&array_data(&bytes)).expect("Could not serialize byte array.");
    assert_eq!(serialized, bytes_serialized);

    let actual = newtype_from(
        deserialize(&newtype_shape(), &bytes_serialized)
            .expect("Could not deserialize byte array to struct."),
    );

    assert_eq!(expected, actual);
}

#[test]
fn tuplestruct() {
    let expected = TupleStruct([0x55u8; 32], [0xffu8; 32]);
    let serialized =
        serialize(&tuple_struct_data(&expected)).expect("Could not serialize transparent struct.");
    let actual = tuple_struct_from(
        deserialize(&tuple_struct_shape(), &serialized).expect("Could not deserialize byte struct."),
    );
    assert_eq!(expected, actual);
}

#[test]
fn nested_struct() {
    let expected = OuterStruct {
        inner: InnerStruct {
            bytes: [0x55u8; 32],
        },
    };
    let serialized =
        serialize(&outer_struct_data(&expected)).expect("Could not serialize transparent struct.");
    let actual = outer_struct_from(
        deserialize(&outer_struct_shape(), &serialized).expect("Could not deserialize byte struct."),
    );

    assert_eq!(expected, actual);
}

#[test]
fn wrapped_array_is_read_as_a_bare_array() {
    let wrapped = NewtypeBytes([0x55u8; 32]);
    let serialized = serialize(&newtype_data(&wrapped)).unwrap();
    let bare = array_from(deserialize(&Shape::ByteArray(32), &serialized).unwrap());
    assert_eq!(bare, [0x55u8; 32]);
}

#[test]
fn serializing_twice_gives_the_same_bytes() {
    let the_struct = TestStruct { vec: vec![1, 2, 3], integer: u64::MAX, float: -0.5 };
    let first = serialize(&test_struct_data(&the_struct)).unwrap();
    let second = serialize(&test_struct_data(&the_struct)).unwrap();
    assert_eq!(first, second);
}

#[test]
fn tuple_struct_is_no_struct_with_one_field() {
    let two = TupleStruct([0x55u8; 32], [0xffu8; 32]);
    let serialized = serialize(&tuple_struct_data(&two)).unwrap();
    let shape = Shape::Record(vec![("bytes".to_string(), Shape::Unsigned)]);
    let error = deserialize(&shape, &serialized).unwrap_err();
    assert_eq!(error.kind(), mc_util_serial::decode::Kind::SemanticError);
    assert_eq!(
        error.message(),
        "Semantic Error at byte None: \"invalid type, expected a map\""
    );
}

#[test]
fn bytes_after_the_value_are_ignored() {
    let mut serialized = serialize(&Data::Unsigned(5)).unwrap();
    serialized.extend_from_slice(&[0x06, 0xff, 0x1c]);
    assert_eq!(deserialize(&Shape::Unsigned, &serialized).unwrap(), Data::Unsigned(5));
}
