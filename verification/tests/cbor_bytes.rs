use mc_util_serial::decode::Failure;
use mc_util_serial::{deserialize, serialize, Data, Node, Shape};

fn text(name: &str) -> Node {
    Node::Text(name.to_string())
}

#[test]
fn each_kind_of_node_has_its_bytes() {
    assert_eq!(Node::Integer(5).to_bytes().unwrap(), [0x05]);
    assert_eq!(Node::Integer(23).to_bytes().unwrap(), [0x17]);
    assert_eq!(Node::Integer(24).to_bytes().unwrap(), [0x18, 0x18]);
    assert_eq!(Node::Integer(-1).to_bytes().unwrap(), [0x20]);
    assert_eq!(Node::Integer(-5).to_bytes().unwrap(), [0x24]);
    assert_eq!(Node::Integer(4_242_424_242).to_bytes().unwrap(), [0x1a, 0xfc, 0xde, 0x41, 0xb2]);
    assert_eq!(Node::Bytes(vec![1, 2, 3]).to_bytes().unwrap(), [0x43, 1, 2, 3]);
    assert_eq!(Node::Bytes(vec![]).to_bytes().unwrap(), [0x40]);
    assert_eq!(Node::Float(1.5f64.to_bits()).to_bytes().unwrap(), [0xf9, 0x3e, 0x00]);
    assert_eq!(
        Node::Float(1.2345f64.to_bits()).to_bytes().unwrap(),
        [0xfb, 0x3f, 0xf3, 0xc0, 0x83, 0x12, 0x6e, 0x97, 0x8d]
    );
    assert_eq!(text("ab").to_bytes().unwrap(), [0x62, 0x61, 0x62]);
    assert_eq!(text("é").to_bytes().unwrap(), [0x62, 0xc3, 0xa9]);
    assert_eq!(Node::Bool(false).to_bytes().unwrap(), [0xf4]);
    assert_eq!(Node::Bool(true).to_bytes().unwrap(), [0xf5]);
    assert_eq!(Node::Null.to_bytes().unwrap(), [0xf6]);
    assert_eq!(Node::Tag(7, Box::new(Node::Integer(1))).to_bytes().unwrap(), [0xc7, 0x01]);
    assert_eq!(
        Node::Array(vec![Node::Integer(1), text("a"), Node::Null]).to_bytes().unwrap(),
        [0x83, 0x01, 0x61, 0x61, 0xf6]
    );
    assert_eq!(Node::Array(vec![]).to_bytes().unwrap(), [0x80]);
    assert_eq!(
        Node::Mapping(vec![(text("a"), Node::Integer(1)), (Node::Integer(2), Node::Bool(true))])
            .to_bytes()
            .unwrap(),
        [0xa2, 0x61, 0x61, 0x01, 0x02, 0xf5]
    );
}

#[test]
fn each_kind_of_node_is_read_from_its_bytes() {
    assert_eq!(Node::from_bytes(&[0x05]), Ok(Node::Integer(5)));
    assert_eq!(Node::from_bytes(&[0x18, 0x18]), Ok(Node::Integer(24)));
    assert_eq!(Node::from_bytes(&[0x24]), Ok(Node::Integer(-5)));
    assert_eq!(Node::from_bytes(&[0x43, 1, 2, 3]), Ok(Node::Bytes(vec![1, 2, 3])));
    assert_eq!(Node::from_bytes(&[0xf9, 0x3e, 0x00]), Ok(Node::Float(1.5f64.to_bits())));
    assert_eq!(Node::from_bytes(&[0x62, 0x61, 0x62]), Ok(text("ab")));
    assert_eq!(Node::from_bytes(&[0xf4]), Ok(Node::Bool(false)));
    assert_eq!(Node::from_bytes(&[0xf5]), Ok(Node::Bool(true)));
    assert_eq!(Node::from_bytes(&[0xf6]), Ok(Node::Null));
    assert_eq!(Node::from_bytes(&[0xf7]), Ok(Node::Null));
    assert_eq!(Node::from_bytes(&[0xc7, 0x01]), Ok(Node::Tag(7, Box::new(Node::Integer(1)))));
    assert_eq!(
        Node::from_bytes(&[0x83, 0x01, 0x61, 0x61, 0xf6]),
        Ok(Node::Array(vec![Node::Integer(1), text("a"), Node::Null]))
    );
    assert_eq!(
        Node::from_bytes(&[0xa2, 0x61, 0x61, 0x01, 0x02, 0xf5]),
        Ok(Node::Mapping(vec![(text("a"), Node::Integer(1)), (Node::Integer(2), Node::Bool(true))]))
    );
    // Lists without a stated length end with a break.
    assert_eq!(
        Node::from_bytes(&[0x9f, 0x01, 0x02, 0xff]),
        Ok(Node::Array(vec![Node::Integer(1), Node::Integer(2)]))
    );
}

#[test]
fn integers_at_the_ends_of_the_range() {
    let most = u64::MAX as i128;
    let least = -1 - (u64::MAX as i128);
    assert_eq!(
        Node::Integer(most).to_bytes().unwrap(),
        [0x1b, 0xff, 0xff, 0xff, 0xff, 0xff, 0xff, 0xff, 0xff]
    );
    assert_eq!(
        Node::Integer(least).to_bytes().unwrap(),
        [0x3b, 0xff, 0xff, 0xff, 0xff, 0xff, 0xff, 0xff, 0xff]
    );
    assert_eq!(Node::from_bytes(&Node::Integer(most).to_bytes().unwrap()), Ok(Node::Integer(most)));
    assert_eq!(
        Node::from_bytes(&Node::Integer(least).to_bytes().unwrap()),
        Ok(Node::Integer(least))
    );
    assert!(Node::Integer(most + 1).to_bytes().is_err());
    assert!(Node::Integer(least - 1).to_bytes().is_err());
    assert!(Node::Integer(i128::MAX).to_bytes().is_err());
    assert!(Node::Integer(i128::MIN).to_bytes().is_err());
    assert!(Node::Array(vec![Node::Null, Node::Integer(most + 1)]).to_bytes().is_err());
    assert!(Node::Mapping(vec![(Node::Integer(least - 1), Node::Null)]).to_bytes().is_err());
    assert!(Node::Mapping(vec![(Node::Null, Node::Integer(most + 1))]).to_bytes().is_err());
    assert!(Node::Tag(1, Box::new(Node::Integer(most + 1))).to_bytes().is_err());
}

#[test]
fn an_integer_too_large_for_a_node_is_read_as_tagged_bytes() {
    assert_eq!(
        Node::from_bytes(&[0xc2, 0x49, 1, 0, 0, 0, 0, 0, 0, 0, 0]),
        Ok(Node::Tag(2, Box::new(Node::Bytes(vec![1, 0, 0, 0, 0, 0, 0, 0, 0]))))
    );
    assert_eq!(Node::from_bytes(&[0xc2, 0x41, 0x05]), Ok(Node::Integer(5)));
}

#[test]
fn a_float_keeps_its_bits() {
    for bits in [
        0u64,
        0x8000_0000_0000_0000,
        1.5f64.to_bits(),
        f64::MAX.to_bits(),
        f64::MIN_POSITIVE.to_bits(),
        f64::INFINITY.to_bits(),
        f64::NEG_INFINITY.to_bits(),
        0x7ff8_0000_0000_0001,
        0x0000_0000_0000_0001,
        std::f64::consts::PI.to_bits(),
    ] {
        let bytes = Node::Float(bits).to_bytes().unwrap();
        assert_eq!(Node::from_bytes(&bytes), Ok(Node::Float(bits)), "bits {bits:#x}");
    }
    assert_eq!(
        Node::from_bytes(&[0xfb, 0x7f, 0xf8, 0, 0, 0, 0, 0, 1]),
        Ok(Node::Float(0x7ff8_0000_0000_0001))
    );
}

#[test]
fn the_capacity_does_not_change_the_bytes() {
    let node = Node::Array(vec![Node::Integer(1), text("a"), Node::Bytes(vec![9; 100])]);
    let plain = node.to_bytes().unwrap();
    assert_eq!(node.to_bytes_with_capacity(0).unwrap(), plain);
    assert_eq!(node.to_bytes_with_capacity(1).unwrap(), plain);
    assert_eq!(node.to_bytes_with_capacity(4096).unwrap(), plain);
    assert_eq!(node.to_bytes_with_capacity(usize::MAX).unwrap(), plain);
    assert_eq!(node.to_bytes_with_capacity(isize::MAX as usize).unwrap(), plain);
}

#[test]
fn each_kind_of_data_has_its_bytes() {
    assert_eq!(serialize(&Data::Unit).unwrap(), [0xf6]);
    assert_eq!(serialize(&Data::Bool(true)).unwrap(), [0xf5]);
    assert_eq!(serialize(&Data::Unsigned(5)).unwrap(), [0x05]);
    assert_eq!(
        serialize(&Data::Unsigned(u64::MAX)).unwrap(),
        [0x1b, 0xff, 0xff, 0xff, 0xff, 0xff, 0xff, 0xff, 0xff]
    );
    assert_eq!(serialize(&Data::Signed(-5)).unwrap(), [0x24]);
    assert_eq!(serialize(&Data::Signed(5)).unwrap(), [0x05]);
    assert_eq!(
        serialize(&Data::Signed(i64::MIN)).unwrap(),
        [0x3b, 0x7f, 0xff, 0xff, 0xff, 0xff, 0xff, 0xff, 0xff]
    );
    assert_eq!(serialize(&Data::Float(1.5f64.to_bits())).unwrap(), [0xf9, 0x3e, 0x00]);
    assert_eq!(serialize(&Data::Text("ab".to_string())).unwrap(), [0x62, 0x61, 0x62]);
    assert_eq!(serialize(&Data::ByteArray(vec![0x55; 3])).unwrap(), [0x43, 0x55, 0x55, 0x55]);
    let mut array = vec![0x58, 0x20];
    array.extend_from_slice(&[0x55; 32]);
    assert_eq!(serialize(&Data::ByteArray(vec![0x55; 32])).unwrap(), array);
    assert_eq!(serialize(&Data::Optional(None)).unwrap(), [0xf6]);
    assert_eq!(serialize(&Data::Optional(Some(Box::new(Data::Unsigned(5))))).unwrap(), [0x05]);
    assert_eq!(
        serialize(&Data::Sequence(vec![Data::Unsigned(233), Data::Unsigned(0)])).unwrap(),
        [0x82, 0x18, 0xe9, 0x00]
    );
    assert_eq!(
        serialize(&Data::Tuple(vec![Data::Unsigned(1), Data::Bool(false)])).unwrap(),
        [0x82, 0x01, 0xf4]
    );
    assert_eq!(serialize(&Data::Tuple(vec![Data::Unsigned(1)])).unwrap(), [0x81, 0x01]);
    assert_eq!(serialize(&Data::Wrapper(Box::new(Data::Unsigned(1)))).unwrap(), [0x01]);
    assert_eq!(
        serialize(&Data::Record(vec![
            ("a".to_string(), Data::Unsigned(1)),
            ("b".to_string(), Data::Bool(true)),
        ]))
        .unwrap(),
        [0xa2, 0x61, 0x61, 0x01, 0x61, 0x62, 0xf5]
    );
    assert_eq!(
        serialize(&Data::Variant("Unit".to_string(), None)).unwrap(),
        [0x64, 0x55, 0x6e, 0x69, 0x74]
    );
    assert_eq!(
        serialize(&Data::Variant("New".to_string(), Some(Box::new(Data::Unsigned(1))))).unwrap(),
        [0xa1, 0x63, 0x4e, 0x65, 0x77, 0x01]
    );
}

#[test]
fn the_node_of_each_kind_of_data() {
    assert_eq!(Data::Unit.to_node(), Node::Null);
    assert_eq!(Data::Unsigned(u64::MAX).to_node(), Node::Integer(u64::MAX as i128));
    assert_eq!(Data::Signed(i64::MIN).to_node(), Node::Integer(i64::MIN as i128));
    assert_eq!(Data::ByteArray(vec![1, 2]).to_node(), Node::Bytes(vec![1, 2]));
    assert_eq!(Data::Optional(None).to_node(), Node::Null);
    assert_eq!(Data::Optional(Some(Box::new(Data::Bool(true)))).to_node(), Node::Bool(true));
    assert_eq!(Data::Wrapper(Box::new(Data::Text("x".to_string()))).to_node(), text("x"));
    assert_eq!(
        Data::Sequence(vec![Data::Unsigned(1), Data::Unsigned(2)]).to_node(),
        Node::Array(vec![Node::Integer(1), Node::Integer(2)])
    );
    assert_eq!(
        Data::Record(vec![("a".to_string(), Data::Unit), ("b".to_string(), Data::Float(7))]).to_node(),
        Node::Mapping(vec![(text("a"), Node::Null), (text("b"), Node::Float(7))])
    );
    assert_eq!(Data::Variant("V".to_string(), None).to_node(), text("V"));
    assert_eq!(
        Data::Variant("V".to_string(), Some(Box::new(Data::Unit))).to_node(),
        Node::Mapping(vec![(text("V"), Node::Null)])
    );
}

#[test]
fn the_buffer_starts_with_twice_the_footprint() {
    assert_eq!(Data::Unit.footprint(), 0);
    assert_eq!(Data::Bool(true).footprint(), 1);
    assert_eq!(Data::Unsigned(1).footprint(), 8);
    assert_eq!(Data::Signed(1).footprint(), 8);
    assert_eq!(Data::Float(1).footprint(), 8);
    assert_eq!(Data::Text("a long string that lives on the heap".to_string()).footprint(), 24);
    assert_eq!(Data::ByteArray(vec![0; 32]).footprint(), 32);
    assert_eq!(Data::Optional(None).footprint(), 1);
    assert_eq!(Data::Optional(Some(Box::new(Data::Unsigned(1)))).footprint(), 9);
    assert_eq!(Data::Sequence(Vec::new()).footprint(), 24);
    assert_eq!(Data::Sequence(vec![Data::Unsigned(1), Data::Unsigned(2)]).footprint(), 24);
    assert_eq!(Data::Tuple(vec![Data::ByteArray(vec![0; 32]), Data::Bool(true)]).footprint(), 33);
    assert_eq!(Data::Wrapper(Box::new(Data::ByteArray(vec![0; 32]))).footprint(), 32);
    let record = Data::Record(vec![
        ("vec".to_string(), Data::Sequence(vec![Data::Unsigned(233), Data::Unsigned(0)])),
        ("float".to_string(), Data::Float(1.2345f64.to_bits())),
        ("none".to_string(), Data::Optional(None)),
        ("v".to_string(), Data::Variant("Unit".to_string(), None)),
        ("w".to_string(), Data::Variant("New".to_string(), Some(Box::new(Data::Unsigned(1))))),
    ]);
    assert_eq!(record.footprint(), 24 + 8 + 1 + 4 + 12);
    assert_eq!(record.capacity_hint(), 98);
    assert_eq!(Data::Unit.capacity_hint(), 0);
    assert_eq!(Data::ByteArray(vec![0; 32]).capacity_hint(), 64);
}

#[test]
fn what_ciborium_fails_on_is_handed_over() {
    assert_eq!(Node::from_bytes(&[0x1c]), Err(Failure::Syntax(0)));
    assert_eq!(Node::from_bytes(&[0x82, 0x01, 0x1c]), Err(Failure::Syntax(2)));
    assert_eq!(Node::from_bytes(&[0x62, 0xff, 0xff]), Err(Failure::Syntax(0)));
    assert_eq!(
        Node::from_bytes(&[0xff]),
        Err(Failure::Semantic(None, "invalid type: break, expected non-break".to_string()))
    );
    assert!(matches!(Node::from_bytes(&[]), Err(Failure::Io(_))));
    assert!(matches!(Node::from_bytes(&[0x18]), Err(Failure::Io(_))));
    assert!(matches!(Node::from_bytes(&[0x82, 0x01]), Err(Failure::Io(_))));
    let mut deep = vec![0x81u8; 300];
    deep.push(0x00);
    assert_eq!(Node::from_bytes(&deep), Err(Failure::RecursionLimitExceeded));
    let mut shallow = vec![0x81u8; 200];
    shallow.push(0x00);
    assert!(Node::from_bytes(&shallow).is_ok());
    assert_eq!(deserialize(&Shape::Unsigned, &[0x05]).unwrap(), Data::Unsigned(5));
}
