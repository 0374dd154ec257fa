use mc_util_serial::{decode, encode, DecodeError};

#[test]
fn a_message_is_encoded_as_protobuf() {
    assert_eq!(encode(&vec![1u8, 2, 3]), [0x0a, 0x03, 1, 2, 3]);
    assert_eq!(encode(&"ab".to_string()), [0x0a, 0x02, 0x61, 0x62]);
    assert_eq!(encode(&300u64), [0x08, 0xac, 0x02]);
    assert_eq!(encode(&true), [0x08, 0x01]);
    assert_eq!(encode(&Vec::<u8>::new()), Vec::<u8>::new());
    assert_eq!(encode(&0u64), Vec::<u8>::new());
}

#[test]
fn a_message_is_decoded_from_protobuf() {
    assert_eq!(decode::<Vec<u8>>(&[0x0a, 0x03, 1, 2, 3]), Ok(vec![1u8, 2, 3]));
    assert_eq!(decode::<String>(&[0x0a, 0x02, 0x61, 0x62]), Ok("ab".to_string()));
    assert_eq!(decode::<u64>(&[0x08, 0xac, 0x02]), Ok(300));
    assert_eq!(decode::<u64>(&[]), Ok(0));
    for value in [0u64, 1, 127, 128, u64::MAX] {
        assert_eq!(decode::<u64>(&encode(&value)), Ok(value));
    }
}

#[test]
fn bytes_that_are_no_message_are_refused() {
    let cut: Result<Vec<u8>, DecodeError> = decode(&[0x0a, 0x03, 1, 2]);
    assert!(cut.is_err());
    let no_text: Result<String, DecodeError> = decode(&[0x0a, 0x02, 0xff, 0xff]);
    assert!(no_text.is_err());
    let no_key: Result<u64, DecodeError> = decode(&[0xff]);
    assert!(no_key.is_err());
}

#[test]
fn a_value_of_one_codec_travels_as_bytes_in_the_other() {
    let inner = mc_util_serial::serialize(&mc_util_serial::Data::Text("inside".to_string())).unwrap();
    let outer = encode(&inner);
    let back: Vec<u8> = decode(&outer).unwrap();
    assert_eq!(back, inner);
    assert_eq!(
        mc_util_serial::deserialize(&mc_util_serial::Shape::Text, &back).unwrap(),
        mc_util_serial::Data::Text("inside".to_string())
    );
    let message = encode(&"wire".to_string());
    let carried = mc_util_serial::serialize(&mc_util_serial::Data::ByteArray(message.clone())).unwrap();
    let shape = mc_util_serial::Shape::ByteArray(message.len());
    let mc_util_serial::Data::ByteArray(found) = mc_util_serial::deserialize(&shape, &carried).unwrap()
    else {
        panic!("not a byte array")
    };
    assert_eq!(decode::<String>(&found), Ok("wire".to_string()));
}
