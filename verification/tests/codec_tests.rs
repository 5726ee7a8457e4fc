use beamng_proto::{
    decode_message, encode_message, value_as_bool, value_as_str, value_as_u64, value_eq,
    value_to_str_dict, value_to_string, BngError, MsgValue,
};

fn rich_value() -> MsgValue {
    MsgValue::Dict(vec![
        (MsgValue::Text("null".to_owned()), MsgValue::Null),
        (MsgValue::Text("flag".to_owned()), MsgValue::Bool(true)),
        (MsgValue::Text("count".to_owned()), MsgValue::UInt(42)),
        (MsgValue::Text("delta".to_owned()), MsgValue::Int(-7)),
        (
            MsgValue::Text("ratio".to_owned()),
            MsgValue::Float((1.25f64).to_bits()),
        ),
        (MsgValue::Text("name".to_owned()), MsgValue::Text("etk800".to_owned())),
        (
            MsgValue::Text("blob".to_owned()),
            MsgValue::Bin(vec![0x00, 0xff, 0x7f]),
        ),
        (
            MsgValue::Text("list".to_owned()),
            MsgValue::Arr(vec![MsgValue::UInt(1), MsgValue::Int(-2), MsgValue::Null]),
        ),
        (
            MsgValue::Text("nested".to_owned()),
            MsgValue::Dict(vec![(MsgValue::Text("k".to_owned()), MsgValue::Bool(false))]),
        ),
    ])
}

#[test]
fn encode_decode_round_trip() {
    let v = rich_value();
    let bytes = encode_message(&v).unwrap();
    let back = decode_message(&bytes).unwrap();
    assert!(value_eq(&v, &back));
}

#[test]
fn round_trip_keeps_text_and_binary_distinct() {
    let v = MsgValue::Arr(vec![
        MsgValue::Text("abc".to_owned()),
        MsgValue::Bin(b"abc".to_vec()),
    ]);
    let bytes = encode_message(&v).unwrap();
    let back = decode_message(&bytes).unwrap();
    assert!(value_eq(&v, &back));
    match back {
        MsgValue::Arr(items) => {
            assert!(matches!(items[0], MsgValue::Text(_)));
            assert!(matches!(items[1], MsgValue::Bin(_)));
        }
        _ => panic!("expected an array"),
    }
}

#[test]
fn encoding_matches_the_reference_serializer() {
    // The library's bytes for a map must be exactly what rmpv writes for the
    // equivalent tree.
    let v = MsgValue::Dict(vec![
        (MsgValue::Text("type".to_owned()), MsgValue::Text("Hello".to_owned())),
        (MsgValue::Text("_id".to_owned()), MsgValue::UInt(3)),
        (MsgValue::Text("neg".to_owned()), MsgValue::Int(-9)),
        (MsgValue::Text("f".to_owned()), MsgValue::Float((2.5f64).to_bits())),
        (MsgValue::Text("b".to_owned()), MsgValue::Bin(vec![1, 2])),
    ]);
    let bytes = encode_message(&v).unwrap();

    let reference = rmpv::Value::Map(vec![
        (rmpv::Value::from("type"), rmpv::Value::from("Hello")),
        (rmpv::Value::from("_id"), rmpv::Value::from(3u64)),
        (rmpv::Value::from("neg"), rmpv::Value::from(-9i64)),
        (rmpv::Value::from("f"), rmpv::Value::F64(2.5)),
        (rmpv::Value::from("b"), rmpv::Value::Binary(vec![1, 2])),
    ]);
    let mut expected = Vec::new();
    rmpv::encode::write_value(&mut expected, &reference).unwrap();
    assert_eq!(bytes, expected);
}

#[test]
fn decode_rejects_malformed_bytes() {
    // A string marker announcing bytes that never follow.
    let err = decode_message(&vec![0xd9]).unwrap_err();
    assert!(matches!(err, BngError::MsgpackDecode(_)));
}

#[test]
fn decode_rejects_truncated_value() {
    let v = MsgValue::Text("hello world".to_owned());
    let mut bytes = encode_message(&v).unwrap();
    bytes.truncate(bytes.len() - 1);
    let err = decode_message(&bytes).unwrap_err();
    assert!(matches!(err, BngError::MsgpackDecode(_)));
}

#[test]
fn encode_refuses_bottomless_nesting() {
    let mut v = MsgValue::Null;
    for _ in 0..200 {
        v = MsgValue::Arr(vec![v]);
    }
    let err = encode_message(&v).unwrap_err();
    assert!(matches!(err, BngError::MsgpackEncode(_)));
}

#[test]
fn float_bits_survive_the_wire() {
    let bits = (1234.5678f64).to_bits();
    let bytes = encode_message(&MsgValue::Float(bits)).unwrap();
    // rmpv reads the same float back.
    let wire = rmpv::decode::read_value(&mut &bytes[..]).unwrap();
    assert_eq!(wire, rmpv::Value::F64(1234.5678));
    let back = decode_message(&bytes).unwrap();
    match back {
        MsgValue::Float(b) => assert_eq!(b, bits),
        other => panic!("expected a float, got {:?}", other),
    }
}

#[test]
fn wire_float32_widens_exactly() {
    let mut bytes = Vec::new();
    rmpv::encode::write_value(&mut bytes, &rmpv::Value::F32(0.5f32)).unwrap();
    let back = decode_message(&bytes).unwrap();
    match back {
        MsgValue::Float(b) => assert_eq!(f64::from_bits(b), 0.5f64),
        other => panic!("expected a float, got {:?}", other),
    }
}

#[test]
fn nonnegative_integers_decode_unsigned() {
    let mut bytes = Vec::new();
    rmpv::encode::write_value(&mut bytes, &rmpv::Value::from(5i64)).unwrap();
    let back = decode_message(&bytes).unwrap();
    assert!(matches!(back, MsgValue::UInt(5)));
}

#[test]
fn value_as_u64_accepts_all_three_spellings() {
    assert_eq!(value_as_u64(&MsgValue::UInt(14)), Some(14));
    assert_eq!(value_as_u64(&MsgValue::Int(-1)), Some((-1i64) as u64));
    assert_eq!(
        value_as_u64(&MsgValue::Float((14.0f64).to_bits())),
        Some(14)
    );
    assert_eq!(value_as_u64(&MsgValue::Text("14".to_owned())), None);
    assert_eq!(value_as_u64(&MsgValue::Null), None);
}

#[test]
fn float_truncation_matches_the_cast() {
    let cases = [
        0.0f64,
        -0.0,
        0.5,
        1.5,
        14.0,
        -1.0,
        -123.9,
        f64::NAN,
        f64::INFINITY,
        f64::NEG_INFINITY,
        1e300,
        18446744073709551615.0, // 2^64
        9007199254740993.0,
        4294967296.5,
        f64::MIN_POSITIVE,
        1e-300,
    ];
    for &f in cases.iter() {
        let got = value_as_u64(&MsgValue::Float(f.to_bits()));
        assert_eq!(got, Some(f as u64), "for {f}");
    }
}

#[test]
fn value_text_accepts_both_spellings() {
    assert_eq!(
        value_to_string(&MsgValue::Text("hi".to_owned())),
        Some("hi".to_owned())
    );
    assert_eq!(
        value_to_string(&MsgValue::Bin(b"hi".to_vec())),
        Some("hi".to_owned())
    );
    assert_eq!(value_to_string(&MsgValue::Bin(vec![0xff, 0xfe])), None);
    assert_eq!(value_to_string(&MsgValue::UInt(1)), None);
    assert_eq!(
        value_as_str(&MsgValue::Bin("grüß".as_bytes().to_vec())),
        Some("grüß".to_owned())
    );
}

#[test]
fn value_as_bool_reads_booleans_only() {
    assert_eq!(value_as_bool(&MsgValue::Bool(true)), Some(true));
    assert_eq!(value_as_bool(&MsgValue::UInt(1)), None);
}

#[test]
fn str_dict_conversion_normalizes_binary_keys() {
    let v = MsgValue::Dict(vec![
        (MsgValue::Text("a".to_owned()), MsgValue::UInt(1)),
        (MsgValue::Bin(b"b".to_vec()), MsgValue::UInt(2)),
    ]);
    let d = value_to_str_dict(v).unwrap();
    assert!(matches!(d.get(&"a".to_owned()), Some(MsgValue::UInt(1))));
    assert!(matches!(d.get(&"b".to_owned()), Some(MsgValue::UInt(2))));
}

#[test]
fn str_dict_conversion_rejects_unreadable_keys() {
    let v = MsgValue::Dict(vec![(MsgValue::UInt(1), MsgValue::UInt(2))]);
    assert!(value_to_str_dict(v).is_none());
    let v = MsgValue::Dict(vec![(
        MsgValue::Bin(vec![0xff, 0xfe]),
        MsgValue::Null,
    )]);
    assert!(value_to_str_dict(v).is_none());
    assert!(value_to_str_dict(MsgValue::UInt(9)).is_none());
}

#[test]
fn str_dict_conversion_keeps_last_duplicate() {
    let v = MsgValue::Dict(vec![
        (MsgValue::Text("k".to_owned()), MsgValue::UInt(1)),
        (MsgValue::Text("k".to_owned()), MsgValue::UInt(2)),
    ]);
    let d = value_to_str_dict(v).unwrap();
    assert!(matches!(d.get(&"k".to_owned()), Some(MsgValue::UInt(2))));
    assert_eq!(d.len(), 1);
}

#[test]
fn str_dict_builder_keeps_pairs_in_order() {
    let v = beamng_proto::str_dict(vec![
        ("b".to_owned(), MsgValue::UInt(2)),
        ("a".to_owned(), MsgValue::UInt(1)),
    ]);
    match &v {
        MsgValue::Dict(pairs) => {
            assert_eq!(pairs.len(), 2);
            assert!(matches!(&pairs[0].0, MsgValue::Text(s) if s == "b"));
            assert!(matches!(pairs[0].1, MsgValue::UInt(2)));
            assert!(matches!(&pairs[1].0, MsgValue::Text(s) if s == "a"));
            assert!(matches!(pairs[1].1, MsgValue::UInt(1)));
        }
        _ => panic!("expected a map"),
    }
    // And it is a well-formed string-keyed dictionary.
    assert!(value_to_str_dict(v).is_some());
}
