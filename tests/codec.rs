use rocksdict::codec::{decode_value, encode_key, encode_value, encoding_byte, concat_type_encoding, CodecError, Value};
use rocksdict::integer::Integer;

fn integer(v: i64) -> Value {
    Value::Int(Integer::from_i64(v))
}

fn text(s: &str) -> Value {
    Value::String(s.to_string())
}

fn key(v: &Value) -> Vec<u8> {
    encode_key(v, false).unwrap()
}

#[test]
fn round_trip_every_kind() {
    let values = vec![
        Value::Bytes(vec![]),
        Value::Bytes(vec![0, 1, 255]),
        text(""),
        text("hello"),
        text("héllo 中文 😀"),
        integer(0),
        integer(1),
        integer(-1),
        integer(255),
        integer(256),
        integer(-256),
        integer(i64::MIN),
        integer(i64::MAX),
        Value::Int(Integer::from_sign_magnitude(false, &[1, 2, 3, 4, 5, 6, 7, 8, 9, 10, 11, 12])),
        Value::Int(Integer::from_sign_magnitude(true, &[9, 8, 7, 6, 5, 4, 3, 2, 1, 0, 0, 0])),
        Value::Float(1.5f64.to_bits()),
        Value::Float((-0.0f64).to_bits()),
        Value::Float(f64::NAN.to_bits()),
        Value::Bool(true),
        Value::Bool(false),
        Value::Any(vec![128, 4, 149]),
    ];
    for v in values {
        let stored = encode_value(&v, false).unwrap();
        assert_eq!(decode_value(&stored, false).unwrap(), v);
    }
}

#[test]
fn round_trip_raw_mode() {
    let v = Value::Bytes(vec![3, 1, 4, 1, 5]);
    assert_eq!(encode_key(&v, true).unwrap(), vec![3, 1, 4, 1, 5]);
    assert_eq!(encode_value(&v, true).unwrap(), vec![3, 1, 4, 1, 5]);
    assert_eq!(decode_value(&[3, 1, 4, 1, 5], true).unwrap(), v);
}

#[test]
fn exact_encodings() {
    assert_eq!(key(&Value::Bytes(vec![1, 2])), vec![1, 1, 2]);
    assert_eq!(key(&text("ab")), vec![2, 97, 98]);
    assert_eq!(key(&text("é")), vec![2, 0xC3, 0xA9]);
    assert_eq!(key(&integer(0)), vec![3, 1, 0, 0, 0, 0, 0, 0, 0, 0]);
    assert_eq!(key(&integer(256)), vec![3, 1, 0, 0, 0, 0, 0, 0, 0, 2, 1, 0]);
    assert_eq!(
        key(&integer(-1)),
        vec![3, 0, 0xFF, 0xFF, 0xFF, 0xFF, 0xFF, 0xFF, 0xFF, 0xFE, 0xFE]
    );
    assert_eq!(key(&Value::Float(1.0f64.to_bits())), vec![4, 0x3F, 0xF0, 0, 0, 0, 0, 0, 0]);
    assert_eq!(key(&Value::Bool(true)), vec![5, 1]);
    assert_eq!(key(&Value::Bool(false)), vec![5, 0]);
    assert_eq!(encode_value(&Value::Any(vec![7, 8]), false).unwrap(), vec![6, 7, 8]);
}

#[test]
fn tag_bytes_and_concatenation() {
    assert_eq!(encoding_byte(&Value::Bytes(vec![])), 1);
    assert_eq!(encoding_byte(&text("")), 2);
    assert_eq!(encoding_byte(&integer(5)), 3);
    assert_eq!(encoding_byte(&Value::Float(0)), 4);
    assert_eq!(encoding_byte(&Value::Bool(true)), 5);
    assert_eq!(encoding_byte(&Value::Any(vec![])), 6);
    assert_eq!(concat_type_encoding(9, &[1, 2, 3]), vec![9, 1, 2, 3]);
    assert_eq!(concat_type_encoding(9, &[]), vec![9]);
}

#[test]
fn integer_order_is_byte_order() {
    let ints: Vec<i64> = vec![
        i64::MIN,
        -65537,
        -65536,
        -65535,
        -257,
        -256,
        -255,
        -128,
        -1,
        0,
        1,
        127,
        128,
        255,
        256,
        65535,
        65536,
        i64::MAX,
    ];
    let keys: Vec<Vec<u8>> = ints.iter().map(|i| key(&integer(*i))).collect();
    for w in keys.windows(2) {
        assert!(w[0] < w[1]);
    }
    let big = Value::Int(Integer::from_sign_magnitude(false, &[1, 0, 0, 0, 0, 0, 0, 0, 0]));
    let big_neg = Value::Int(Integer::from_sign_magnitude(true, &[1, 0, 0, 0, 0, 0, 0, 0, 0]));
    assert!(key(&integer(i64::MAX)) < key(&big));
    assert!(key(&big_neg) < key(&integer(i64::MIN)));
}

#[test]
fn text_order_is_byte_order() {
    let mut texts = vec!["", "a", "ab", "abc", "abd", "b", "ba", "z", "é", "ö", "中", "中文", "😀"];
    texts.sort();
    let keys: Vec<Vec<u8>> = texts.iter().map(|s| key(&text(s))).collect();
    for w in keys.windows(2) {
        assert!(w[0] < w[1]);
    }
}

#[test]
fn bytes_and_bool_order_is_byte_order() {
    assert!(key(&Value::Bytes(vec![1])) < key(&Value::Bytes(vec![1, 0])));
    assert!(key(&Value::Bytes(vec![1, 255])) < key(&Value::Bytes(vec![2])));
    assert!(key(&Value::Bytes(vec![])) < key(&Value::Bytes(vec![0])));
    assert!(key(&Value::Bool(false)) < key(&Value::Bool(true)));
}

#[test]
fn kinds_sort_by_tag() {
    let samples = vec![
        Value::Bytes(vec![255, 255]),
        text("\u{10FFFF}"),
        integer(-5),
        Value::Float(u64::MAX),
        Value::Bool(true),
    ];
    let keys: Vec<Vec<u8>> = samples.iter().map(key).collect();
    for w in keys.windows(2) {
        assert!(w[0] < w[1]);
    }
    assert_ne!(key(&integer(1)), key(&text("1")));
    assert_ne!(key(&Value::Bytes(vec![1])), key(&Value::Bool(true)));
}

#[test]
fn encoding_errors() {
    assert_eq!(encode_key(&Value::Any(vec![1]), false), Err(CodecError::UnsupportedType));
    assert_eq!(encode_key(&text("a"), true), Err(CodecError::InvalidRawInput));
    assert_eq!(encode_value(&integer(1), true), Err(CodecError::InvalidRawInput));
}

#[test]
fn decoding_errors() {
    assert_eq!(decode_value(&[], false), Err(CodecError::UnknownTag));
    assert_eq!(decode_value(&[0, 1], false), Err(CodecError::UnknownTag));
    assert_eq!(decode_value(&[7], false), Err(CodecError::UnknownTag));
    assert_eq!(decode_value(&[4, 1, 2], false), Err(CodecError::Truncated));
    assert_eq!(decode_value(&[5], false), Err(CodecError::Truncated));
    assert_eq!(decode_value(&[5, 1, 1], false), Err(CodecError::Truncated));
    assert_eq!(decode_value(&[2, 0xFF], false), Err(CodecError::InvalidUtf8));
    assert_eq!(decode_value(&[2, 0xED, 0xA0, 0x80], false), Err(CodecError::InvalidUtf8));
    assert_eq!(decode_value(&[3, 1, 0, 0, 0, 0, 0, 0, 0, 1], false), Err(CodecError::InvalidInteger));
    assert_eq!(decode_value(&[3, 1, 0, 0, 0, 0, 0, 0, 0, 1, 0], false), Err(CodecError::InvalidInteger));
    assert_eq!(decode_value(&[3, 2, 0, 0, 0, 0, 0, 0, 0, 0], false), Err(CodecError::InvalidInteger));
    assert_eq!(decode_value(&[3, 1, 0], false), Err(CodecError::InvalidInteger));
}

#[test]
fn bool_payload_nonzero_is_true() {
    assert_eq!(decode_value(&[5, 7], false), Ok(Value::Bool(true)));
    assert_eq!(decode_value(&[5, 0], false), Ok(Value::Bool(false)));
}

#[test]
fn integer_from_sign_and_magnitude() {
    let a = Integer::from_sign_magnitude(false, &[0, 0, 1, 2]);
    assert_eq!(a.magnitude(), vec![1, 2]);
    assert!(!a.is_negative());
    let zero = Integer::from_sign_magnitude(true, &[0, 0]);
    assert!(!zero.is_negative());
    assert_eq!(zero.magnitude(), Vec::<u8>::new());
    assert_eq!(zero, Integer::from_i64(0));
    let n = Integer::from_i64(-300);
    assert!(n.is_negative());
    assert_eq!(n.magnitude(), vec![1, 44]);
    assert_eq!(n.clone(), n);
    assert_eq!(Integer::from_i64(i64::MIN).magnitude(), vec![0x80, 0, 0, 0, 0, 0, 0, 0]);
}
