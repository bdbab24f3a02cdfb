use std::collections::BTreeMap;

use rocksdict::batch::{collect_batch, encode_keys, BatchOp, StoreError, WriteBatch};
use rocksdict::codec::{encode_key, encode_value, CodecError, Value};

fn text(s: &str) -> Value {
    Value::String(s.to_string())
}

#[test]
fn multi_get_keeps_slot_order() {
    let keys = vec![text("present"), text("absent"), text("present2")];
    let encoded = encode_keys(&keys, false).unwrap();
    assert_eq!(encoded[0], encode_key(&keys[0], false).unwrap());
    assert_eq!(encoded[2], vec![2, 112, 114, 101, 115, 101, 110, 116, 50]);
    let answers = vec![
        Ok(Some(encode_value(&text("v1"), false).unwrap())),
        Ok(None),
        Ok(Some(encode_value(&text("v2"), false).unwrap())),
    ];
    assert_eq!(collect_batch(&answers, false), Ok(vec![Some(text("v1")), None, Some(text("v2"))]));
}

#[test]
fn multi_get_failures() {
    let keys = vec![text("a"), Value::Any(vec![1])];
    assert_eq!(encode_keys(&keys, false), Err(CodecError::UnsupportedType));
    let answers = vec![Ok(None), Err("io error".to_string()), Ok(Some(vec![9]))];
    assert_eq!(collect_batch(&answers, false), Err(StoreError::Engine("io error".to_string())));
    let answers = vec![Ok(None), Ok(Some(vec![9]))];
    assert_eq!(collect_batch(&answers, false), Err(StoreError::Codec(CodecError::UnknownTag)));
    assert_eq!(collect_batch(&vec![Ok(Some(vec![9]))], true), Ok(vec![Some(Value::Bytes(vec![9]))]));
}

/// Applies the gathered mutations, in order, to a sorted map.
fn apply(map: &mut BTreeMap<Vec<u8>, Vec<u8>>, ops: &[BatchOp]) {
    for op in ops {
        match op {
            BatchOp::Put(k, v) => {
                map.insert(k.clone(), v.clone());
            }
            BatchOp::Delete(k) => {
                map.remove(k);
            }
            BatchOp::DeleteRange(a, b) => map.retain(|k, _| !(k >= a && k < b)),
        }
    }
}

#[test]
fn write_batch_last_write_wins() {
    let (k1, k2) = (text("k1"), text("k2"));
    let mut batch = WriteBatch::new(false);
    batch.put(&k1, &text("v1")).unwrap();
    batch.delete(&k2).unwrap();
    batch.put(&k1, &text("v2")).unwrap();
    assert_eq!(batch.len(), 3);
    let mut store = BTreeMap::new();
    store.insert(encode_key(&k2, false).unwrap(), encode_value(&text("old"), false).unwrap());
    let ops = batch.consume();
    assert_eq!(batch.len(), 0);
    apply(&mut store, &ops);
    assert_eq!(store.get(&encode_key(&k1, false).unwrap()), Some(&encode_value(&text("v2"), false).unwrap()));
    assert_eq!(store.get(&encode_key(&k2, false).unwrap()), None);
    assert_eq!(store.len(), 1);
}

#[test]
fn write_batch_refuses_unencodable_input() {
    let mut batch = WriteBatch::new(false);
    assert_eq!(batch.put(&Value::Any(vec![1]), &text("v")), Err(CodecError::UnsupportedType));
    assert_eq!(batch.len(), 0);
    batch.put(&text("k"), &Value::Any(vec![1])).unwrap();
    assert_eq!(batch.ops()[0], BatchOp::Put(vec![2, 107], vec![6, 1]));
    let mut raw = WriteBatch::new(true);
    assert!(raw.is_raw_mode());
    assert_eq!(raw.delete(&text("k")), Err(CodecError::InvalidRawInput));
    raw.delete_range(&Value::Bytes(vec![1]), &Value::Bytes(vec![3])).unwrap();
    assert_eq!(raw.ops(), &vec![BatchOp::DeleteRange(vec![1], vec![3])]);
}
