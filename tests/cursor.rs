use std::collections::BTreeMap;

use rocksdict::batch::StoreError;
use rocksdict::codec::{encode_key, encode_value, CodecError, Value};
use rocksdict::cursor::{Move, RdictIter};
use rocksdict::holder::DbReferenceHolder;
use rocksdict::integer::Integer;

/// An engine double: sorted entries and a position among them.
struct Engine {
    entries: Vec<(Vec<u8>, Vec<u8>)>,
    pos: Option<usize>,
}

impl Engine {
    fn new(map: &BTreeMap<Vec<u8>, Vec<u8>>) -> Engine {
        Engine { entries: map.iter().map(|(k, v)| (k.clone(), v.clone())).collect(), pos: None }
    }

    fn apply(&mut self, m: &Move) {
        let n = self.entries.len();
        self.pos = match m {
            Move::SeekToFirst => if n > 0 { Some(0) } else { None },
            Move::SeekToLast => if n > 0 { Some(n - 1) } else { None },
            Move::Seek(k) => self.entries.iter().position(|(e, _)| e >= k),
            Move::SeekForPrev(k) => self.entries.iter().rposition(|(e, _)| e <= k),
            Move::Next => self.pos.and_then(|p| if p + 1 < n { Some(p + 1) } else { None }),
            Move::Prev => self.pos.and_then(|p| if p > 0 { Some(p - 1) } else { None }),
        };
    }

    fn key(&self) -> Option<&[u8]> {
        self.pos.map(|p| self.entries[p].0.as_slice())
    }

    fn value(&self) -> Option<&[u8]> {
        self.pos.map(|p| self.entries[p].1.as_slice())
    }
}

fn integer(v: i64) -> Value {
    Value::Int(Integer::from_i64(v))
}

fn squares() -> BTreeMap<Vec<u8>, Vec<u8>> {
    let mut map = BTreeMap::new();
    for i in 0..50i64 {
        map.insert(encode_key(&integer(i), false).unwrap(), encode_value(&integer(i * i), false).unwrap());
    }
    map
}

/// A holder and a cursor holding one of its tokens.
fn cursor(raw_mode: bool) -> (DbReferenceHolder<()>, RdictIter) {
    let mut holder = DbReferenceHolder::new(());
    let h = holder.acquire().unwrap();
    (holder, RdictIter::new(h, raw_mode))
}

/// Runs a traversal to its end and collects what it yields.
fn collect(engine: &mut Engine, backwards: bool, from_key: Option<&Value>) -> Vec<(Value, Value)> {
    let (holder, mut it) = cursor(false);
    let first = it.start(&holder, backwards, from_key).unwrap();
    engine.apply(&first);
    it.moved(engine.pos.is_some(), None);
    let mut out = Vec::new();
    while it.valid(&holder) {
        let k = it.key(&holder, engine.key()).unwrap().unwrap();
        let v = it.value(&holder, engine.value()).unwrap().unwrap();
        out.push((k, v));
        let m = it.step(&holder, backwards).unwrap().unwrap();
        engine.apply(&m);
        it.moved(engine.pos.is_some(), None);
    }
    out
}

#[test]
fn forward_and_backward_traversal_of_squares() {
    let mut engine = Engine::new(&squares());
    let forward = collect(&mut engine, false, None);
    let expected: Vec<(Value, Value)> = (0..50i64).map(|i| (integer(i), integer(i * i))).collect();
    assert_eq!(forward, expected);
    assert_eq!(forward.last().unwrap(), &(integer(49), integer(2401)));
    let backward = collect(&mut engine, true, Some(&integer(49)));
    let mut reversed = expected.clone();
    reversed.reverse();
    assert_eq!(backward, reversed);
    assert_eq!(collect(&mut engine, true, None), reversed);
}

#[test]
fn seek_then_advance_follows_sorted_reference() {
    let words = ["apple", "kiwi", "k", "kale", "lemon", "banana", "zucchini", "ka", "m"];
    let mut reference = BTreeMap::new();
    for w in words {
        reference.insert(
            encode_key(&Value::String(w.to_string()), false).unwrap(),
            encode_value(&Value::Bool(true), false).unwrap(),
        );
    }
    let mut engine = Engine::new(&reference);
    let from = Value::String("k".to_string());
    let got: Vec<Value> = collect(&mut engine, false, Some(&from)).into_iter().map(|(k, _)| k).collect();
    let mut expected: Vec<&str> = words.iter().copied().filter(|w| *w >= "k").collect();
    expected.sort();
    let expected: Vec<Value> = expected.iter().map(|w| Value::String(w.to_string())).collect();
    assert_eq!(got, expected);
    let raw: Vec<Vec<u8>> = got.iter().map(|k| encode_key(k, false).unwrap()).collect();
    for w in raw.windows(2) {
        assert!(w[0] < w[1]);
    }
}

#[test]
fn cursor_reads_nothing_until_positioned() {
    let (holder, mut it) = cursor(false);
    assert!(!it.valid(&holder));
    assert_eq!(it.key(&holder, Some(&[5, 1])), Ok(None));
    assert_eq!(it.next(&holder), Ok(None));
    assert_eq!(it.prev(&holder), Ok(None));
    assert_eq!(it.status(&holder), Ok(()));
    it.moved(true, None);
    assert!(it.valid(&holder));
    assert_eq!(it.key(&holder, Some(&[5, 1])), Ok(Some(Value::Bool(true))));
    assert_eq!(it.key(&holder, Some(&[9])), Err(StoreError::Codec(CodecError::UnknownTag)));
    assert_eq!(it.next(&holder), Ok(Some(Move::Next)));
    assert_eq!(it.prev(&holder), Ok(Some(Move::Prev)));
}

#[test]
fn cursor_reports_engine_error_verbatim() {
    let (holder, mut it) = cursor(false);
    it.moved(false, Some("corruption".to_string()));
    assert!(!it.valid(&holder));
    assert_eq!(it.status(&holder), Err(StoreError::Engine("corruption".to_string())));
    assert_eq!(it.value(&holder, Some(&[5, 1])), Ok(None));
    it.moved(false, None);
    assert_eq!(it.status(&holder), Ok(()));
    it.moved(true, Some("ignored".to_string()));
    assert_eq!(it.status(&holder), Ok(()));
}

#[test]
fn cursor_seek_moves_carry_encoded_keys() {
    let (holder, it) = cursor(false);
    assert_eq!(it.seek_to_first(&holder), Ok(Move::SeekToFirst));
    assert_eq!(it.seek_to_last(&holder), Ok(Move::SeekToLast));
    assert_eq!(it.seek(&holder, &Value::Bool(false)), Ok(Move::Seek(vec![5, 0])));
    assert_eq!(it.seek_for_prev(&holder, &Value::Bool(true)), Ok(Move::SeekForPrev(vec![5, 1])));
    assert_eq!(it.seek(&holder, &Value::Any(vec![])), Err(StoreError::Codec(CodecError::UnsupportedType)));
    let (holder, raw) = cursor(true);
    assert_eq!(raw.seek(&holder, &Value::Bool(true)), Err(StoreError::Codec(CodecError::InvalidRawInput)));
    assert_eq!(raw.start(&holder, false, Some(&Value::Bytes(vec![7]))), Ok(Move::Seek(vec![7])));
    assert_eq!(raw.start(&holder, true, Some(&Value::Bytes(vec![7]))), Ok(Move::SeekForPrev(vec![7])));
    assert_eq!(raw.start(&holder, true, None), Ok(Move::SeekToLast));
}

#[test]
fn cursor_refuses_everything_after_close() {
    let (mut holder, mut it) = cursor(false);
    it.moved(true, None);
    assert!(holder.close().is_none());
    assert!(!it.valid(&holder));
    assert_eq!(it.seek(&holder, &Value::Bool(true)), Err(StoreError::Closed));
    assert_eq!(it.seek_to_first(&holder), Err(StoreError::Closed));
    assert_eq!(it.next(&holder), Err(StoreError::Closed));
    assert_eq!(it.step(&holder, true), Err(StoreError::Closed));
    assert_eq!(it.key(&holder, Some(&[5, 1])), Err(StoreError::Closed));
    assert_eq!(it.columns(&holder, None), Err(StoreError::Closed));
    assert_eq!(it.status(&holder), Err(StoreError::Closed));
    assert!(holder.release(it.into_handle()).is_some());
}

#[test]
fn releasing_one_cursor_leaves_another_working() {
    let mut holder = DbReferenceHolder::new(());
    let h = holder.acquire().unwrap();
    let keep = holder.acquire().unwrap();
    let it = RdictIter::new(h, false);
    let other = RdictIter::new(keep, false);
    assert!(holder.release(other.into_handle()).is_none());
    assert_eq!(it.seek_to_last(&holder), Ok(Move::SeekToLast));
}

#[test]
fn cursor_columns_decode_in_order() {
    let (holder, mut it) = cursor(false);
    let cols = vec![(vec![2u8], vec![5u8, 1]), (vec![2u8, 97], vec![1u8, 9])];
    assert_eq!(it.columns(&holder, Some(&cols)), Ok(None));
    it.moved(true, None);
    assert_eq!(
        it.columns(&holder, Some(&cols)),
        Ok(Some(vec![
            (Value::String(String::new()), Value::Bool(true)),
            (Value::String("a".to_string()), Value::Bytes(vec![9])),
        ]))
    );
    let bad = vec![(vec![2u8], vec![5u8, 1]), (vec![8u8], vec![1u8])];
    assert_eq!(it.columns(&holder, Some(&bad)), Err(StoreError::Codec(CodecError::UnknownTag)));
}
