use vstd::prelude::*;

use crate::codec::{
    decode_value, encode_key, encode_value, key_encoding, lemma_round_trip, value_decoding,
    value_encoding, CodecError, Value, ValueView,
};

verus! {

/// Why a store operation failed.
#[derive(Clone, Debug, PartialEq, Eq)]
pub enum StoreError {
    /// A key or value could not be encoded, or stored bytes not decoded.
    Codec(CodecError),
    /// The store was closed.
    Closed,
    /// The key is absent (single-key reads only).
    NotFound,
    /// The engine failed; its message is kept as it came.
    Engine(String),
    /// Options, a batch or a column family disagree with the store on raw mode;
    /// the store's raw mode is given.
    RawModeMismatch(bool),
    /// No column family has this name.
    ColumnFamilyNotFound(String),
    /// Every token for a derived handle has been handed out.
    HandlesExhausted,
}

/// Encodes every key of a multi-get, in order. One key that cannot be
/// encoded fails the whole call, and nothing is looked up.
pub fn encode_keys(keys: &Vec<Value>, raw_mode: bool) -> (r: Result<Vec<Vec<u8>>, CodecError>)
    ensures
        match r {
            Ok(out) => out@.len() == keys@.len() && forall|i: int|
                0 <= i < keys@.len() ==> key_encoding(keys@[i]@, raw_mode) == Ok::<Seq<u8>, CodecError>(
                    out@[i]@,
                ),
            Err(e) => exists|i: int|
                0 <= i < keys@.len() && key_encoding(keys@[i]@, raw_mode) == Err::<Seq<u8>, CodecError>(e)
                    && forall|j: int| 0 <= j < i ==> key_encoding(keys@[j]@, raw_mode) is Ok,
        },
{
    let mut out: Vec<Vec<u8>> = Vec::new();
    let mut i: usize = 0;
    while i < keys.len()
        invariant
            i <= keys@.len(),
            out@.len() == i,
            forall|j: int|
                0 <= j < i ==> key_encoding(keys@[j]@, raw_mode) == Ok::<Seq<u8>, CodecError>(out@[j]@),
        decreases keys@.len() - i,
    {
        match encode_key(&keys[i], raw_mode) {
            Ok(k) => out.push(k),
            Err(e) => {
                assert(forall|j: int| 0 <= j < i ==> key_encoding(keys@[j]@, raw_mode) is Ok);
                return Err(e);
            },
        }
        i = i + 1;
    }
    Ok(out)
}

/// A slot that the engine answered without error and that decodes.
pub open spec fn slot_ok(s: Result<Option<Vec<u8>>, String>, raw_mode: bool) -> bool {
    match s {
        Ok(None) => true,
        Ok(Some(b)) => value_decoding(b@, raw_mode) is Ok,
        Err(_) => false,
    }
}

/// The result `o` of a multi-get stands for the engine's answer `s`: absent
/// stays absent, present bytes decode to the value.
pub open spec fn slot_result(s: Result<Option<Vec<u8>>, String>, o: Option<Value>, raw_mode: bool) -> bool {
    match (s, o) {
        (Ok(None), None) => true,
        (Ok(Some(b)), Some(v)) => value_decoding(b@, raw_mode) == Ok::<ValueView, CodecError>(v@),
        _ => false,
    }
}

/// The error `e` is what the failing slot `s` gives.
pub open spec fn slot_error(s: Result<Option<Vec<u8>>, String>, e: StoreError, raw_mode: bool) -> bool {
    match s {
        Err(m) => e matches StoreError::Engine(m2) && m2@ == m@,
        Ok(Some(b)) => match value_decoding(b@, raw_mode) {
            Err(ce) => e == StoreError::Codec(ce),
            Ok(_) => false,
        },
        Ok(None) => false,
    }
}

/// Turns the engine's per-key answers to a multi-get into values, slot by
/// slot and in the order of the keys. An engine error or stored bytes that
/// do not decode fail the whole call with the first such slot's error.
pub fn collect_batch(results: &Vec<Result<Option<Vec<u8>>, String>>, raw_mode: bool) -> (r: Result<
    Vec<Option<Value>>,
    StoreError,
>)
    ensures
        match r {
            Ok(out) => out@.len() == results@.len() && forall|i: int|
                0 <= i < results@.len() ==> slot_result(results@[i], out@[i], raw_mode),
            Err(e) => exists|i: int|
                0 <= i < results@.len() && slot_error(results@[i], e, raw_mode) && forall|j: int|
                    0 <= j < i ==> slot_ok(results@[j], raw_mode),
        },
        r is Ok <==> forall|i: int| 0 <= i < results@.len() ==> slot_ok(results@[i], raw_mode),
{
    let mut out: Vec<Option<Value>> = Vec::new();
    let mut i: usize = 0;
    while i < results.len()
        invariant
            i <= results@.len(),
            out@.len() == i,
            forall|j: int| 0 <= j < i ==> slot_result(results@[j], out@[j], raw_mode),
            forall|j: int| 0 <= j < i ==> slot_ok(results@[j], raw_mode),
        decreases results@.len() - i,
    {
        match &results[i] {
            Ok(None) => out.push(None),
            Ok(Some(b)) => match decode_value(b.as_slice(), raw_mode) {
                Ok(v) => out.push(Some(v)),
                Err(e) => {
                    assert(slot_error(results@[i as int], StoreError::Codec(e), raw_mode));
                    return Err(StoreError::Codec(e));
                },
            },
            Err(m) => {
                let e = StoreError::Engine(m.clone());
                assert(slot_error(results@[i as int], e, raw_mode));
                return Err(e);
            },
        }
        i = i + 1;
    }
    Ok(out)
}

/// The engine answered key `k` with what `store` holds under it.
pub open spec fn answers_from(store: Map<Seq<u8>, Seq<u8>>, k: Seq<u8>, a: Result<Option<Vec<u8>>, String>) -> bool {
    match a {
        Ok(None) => !store.contains_key(k),
        Ok(Some(b)) => store.contains_key(k) && b@ == store[k],
        Err(_) => false,
    }
}

/// A multi-get over a store whose values were all written through the codec,
/// answered by the engine with what the store holds under each key, has no
/// failing slot: [`collect_batch`] then succeeds, and each slot is the value
/// stored under its key, or none where the key is absent.
pub proof fn lemma_multi_get_of_store(
    store: Map<Seq<u8>, Seq<u8>>,
    keys: Seq<Seq<u8>>,
    answers: Seq<Result<Option<Vec<u8>>, String>>,
    raw_mode: bool,
)
    requires
        forall|k: Seq<u8>| #[trigger] store.contains_key(k) ==> exists|v: ValueView|
            value_encoding(v, raw_mode) == Ok::<Seq<u8>, CodecError>(store[k]),
        answers.len() == keys.len(),
        forall|i: int| 0 <= i < keys.len() ==> answers_from(store, keys[i], #[trigger] answers[i]),
    ensures
        forall|i: int| 0 <= i < answers.len() ==> slot_ok(#[trigger] answers[i], raw_mode),
        forall|i: int, v: ValueView|
            0 <= i < answers.len() && store.contains_key(keys[i]) && #[trigger] value_encoding(v, raw_mode)
                == Ok::<Seq<u8>, CodecError>(store[keys[i]]) ==> (#[trigger] answers[i] matches Ok(Some(b))
                && value_decoding(b@, raw_mode) == Ok::<ValueView, CodecError>(v)),
        forall|i: int| 0 <= i < answers.len() && !store.contains_key(keys[i]) ==> #[trigger] answers[i] matches Ok(None),
{
    assert forall|i: int| 0 <= i < answers.len() implies slot_ok(#[trigger] answers[i], raw_mode) by {
        assert(answers_from(store, keys[i], answers[i]));
        if store.contains_key(keys[i]) {
            let v = choose|v: ValueView| value_encoding(v, raw_mode) == Ok::<Seq<u8>, CodecError>(store[keys[i]]);
            lemma_round_trip(v, raw_mode);
        }
    }
    assert forall|i: int, v: ValueView|
        0 <= i < answers.len() && store.contains_key(keys[i]) && #[trigger] value_encoding(v, raw_mode)
            == Ok::<Seq<u8>, CodecError>(store[keys[i]]) implies (#[trigger] answers[i] matches Ok(Some(b))
            && value_decoding(b@, raw_mode) == Ok::<ValueView, CodecError>(v)) by {
        assert(answers_from(store, keys[i], answers[i]));
        lemma_round_trip(v, raw_mode);
    }
    assert forall|i: int| 0 <= i < answers.len() && !store.contains_key(keys[i]) implies #[trigger] answers[i] matches Ok(None) by {
        assert(answers_from(store, keys[i], answers[i]));
    }
}

/// One mutation of a write batch, on encoded keys and values.
#[derive(Clone, Debug, PartialEq, Eq)]
pub enum BatchOp {
    Put(Vec<u8>, Vec<u8>),
    Delete(Vec<u8>),
    /// Every key from the first, inclusive, to the second, exclusive.
    DeleteRange(Vec<u8>, Vec<u8>),
}

/// What a [`BatchOp`] stands for.
pub enum BatchOpView {
    Put(Seq<u8>, Seq<u8>),
    Delete(Seq<u8>),
    DeleteRange(Seq<u8>, Seq<u8>),
}

impl View for BatchOp {
    type V = BatchOpView;

    open spec fn view(&self) -> BatchOpView {
        match self {
            BatchOp::Put(k, v) => BatchOpView::Put(k@, v@),
            BatchOp::Delete(k) => BatchOpView::Delete(k@),
            BatchOp::DeleteRange(a, b) => BatchOpView::DeleteRange(a@, b@),
        }
    }
}

/// Mutations gathered without touching the store, to be applied to it as one
/// atomic unit.
#[derive(Debug)]
pub struct WriteBatch {
    raw_mode: bool,
    ops: Vec<BatchOp>,
}

impl View for WriteBatch {
    type V = Seq<BatchOpView>;

    closed spec fn view(&self) -> Seq<BatchOpView> {
        self.ops@.map_values(|o: BatchOp| o@)
    }
}

/// Byte order in the store, used for range deletions.
pub open spec fn in_range(k: Seq<u8>, from: Seq<u8>, to: Seq<u8>) -> bool {
    !crate::order::lex_lt(k, from) && crate::order::lex_lt(k, to)
}

/// The contents of a column family after the mutations `ops`, one after
/// another, starting from `state`.
pub open spec fn batch_effect(state: Map<Seq<u8>, Seq<u8>>, ops: Seq<BatchOpView>) -> Map<Seq<u8>, Seq<u8>>
    decreases ops.len(),
{
    if ops.len() == 0 {
        state
    } else {
        let before = batch_effect(state, ops.drop_last());
        match ops.last() {
            BatchOpView::Put(k, v) => before.insert(k, v),
            BatchOpView::Delete(k) => before.remove(k),
            BatchOpView::DeleteRange(a, b) => before.restrict(
                before.dom().filter(|k: Seq<u8>| !in_range(k, a, b)),
            ),
        }
    }
}

impl WriteBatch {
    pub closed spec fn raw_mode(&self) -> bool {
        self.raw_mode
    }

    /// An empty batch for a store in the given raw mode.
    pub fn new(raw_mode: bool) -> (r: WriteBatch)
        ensures
            r@ == Seq::<BatchOpView>::empty(),
            r.raw_mode() == raw_mode,
    {
        let r = WriteBatch { raw_mode, ops: Vec::new() };
        assert(r@ =~= Seq::<BatchOpView>::empty());
        r
    }

    /// True when the batch and a store agree on raw mode.
    pub fn is_raw_mode(&self) -> (r: bool)
        ensures
            r == self.raw_mode(),
    {
        self.raw_mode
    }

    /// The number of mutations gathered.
    pub fn len(&self) -> (r: usize)
        ensures
            r == self@.len(),
    {
        self.ops.len()
    }

    /// The mutations gathered, in order.
    pub fn ops(&self) -> (r: &Vec<BatchOp>)
        ensures
            r@.map_values(|o: BatchOp| o@) == self@,
    {
        &self.ops
    }

    fn push_op(&mut self, op: BatchOp)
        ensures
            final(self)@ == old(self)@.push(op@),
            final(self).raw_mode() == old(self).raw_mode(),
    {
        self.ops.push(op);
        assert(self@ =~= old(self)@.push(op@));
    }

    /// Gathers a put. When the key or the value cannot be encoded nothing is
    /// gathered.
    pub fn put(&mut self, key: &Value, value: &Value) -> (r: Result<(), CodecError>)
        ensures
            final(self).raw_mode() == old(self).raw_mode(),
            match (key_encoding(key@, old(self).raw_mode()), value_encoding(value@, old(self).raw_mode())) {
                (Ok(k), Ok(v)) => r is Ok && final(self)@ == old(self)@.push(BatchOpView::Put(k, v)),
                (Err(e), _) => r == Err::<(), CodecError>(e) && final(self)@ == old(self)@,
                (Ok(_), Err(e)) => r == Err::<(), CodecError>(e) && final(self)@ == old(self)@,
            },
    {
        let k = match encode_key(key, self.raw_mode) {
            Ok(k) => k,
            Err(e) => return Err(e),
        };
        let v = match encode_value(value, self.raw_mode) {
            Ok(v) => v,
            Err(e) => return Err(e),
        };
        self.push_op(BatchOp::Put(k, v));
        Ok(())
    }

    /// Gathers a deletion.
    pub fn delete(&mut self, key: &Value) -> (r: Result<(), CodecError>)
        ensures
            final(self).raw_mode() == old(self).raw_mode(),
            match key_encoding(key@, old(self).raw_mode()) {
                Ok(k) => r is Ok && final(self)@ == old(self)@.push(BatchOpView::Delete(k)),
                Err(e) => r == Err::<(), CodecError>(e) && final(self)@ == old(self)@,
            },
    {
        let k = match encode_key(key, self.raw_mode) {
            Ok(k) => k,
            Err(e) => return Err(e),
        };
        self.push_op(BatchOp::Delete(k));
        Ok(())
    }

    /// Gathers the deletion of every key from `begin`, inclusive, to `end`,
    /// exclusive.
    pub fn delete_range(&mut self, begin: &Value, end: &Value) -> (r: Result<(), CodecError>)
        ensures
            final(self).raw_mode() == old(self).raw_mode(),
            match (key_encoding(begin@, old(self).raw_mode()), key_encoding(end@, old(self).raw_mode())) {
                (Ok(a), Ok(b)) => r is Ok && final(self)@ == old(self)@.push(BatchOpView::DeleteRange(a, b)),
                (Err(e), _) => r == Err::<(), CodecError>(e) && final(self)@ == old(self)@,
                (Ok(_), Err(e)) => r == Err::<(), CodecError>(e) && final(self)@ == old(self)@,
            },
    {
        let a = match encode_key(begin, self.raw_mode) {
            Ok(a) => a,
            Err(e) => return Err(e),
        };
        let b = match encode_key(end, self.raw_mode) {
            Ok(b) => b,
            Err(e) => return Err(e),
        };
        self.push_op(BatchOp::DeleteRange(a, b));
        Ok(())
    }

    /// Hands the gathered mutations over for the engine to apply, leaving
    /// the batch empty.
    pub fn consume(&mut self) -> (r: Vec<BatchOp>)
        ensures
            r@.map_values(|o: BatchOp| o@) == old(self)@,
            final(self)@ == Seq::<BatchOpView>::empty(),
            final(self).raw_mode() == old(self).raw_mode(),
    {
        let mut r: Vec<BatchOp> = Vec::new();
        r.append(&mut self.ops);
        assert(self@ =~= Seq::<BatchOpView>::empty());
        assert(r@ =~= old(self).ops@);
        r
    }
}

/// After a batch, a key holds what the last mutation that touched it left:
/// a put after which nothing touched the key decides its value, and a
/// deletion after which nothing put it back leaves it absent.
pub proof fn lemma_last_write_wins(state: Map<Seq<u8>, Seq<u8>>, ops: Seq<BatchOpView>, i: int, k: Seq<u8>)
    requires
        0 <= i < ops.len(),
        ops[i] is Put || ops[i] is Delete,
        match ops[i] {
            BatchOpView::Put(k2, _) => k2 == k,
            BatchOpView::Delete(k2) => k2 == k,
            _ => false,
        },
        forall|j: int|
            i < j < ops.len() ==> match #[trigger] ops[j] {
                BatchOpView::Put(k2, _) => k2 != k,
                BatchOpView::Delete(k2) => k2 != k,
                BatchOpView::DeleteRange(a, b) => !in_range(k, a, b),
            },
    ensures
        match ops[i] {
            BatchOpView::Put(_, v) => batch_effect(state, ops).contains_key(k) && batch_effect(state, ops)[k] == v,
            _ => !batch_effect(state, ops).contains_key(k),
        },
    decreases ops.len(),
{
    if i < ops.len() - 1 {
        let init = ops.drop_last();
        assert forall|j: int| i < j < init.len() implies match #[trigger] init[j] {
            BatchOpView::Put(k2, _) => k2 != k,
            BatchOpView::Delete(k2) => k2 != k,
            BatchOpView::DeleteRange(a, b) => !in_range(k, a, b),
        } by {
            assert(init[j] == ops[j]);
        }
        assert(init[i] == ops[i]);
        lemma_last_write_wins(state, init, i, k);
        let last = ops[ops.len() - 1];
        assert(ops.last() == last);
    } else {
        assert(ops.last() == ops[i]);
    }
}

} // verus!
