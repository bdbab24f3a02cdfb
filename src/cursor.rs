use vstd::prelude::*;

use crate::batch::StoreError;
use crate::codec::{decode_value, encode_key, key_encoding, value_decoding, CodecError, Value, ValueView};
use crate::holder::{DbReferenceHolder, Handle, HolderView};

verus! {

/// Where a cursor stands.
#[derive(Clone, Copy, Debug, PartialEq, Eq, Structural)]
pub enum Position {
    /// Not yet sought: nothing can be read.
    Unpositioned,
    /// On an entry.
    Positioned,
    /// Past either end of its range, without error.
    Exhausted,
    /// Stopped by an error that the engine reported.
    Errored,
}

/// A movement that the engine is asked to make on its positioning state.
#[derive(Clone, Debug, PartialEq, Eq)]
pub enum Move {
    SeekToFirst,
    SeekToLast,
    /// To the encoded key, or the first key after it.
    Seek(Vec<u8>),
    /// To the encoded key, or the last key before it.
    SeekForPrev(Vec<u8>),
    Next,
    Prev,
}

/// The state of a cursor over one column family: whether it may be read,
/// how keys are encoded for seeking and decoded for reading, and the token
/// that keeps the store alive for it.
///
/// The engine holds the position itself. Each movement goes in two steps:
/// the cursor names the [`Move`], and after the engine made it, the cursor
/// is told what the engine reports, through [`RdictIter::moved`]. Every
/// movement and every read is refused with `Closed` once the store is closed
/// or the cursor's token has been given back.
#[derive(Debug)]
pub struct RdictIter {
    raw_mode: bool,
    state: State,
    handle: Handle,
}

/// Where a cursor stands, with the engine's message when an error stopped it.
#[derive(Debug)]
enum State {
    Unpositioned,
    Positioned,
    Exhausted,
    Errored(String),
}

/// A token reaches the store: the store is not closed and the token has not
/// been given back.
pub open spec fn reaches(h: HolderView, token: u64) -> bool {
    !h.closed && h.live.contains(token)
}

/// A codec error, as a store error.
pub open spec fn lift_codec<T>(r: Result<T, CodecError>) -> Result<T, StoreError> {
    match r {
        Ok(v) => Ok(v),
        Err(e) => Err(StoreError::Codec(e)),
    }
}

/// The view of a decoded optional value.
pub open spec fn option_value_result(r: Result<Option<Value>, StoreError>) -> Result<
    Option<ValueView>,
    StoreError,
> {
    match r {
        Ok(Some(v)) => Ok(Some(v@)),
        Ok(None) => Ok(None),
        Err(e) => Err(e),
    }
}

/// `r` is the seek for `key` (at or after it, or with `backwards` at or
/// before it), or the reason that `key` cannot be encoded.
pub open spec fn is_seek(r: Result<Move, StoreError>, key: ValueView, raw_mode: bool, backwards: bool) -> bool {
    match key_encoding(key, raw_mode) {
        Ok(k) => match r {
            Ok(Move::Seek(b)) => !backwards && b@ == k,
            Ok(Move::SeekForPrev(b)) => backwards && b@ == k,
            _ => false,
        },
        Err(e) => r == Err::<Move, StoreError>(StoreError::Codec(e)),
    }
}

/// What reading the current entry gives, for bytes the engine handed over:
/// nothing unless the cursor stands on an entry.
pub open spec fn read_result(positioned: bool, raw: Option<Seq<u8>>, raw_mode: bool) -> Result<
    Option<ValueView>,
    CodecError,
> {
    if !positioned {
        Ok(None)
    } else {
        match raw {
            Some(b) => match value_decoding(b, raw_mode) {
                Ok(v) => Ok(Some(v)),
                Err(e) => Err(e),
            },
            None => Ok(None),
        }
    }
}

pub open spec fn opt_bytes(raw: Option<&[u8]>) -> Option<Seq<u8>> {
    match raw {
        Some(b) => Some(b@),
        None => None,
    }
}

/// The pairs of a wide-column entry decode one after another; the first
/// pair that does not decode decides the error.
pub open spec fn columns_result(cols: Seq<(Seq<u8>, Seq<u8>)>, raw_mode: bool) -> Result<
    Seq<(ValueView, ValueView)>,
    CodecError,
>
    decreases cols.len(),
{
    if cols.len() == 0 {
        Ok(Seq::empty())
    } else {
        let first = cols[0];
        match (value_decoding(first.0, raw_mode), value_decoding(first.1, raw_mode)) {
            (Ok(n), Ok(v)) => match columns_result(cols.drop_first(), raw_mode) {
                Ok(rest) => Ok(seq![(n, v)] + rest),
                Err(e) => Err(e),
            },
            (Err(e), _) => Err(e),
            (Ok(_), Err(e)) => Err(e),
        }
    }
}

pub open spec fn raw_columns(cols: Seq<(Vec<u8>, Vec<u8>)>) -> Seq<(Seq<u8>, Seq<u8>)> {
    cols.map_values(|c: (Vec<u8>, Vec<u8>)| (c.0@, c.1@))
}

pub open spec fn decoded_columns(cols: Seq<(Value, Value)>) -> Seq<(ValueView, ValueView)> {
    cols.map_values(|c: (Value, Value)| (c.0@, c.1@))
}

impl RdictIter {
    pub closed spec fn position(&self) -> Position {
        match self.state {
            State::Unpositioned => Position::Unpositioned,
            State::Positioned => Position::Positioned,
            State::Exhausted => Position::Exhausted,
            State::Errored(_) => Position::Errored,
        }
    }

    pub closed spec fn raw_mode(&self) -> bool {
        self.raw_mode
    }

    /// The engine's error message that stopped the cursor, if one did.
    pub closed spec fn error(&self) -> Option<String> {
        match self.state {
            State::Errored(e) => Some(e),
            _ => None,
        }
    }

    /// The token that keeps the store alive for this cursor.
    pub closed spec fn token(&self) -> u64 {
        self.handle@
    }

    /// A cursor that has not been sought yet, holding `handle`.
    pub fn new(handle: Handle, raw_mode: bool) -> (r: RdictIter)
        ensures
            r.position() == Position::Unpositioned,
            r.raw_mode() == raw_mode,
            r.error() is None,
            r.token() == handle@,
    {
        RdictIter { raw_mode, state: State::Unpositioned, handle }
    }

    fn is_positioned(&self) -> (r: bool)
        ensures
            r == (self.position() == Position::Positioned),
    {
        match self.state {
            State::Positioned => true,
            _ => false,
        }
    }

    /// The cursor's token, to reach the engine through the store.
    pub fn handle(&self) -> (r: &Handle)
        ensures
            r@ == self.token(),
    {
        &self.handle
    }

    /// Gives up the cursor, keeping its token to be given back to the store.
    pub fn into_handle(self) -> (r: Handle)
        ensures
            r@ == self.token(),
    {
        self.handle
    }

    /// `Closed` unless the cursor's token reaches the store.
    fn gate<R>(&self, holder: &DbReferenceHolder<R>) -> (r: Result<(), StoreError>)
        requires
            holder@.wf(),
        ensures
            r is Ok <==> reaches(holder@, self.token()),
            r is Err ==> r == Err::<(), StoreError>(StoreError::Closed),
    {
        if holder.get_for(&self.handle).is_some() {
            Ok(())
        } else {
            Err(StoreError::Closed)
        }
    }

    /// True while the cursor stands on an entry of a store it reaches.
    pub fn valid<R>(&self, holder: &DbReferenceHolder<R>) -> (r: bool)
        requires
            holder@.wf(),
        ensures
            r == (reaches(holder@, self.token()) && self.position() == Position::Positioned),
    {
        self.gate(holder).is_ok() && self.is_positioned()
    }

    /// The engine's error that stopped the cursor, passed on as it came. A
    /// cursor that stands on an entry never reports one.
    pub fn status<R>(&self, holder: &DbReferenceHolder<R>) -> (r: Result<(), StoreError>)
        requires
            holder@.wf(),
        ensures
            !reaches(holder@, self.token()) ==> r == Err::<(), StoreError>(StoreError::Closed),
            reaches(holder@, self.token()) ==> (r is Err <==> self.position() == Position::Errored),
            reaches(holder@, self.token()) && r is Err ==> (r matches Err(StoreError::Engine(m)) && self.error() == Some(m)),
    {
        match self.gate(holder) {
            Err(e) => return Err(e),
            Ok(()) => {},
        }
        match &self.state {
            State::Errored(e) => Err(StoreError::Engine(e.clone())),
            _ => Ok(()),
        }
    }

    /// Asks for the first entry.
    pub fn seek_to_first<R>(&self, holder: &DbReferenceHolder<R>) -> (r: Result<Move, StoreError>)
        requires
            holder@.wf(),
        ensures
            r == (if reaches(holder@, self.token()) {
                Ok::<Move, StoreError>(Move::SeekToFirst)
            } else {
                Err(StoreError::Closed)
            }),
    {
        match self.gate(holder) {
            Ok(()) => Ok(Move::SeekToFirst),
            Err(e) => Err(e),
        }
    }

    /// Asks for the last entry.
    pub fn seek_to_last<R>(&self, holder: &DbReferenceHolder<R>) -> (r: Result<Move, StoreError>)
        requires
            holder@.wf(),
        ensures
            r == (if reaches(holder@, self.token()) {
                Ok::<Move, StoreError>(Move::SeekToLast)
            } else {
                Err(StoreError::Closed)
            }),
    {
        match self.gate(holder) {
            Ok(()) => Ok(Move::SeekToLast),
            Err(e) => Err(e),
        }
    }

    fn seek_in<R>(&self, holder: &DbReferenceHolder<R>, key: &Value, backwards: bool) -> (r: Result<Move, StoreError>)
        requires
            holder@.wf(),
        ensures
            !reaches(holder@, self.token()) ==> r == Err::<Move, StoreError>(StoreError::Closed),
            reaches(holder@, self.token()) ==> is_seek(r, key@, self.raw_mode(), backwards),
    {
        match self.gate(holder) {
            Err(e) => return Err(e),
            Ok(()) => {},
        }
        match encode_key(key, self.raw_mode) {
            Ok(k) => if backwards {
                Ok(Move::SeekForPrev(k))
            } else {
                Ok(Move::Seek(k))
            },
            Err(e) => Err(StoreError::Codec(e)),
        }
    }

    /// Asks for `key`, or the first entry after it.
    pub fn seek<R>(&self, holder: &DbReferenceHolder<R>, key: &Value) -> (r: Result<Move, StoreError>)
        requires
            holder@.wf(),
        ensures
            !reaches(holder@, self.token()) ==> r == Err::<Move, StoreError>(StoreError::Closed),
            reaches(holder@, self.token()) ==> is_seek(r, key@, self.raw_mode(), false),
    {
        self.seek_in(holder, key, false)
    }

    /// Asks for `key`, or the last entry before it.
    pub fn seek_for_prev<R>(&self, holder: &DbReferenceHolder<R>, key: &Value) -> (r: Result<Move, StoreError>)
        requires
            holder@.wf(),
        ensures
            !reaches(holder@, self.token()) ==> r == Err::<Move, StoreError>(StoreError::Closed),
            reaches(holder@, self.token()) ==> is_seek(r, key@, self.raw_mode(), true),
    {
        self.seek_in(holder, key, true)
    }

    /// Asks for the next entry; there is none to ask for unless the cursor
    /// stands on an entry.
    pub fn next<R>(&self, holder: &DbReferenceHolder<R>) -> (r: Result<Option<Move>, StoreError>)
        requires
            holder@.wf(),
        ensures
            !reaches(holder@, self.token()) ==> r == Err::<Option<Move>, StoreError>(StoreError::Closed),
            reaches(holder@, self.token()) ==> r == Ok::<Option<Move>, StoreError>(
                if self.position() == Position::Positioned { Some(Move::Next) } else { None },
            ),
    {
        self.step(holder, false)
    }

    /// Asks for the previous entry; there is none to ask for unless the
    /// cursor stands on an entry.
    pub fn prev<R>(&self, holder: &DbReferenceHolder<R>) -> (r: Result<Option<Move>, StoreError>)
        requires
            holder@.wf(),
        ensures
            !reaches(holder@, self.token()) ==> r == Err::<Option<Move>, StoreError>(StoreError::Closed),
            reaches(holder@, self.token()) ==> r == Ok::<Option<Move>, StoreError>(
                if self.position() == Position::Positioned { Some(Move::Prev) } else { None },
            ),
    {
        self.step(holder, true)
    }

    /// Takes in what the engine reports after a move: on an entry, or not,
    /// with or without an error. Any earlier error is forgotten; a new one
    /// is kept as it came.
    pub fn moved(&mut self, valid: bool, error: Option<String>)
        ensures
            final(self).raw_mode() == old(self).raw_mode(),
            final(self).token() == old(self).token(),
            final(self).position() == (if valid {
                Position::Positioned
            } else if error is Some {
                Position::Errored
            } else {
                Position::Exhausted
            }),
            final(self).error() == (if valid { None } else { error }),
    {
        self.state = if valid {
            State::Positioned
        } else {
            match error {
                Some(e) => State::Errored(e),
                None => State::Exhausted,
            }
        };
    }

    /// The first move of a traversal: from `from_key` when given, else from
    /// the first entry, or the last one when going backwards.
    pub fn start<R>(&self, holder: &DbReferenceHolder<R>, backwards: bool, from_key: Option<&Value>) -> (r: Result<Move, StoreError>)
        requires
            holder@.wf(),
        ensures
            !reaches(holder@, self.token()) ==> r == Err::<Move, StoreError>(StoreError::Closed),
            reaches(holder@, self.token()) ==> match from_key {
                None => r == Ok::<Move, StoreError>(if backwards { Move::SeekToLast } else { Move::SeekToFirst }),
                Some(k) => is_seek(r, k@, self.raw_mode(), backwards),
            },
    {
        match from_key {
            Some(k) => self.seek_in(holder, k, backwards),
            None => if backwards {
                self.seek_to_last(holder)
            } else {
                self.seek_to_first(holder)
            },
        }
    }

    /// The move after an entry of a traversal has been read: one step in its
    /// direction. None once the traversal has ended.
    pub fn step<R>(&self, holder: &DbReferenceHolder<R>, backwards: bool) -> (r: Result<Option<Move>, StoreError>)
        requires
            holder@.wf(),
        ensures
            !reaches(holder@, self.token()) ==> r == Err::<Option<Move>, StoreError>(StoreError::Closed),
            reaches(holder@, self.token()) ==> r == Ok::<Option<Move>, StoreError>(
                if self.position() == Position::Positioned {
                    Some(if backwards { Move::Prev } else { Move::Next })
                } else {
                    None
                },
            ),
    {
        match self.gate(holder) {
            Err(e) => return Err(e),
            Ok(()) => {},
        }
        if !self.is_positioned() {
            Ok(None)
        } else if backwards {
            Ok(Some(Move::Prev))
        } else {
            Ok(Some(Move::Next))
        }
    }

    /// The current key, decoded from the bytes the engine holds there.
    pub fn key<R>(&self, holder: &DbReferenceHolder<R>, raw: Option<&[u8]>) -> (r: Result<Option<Value>, StoreError>)
        requires
            holder@.wf(),
        ensures
            !reaches(holder@, self.token()) ==> r == Err::<Option<Value>, StoreError>(StoreError::Closed),
            reaches(holder@, self.token()) ==> option_value_result(r) == lift_codec(read_result(
                self.position() == Position::Positioned,
                opt_bytes(raw),
                self.raw_mode(),
            )),
    {
        self.read(holder, raw)
    }

    /// The current value, decoded from the bytes the engine holds there.
    pub fn value<R>(&self, holder: &DbReferenceHolder<R>, raw: Option<&[u8]>) -> (r: Result<Option<Value>, StoreError>)
        requires
            holder@.wf(),
        ensures
            !reaches(holder@, self.token()) ==> r == Err::<Option<Value>, StoreError>(StoreError::Closed),
            reaches(holder@, self.token()) ==> option_value_result(r) == lift_codec(read_result(
                self.position() == Position::Positioned,
                opt_bytes(raw),
                self.raw_mode(),
            )),
    {
        self.read(holder, raw)
    }

    fn read<R>(&self, holder: &DbReferenceHolder<R>, raw: Option<&[u8]>) -> (r: Result<Option<Value>, StoreError>)
        requires
            holder@.wf(),
        ensures
            !reaches(holder@, self.token()) ==> r == Err::<Option<Value>, StoreError>(StoreError::Closed),
            reaches(holder@, self.token()) ==> option_value_result(r) == lift_codec(read_result(
                self.position() == Position::Positioned,
                opt_bytes(raw),
                self.raw_mode(),
            )),
    {
        match self.gate(holder) {
            Err(e) => return Err(e),
            Ok(()) => {},
        }
        if !self.is_positioned() {
            return Ok(None);
        }
        match raw {
            Some(b) => match decode_value(b, self.raw_mode) {
                Ok(v) => Ok(Some(v)),
                Err(e) => Err(StoreError::Codec(e)),
            },
            None => Ok(None),
        }
    }

    /// The current wide-column entry as `(name, value)` pairs in the order
    /// the engine gives them; nothing unless the cursor stands on an entry.
    pub fn columns<R>(&self, holder: &DbReferenceHolder<R>, raw: Option<&Vec<(Vec<u8>, Vec<u8>)>>) -> (r: Result<
        Option<Vec<(Value, Value)>>,
        StoreError,
    >)
        requires
            holder@.wf(),
        ensures
            !reaches(holder@, self.token()) ==> r == Err::<Option<Vec<(Value, Value)>>, StoreError>(StoreError::Closed),
            reaches(holder@, self.token()) ==> match (if self.position() == Position::Positioned { raw } else { None }) {
                Some(cols) => match r {
                    Ok(Some(out)) => columns_result(raw_columns(cols@), self.raw_mode()) == Ok::<
                        Seq<(ValueView, ValueView)>,
                        CodecError,
                    >(decoded_columns(out@)),
                    Err(StoreError::Codec(e)) => columns_result(raw_columns(cols@), self.raw_mode()) == Err::<
                        Seq<(ValueView, ValueView)>,
                        CodecError,
                    >(e),
                    _ => false,
                },
                None => r matches Ok(None),
            },
    {
        match self.gate(holder) {
            Err(e) => return Err(e),
            Ok(()) => {},
        }
        if !self.is_positioned() {
            return Ok(None);
        }
        match raw {
            Some(cols) => match decode_columns(cols, self.raw_mode) {
                Ok(out) => Ok(Some(out)),
                Err(e) => Err(StoreError::Codec(e)),
            },
            None => Ok(None),
        }
    }
}

proof fn lemma_columns_result_split(cols: Seq<(Seq<u8>, Seq<u8>)>, i: int, raw_mode: bool)
    requires
        0 <= i < cols.len(),
    ensures
        columns_result(cols.subrange(i, cols.len() as int), raw_mode) == ({
            let first = cols[i];
            match (value_decoding(first.0, raw_mode), value_decoding(first.1, raw_mode)) {
                (Ok(n), Ok(v)) => match columns_result(cols.subrange(i + 1, cols.len() as int), raw_mode) {
                    Ok(rest) => Ok(seq![(n, v)] + rest),
                    Err(e) => Err(e),
                },
                (Err(e), _) => Err(e),
                (Ok(_), Err(e)) => Err(e),
            }
        }),
{
    let s = cols.subrange(i, cols.len() as int);
    assert(s[0] == cols[i]);
    assert(s.drop_first() =~= cols.subrange(i + 1, cols.len() as int));
}

/// Decodes every pair, in order.
fn decode_columns(cols: &Vec<(Vec<u8>, Vec<u8>)>, raw_mode: bool) -> (r: Result<
    Vec<(Value, Value)>,
    CodecError,
>)
    ensures
        match r {
            Ok(out) => columns_result(raw_columns(cols@), raw_mode) == Ok::<
                Seq<(ValueView, ValueView)>,
                CodecError,
            >(decoded_columns(out@)),
            Err(e) => columns_result(raw_columns(cols@), raw_mode) == Err::<
                Seq<(ValueView, ValueView)>,
                CodecError,
            >(e),
        },
{
    let ghost all = raw_columns(cols@);
    let mut out: Vec<(Value, Value)> = Vec::new();
    let mut i: usize = 0;
    while i < cols.len()
        invariant
            i <= cols@.len(),
            all == raw_columns(cols@),
            out@.len() == i,
            forall|j: int|
                0 <= j < i ==> value_decoding(all[j].0, raw_mode) == Ok::<ValueView, CodecError>(
                    out@[j].0@,
                ) && value_decoding(all[j].1, raw_mode) == Ok::<ValueView, CodecError>(out@[j].1@),
        decreases cols@.len() - i,
    {
        let name = match decode_value(cols[i].0.as_slice(), raw_mode) {
            Ok(v) => v,
            Err(e) => {
                proof {
                    lemma_columns_prefix_ok(all, out@, i as int, raw_mode);
                    lemma_columns_result_split(all, i as int, raw_mode);
                }
                return Err(e);
            },
        };
        let value = match decode_value(cols[i].1.as_slice(), raw_mode) {
            Ok(v) => v,
            Err(e) => {
                proof {
                    lemma_columns_prefix_ok(all, out@, i as int, raw_mode);
                    lemma_columns_result_split(all, i as int, raw_mode);
                }
                return Err(e);
            },
        };
        out.push((name, value));
        i = i + 1;
    }
    proof {
        lemma_columns_all_ok(all, out@, raw_mode);
    }
    Ok(out)
}

/// Decoding that stops at position `i` fails the whole entry with the same error.
proof fn lemma_columns_prefix_ok(
    cols: Seq<(Seq<u8>, Seq<u8>)>,
    done: Seq<(Value, Value)>,
    i: int,
    raw_mode: bool,
)
    requires
        0 <= i < cols.len(),
        done.len() == i,
        forall|j: int|
            0 <= j < i ==> value_decoding(cols[j].0, raw_mode) == Ok::<ValueView, CodecError>(
                done[j].0@,
            ) && value_decoding(cols[j].1, raw_mode) == Ok::<ValueView, CodecError>(done[j].1@),
    ensures
        columns_result(cols, raw_mode) is Err <==> columns_result(
            cols.subrange(i, cols.len() as int),
            raw_mode,
        ) is Err,
        columns_result(cols, raw_mode) matches Err(e) ==> columns_result(
            cols.subrange(i, cols.len() as int),
            raw_mode,
        ) == Err::<Seq<(ValueView, ValueView)>, CodecError>(e),
        columns_result(cols.subrange(i, cols.len() as int), raw_mode) matches Err(e)
            ==> columns_result(cols, raw_mode) == Err::<Seq<(ValueView, ValueView)>, CodecError>(e),
    decreases i,
{
    if i > 0 {
        assert(cols.subrange(i, cols.len() as int) =~= cols.drop_first().subrange(
            i - 1,
            cols.drop_first().len() as int,
        ));
        lemma_columns_prefix_ok(cols.drop_first(), done.drop_first(), i - 1, raw_mode);
    } else {
        assert(cols.subrange(0, cols.len() as int) =~= cols);
    }
}

/// When every pair decodes, the entry decodes to all of them, in order.
proof fn lemma_columns_all_ok(cols: Seq<(Seq<u8>, Seq<u8>)>, done: Seq<(Value, Value)>, raw_mode: bool)
    requires
        done.len() == cols.len(),
        forall|j: int|
            0 <= j < cols.len() ==> value_decoding(cols[j].0, raw_mode) == Ok::<ValueView, CodecError>(
                done[j].0@,
            ) && value_decoding(cols[j].1, raw_mode) == Ok::<ValueView, CodecError>(done[j].1@),
    ensures
        columns_result(cols, raw_mode) == Ok::<Seq<(ValueView, ValueView)>, CodecError>(
            decoded_columns(done),
        ),
    decreases cols.len(),
{
    if cols.len() > 0 {
        lemma_columns_all_ok(cols.drop_first(), done.drop_first(), raw_mode);
        assert(decoded_columns(done) =~= seq![(done[0].0@, done[0].1@)] + decoded_columns(
            done.drop_first(),
        ));
    } else {
        assert(decoded_columns(done) =~= Seq::empty());
    }
}

} // verus!
