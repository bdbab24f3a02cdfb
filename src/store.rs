use vstd::prelude::*;

use crate::batch::{collect_batch, encode_keys, slot_error, slot_ok, slot_result, StoreError, WriteBatch};
use crate::codec::{
    decode_value, encode_key, encode_value, key_encoding, value_decoding, value_encoding, CodecError,
    Value,
};
use crate::config::{PrefixRegistry, RocksDictConfig, SliceTransformType, StoreOptions};
use crate::cursor::{reaches, Position, RdictIter};
use crate::holder::{after_release, release_all, DbReferenceHolder, Handle, HolderView};

verus! {

/// The name of the column family that every store has.
pub open spec fn default_cf_name() -> Seq<char> {
    seq!['d', 'e', 'f', 'a', 'u', 'l', 't']
}

/// The name of the column family that every store has.
pub fn default_column_family_name() -> (r: String)
    ensures
        r@ == default_cf_name(),
{
    let r = String::from_str("default");
    proof {
        reveal_strlit("default");
    }
    assert(r@ =~= default_cf_name());
    r
}

/// How a store is opened.
#[derive(Clone, Debug, PartialEq, Eq)]
pub enum AccessType {
    ReadWrite,
    ReadOnly { error_if_log_file_exist: bool },
    /// A secondary instance that keeps its own files under the given path.
    Secondary { secondary_path: String },
    /// Entries older than the given number of seconds may be dropped.
    WithTTL { ttl_secs: u64 },
}

impl AccessType {
    pub fn read_write() -> (r: AccessType)
        ensures
            r == AccessType::ReadWrite,
    {
        AccessType::ReadWrite
    }

    pub fn read_only(error_if_log_file_exist: bool) -> (r: AccessType)
        ensures
            r == (AccessType::ReadOnly { error_if_log_file_exist }),
    {
        AccessType::ReadOnly { error_if_log_file_exist }
    }

    pub fn secondary(secondary_path: String) -> (r: AccessType)
        ensures
            r == (AccessType::Secondary { secondary_path }),
    {
        AccessType::Secondary { secondary_path }
    }

    pub fn with_ttl(duration: u64) -> (r: AccessType)
        ensures
            r == (AccessType::WithTTL { ttl_secs: duration }),
    {
        AccessType::WithTTL { ttl_secs: duration }
    }
}

/// Where a part of the configuration that a store is opened with comes from.
#[derive(Clone, Copy, Debug, PartialEq, Eq, Structural)]
pub enum Choice {
    /// What the store's directory already holds.
    Loaded,
    /// What the caller passed.
    Given,
    /// Defaults: the codec in use, no prefix extractor.
    Fresh,
}

/// What opening a store takes: which options and which list of column
/// families, whether the default column family must be added to that list,
/// and the record to keep beside the store.
#[derive(Debug)]
pub struct OpenPlan {
    pub options: Choice,
    /// None when the store is opened without a list of column families.
    pub column_families: Option<Choice>,
    pub add_default_column_family: bool,
    pub config: RocksDictConfig,
}

pub open spec fn chosen_options(
    loaded: Option<(StoreOptions, Seq<(String, StoreOptions)>)>,
    options: Option<StoreOptions>,
) -> StoreOptions {
    match (loaded, options) {
        (_, Some(o)) => o,
        (Some(l), None) => l.0,
        (None, None) => StoreOptions { raw_mode: false, prefix_extractor: None },
    }
}

pub open spec fn chosen_column_families(
    loaded: Option<(StoreOptions, Seq<(String, StoreOptions)>)>,
    column_families: Option<Seq<(String, StoreOptions)>>,
) -> Option<Seq<(String, StoreOptions)>> {
    match (loaded, column_families) {
        (_, Some(c)) => Some(c),
        (Some(l), None) => Some(l.1),
        (None, None) => None,
    }
}

/// The prefix extractor of each column family: that of the options for the
/// default column family, then those of the listed column families in order.
pub open spec fn extractors_of(o: StoreOptions, cfs: Seq<(String, StoreOptions)>) -> Map<
    Seq<char>,
    SliceTransformType,
>
    decreases cfs.len(),
{
    if cfs.len() == 0 {
        match o.prefix_extractor {
            Some(t) => Map::empty().insert(default_cf_name(), t),
            None => Map::empty(),
        }
    } else {
        let before = extractors_of(o, cfs.drop_last());
        match cfs.last().1.prefix_extractor {
            Some(t) => before.insert(cfs.last().0@, t),
            None => before,
        }
    }
}

/// The listed column families; none without a list.
pub open spec fn listed(cfs: Option<Seq<(String, StoreOptions)>>) -> Seq<(String, StoreOptions)> {
    match cfs {
        Some(c) => c,
        None => Seq::empty(),
    }
}

pub open spec fn loaded_view(l: Option<(StoreOptions, Vec<(String, StoreOptions)>)>) -> Option<
    (StoreOptions, Seq<(String, StoreOptions)>),
> {
    match l {
        Some(p) => Some((p.0, p.1@)),
        None => None,
    }
}

pub open spec fn cfs_view(c: Option<Vec<(String, StoreOptions)>>) -> Option<Seq<(String, StoreOptions)>> {
    match c {
        Some(v) => Some(v@),
        None => None,
    }
}

/// Decides how a store is opened from what its directory holds (`loaded`,
/// when it could be read) and what the caller passed. The caller's options
/// and list win; what was loaded fills in; without either, defaults are used
/// and no list. Every listed column family must agree with the options on
/// raw mode, else the error gives the options' raw mode.
pub fn plan_open(
    loaded: Option<(StoreOptions, Vec<(String, StoreOptions)>)>,
    options: Option<StoreOptions>,
    column_families: Option<Vec<(String, StoreOptions)>>,
) -> (r: Result<OpenPlan, StoreError>)
    ensures
        ({
            let o = chosen_options(loaded_view(loaded), options);
            let cfs = chosen_column_families(loaded_view(loaded), cfs_view(column_families));
            let c = listed(cfs);
            match r {
                Ok(plan) => {
                    &&& plan.options == (if options is Some {
                        Choice::Given
                    } else if loaded is Some {
                        Choice::Loaded
                    } else {
                        Choice::Fresh
                    })
                    &&& plan.column_families == (if column_families is Some {
                        Some(Choice::Given)
                    } else if loaded is Some {
                        Some(Choice::Loaded)
                    } else {
                        None::<Choice>
                    })
                    &&& plan.config.raw_mode == o.raw_mode
                    &&& plan.config.prefix_extractors.wf()
                    &&& plan.config.prefix_extractors@ == extractors_of(o, c)
                    &&& plan.add_default_column_family == (cfs is Some && forall|i: int|
                        0 <= i < c.len() ==> c[i].0@ != default_cf_name())
                    &&& forall|i: int| 0 <= i < c.len() ==> c[i].1.raw_mode == o.raw_mode
                },
                Err(e) => {
                    &&& e == StoreError::RawModeMismatch(o.raw_mode)
                    &&& exists|i: int| 0 <= i < c.len() && c[i].1.raw_mode != o.raw_mode
                },
            }
        }),
{
    let options_choice = if options.is_some() {
        Choice::Given
    } else if loaded.is_some() {
        Choice::Loaded
    } else {
        Choice::Fresh
    };
    let cfs_choice = if column_families.is_some() {
        Some(Choice::Given)
    } else if loaded.is_some() {
        Some(Choice::Loaded)
    } else {
        None
    };
    let ghost want_o = chosen_options(loaded_view(loaded), options);
    let ghost want_cfs = chosen_column_families(loaded_view(loaded), cfs_view(column_families));
    let (o, cfs): (StoreOptions, Vec<(String, StoreOptions)>) = match (loaded, options, column_families) {
        (_, Some(o), Some(c)) => (o, c),
        (Some(l), Some(o), None) => (o, l.1),
        (Some(l), None, Some(c)) => (l.0, c),
        (Some(l), None, None) => (l.0, l.1),
        (None, Some(o), None) => (o, Vec::new()),
        (None, None, Some(c)) => (StoreOptions::new(false), c),
        (None, None, None) => (StoreOptions::new(false), Vec::new()),
    };
    assert(cfs@ == listed(want_cfs));
    assert(o == want_o);
    let mut registry = PrefixRegistry::new();
    match o.prefix_extractor {
        Some(t) => registry.insert(default_column_family_name(), t),
        None => {},
    }
    let mut has_default = false;
    let mut i: usize = 0;
    while i < cfs.len()
        invariant
            i <= cfs@.len(),
            cfs@ == listed(want_cfs),
            o == want_o,
            want_o == chosen_options(loaded_view(loaded), options),
            want_cfs == chosen_column_families(loaded_view(loaded), cfs_view(column_families)),
            registry.wf(),
            registry@ == extractors_of(o, cfs@.subrange(0, i as int)),
            forall|j: int| 0 <= j < i ==> cfs@[j].1.raw_mode == o.raw_mode,
            has_default == exists|j: int| 0 <= j < i && cfs@[j].0@ == default_cf_name(),
        decreases cfs@.len() - i,
    {
        let ghost prefix = cfs@.subrange(0, i as int + 1);
        assert(prefix.drop_last() =~= cfs@.subrange(0, i as int));
        assert(prefix.last() == cfs@[i as int]);
        if cfs[i].1.raw_mode != o.raw_mode {
            assert(cfs@[i as int].1.raw_mode != o.raw_mode);
            return Err(StoreError::RawModeMismatch(o.raw_mode));
        }
        if cfs[i].0 == default_column_family_name() {
            assert(cfs@[i as int].0@ == default_cf_name());
            has_default = true;
        }
        match cfs[i].1.prefix_extractor {
            Some(t) => registry.insert(cfs[i].0.clone(), t),
            None => {},
        }
        i = i + 1;
    }
    assert(cfs@.subrange(0, cfs@.len() as int) =~= cfs@);
    assert(cfs_choice is Some <==> want_cfs is Some);
    let add_default = cfs_choice.is_some() && !has_default;
    Ok(OpenPlan {
        options: options_choice,
        column_families: cfs_choice,
        add_default_column_family: add_default,
        config: RocksDictConfig { raw_mode: o.raw_mode, prefix_extractors: registry },
    })
}

/// Once `close` has been asked for, no token reaches the resource, and
/// giving back any tokens, in any order, keeps it so: every later access
/// through the store, a cursor, a snapshot or a column family is refused,
/// whatever handles remain alive.
pub proof fn lemma_closed_refuses_all(v: HolderView, ids: Seq<u64>)
    requires
        v.closed,
    ensures
        forall|t: u64| !reaches(v, t),
        release_all(v, ids).closed,
        forall|t: u64| !reaches(release_all(v, ids), t),
    decreases ids.len(),
{
    if ids.len() > 0 {
        lemma_closed_refuses_all(after_release(v, ids[0]), ids.drop_first());
    }
}

/// `r` is what the engine's answer `outcome` to a read gives: absence is
/// `NotFound`, an engine error is kept, stored bytes are decoded.
pub open spec fn get_result(outcome: Result<Option<Vec<u8>>, String>, r: Result<Value, StoreError>, raw_mode: bool) -> bool {
    match outcome {
        Ok(None) => r == Err::<Value, StoreError>(StoreError::NotFound),
        Err(m) => r matches Err(StoreError::Engine(m2)) && m2@ == m@,
        Ok(Some(b)) => match value_decoding(b@, raw_mode) {
            Ok(v) => r matches Ok(x) && x@ == v,
            Err(e) => r == Err::<Value, StoreError>(StoreError::Codec(e)),
        },
    }
}

fn finish_read(outcome: Result<Option<Vec<u8>>, String>, raw_mode: bool) -> (r: Result<Value, StoreError>)
    ensures
        get_result(outcome, r, raw_mode),
{
    match outcome {
        Ok(None) => Err(StoreError::NotFound),
        Err(m) => Err(StoreError::Engine(m)),
        Ok(Some(b)) => match decode_value(b.as_slice(), raw_mode) {
            Ok(v) => Ok(v),
            Err(e) => Err(StoreError::Codec(e)),
        },
    }
}

/// A read view pinned to one point in time. The engine keeps the point;
/// the snapshot holds the token that keeps the store alive for it. Reads
/// through it are refused with `Closed` once the store is closed.
#[derive(Debug)]
pub struct Snapshot {
    raw_mode: bool,
    handle: Handle,
}

impl Snapshot {
    pub closed spec fn token(&self) -> u64 {
        self.handle@
    }

    pub closed spec fn raw_mode(&self) -> bool {
        self.raw_mode
    }

    /// The snapshot's token, to reach the engine through the store.
    pub fn handle(&self) -> (r: &Handle)
        ensures
            r@ == self.token(),
    {
        &self.handle
    }

    /// Gives up the snapshot, keeping its token to be given back to the store.
    pub fn into_handle(self) -> (r: Handle)
        ensures
            r@ == self.token(),
    {
        self.handle
    }

    /// The stored form of `key`, for a read through the snapshot.
    pub fn key_for<R>(&self, holder: &DbReferenceHolder<R>, key: &Value) -> (r: Result<Vec<u8>, StoreError>)
        requires
            holder@.wf(),
        ensures
            !reaches(holder@, self.token()) ==> r == Err::<Vec<u8>, StoreError>(StoreError::Closed),
            reaches(holder@, self.token()) ==> match r {
                Ok(k) => key_encoding(key@, self.raw_mode()) == Ok::<Seq<u8>, CodecError>(k@),
                Err(e) => exists|c: CodecError| e == StoreError::Codec(c)
                    && key_encoding(key@, self.raw_mode()) == Err::<Seq<u8>, CodecError>(c),
            },
    {
        if holder.get_for(&self.handle).is_none() {
            return Err(StoreError::Closed);
        }
        match encode_key(key, self.raw_mode) {
            Ok(k) => Ok(k),
            Err(e) => Err(StoreError::Codec(e)),
        }
    }

    /// The value read through the snapshot, from the engine's answer.
    pub fn finish_get(&self, outcome: Result<Option<Vec<u8>>, String>) -> (r: Result<Value, StoreError>)
        ensures
            get_result(outcome, r, self.raw_mode()),
    {
        finish_read(outcome, self.raw_mode)
    }
}

/// A column family reached by name: the token that keeps the store alive
/// while it is in use.
#[derive(Debug)]
pub struct ColumnFamilyHandle {
    pub name: String,
    pub handle: Handle,
}

/// A persistent dictionary over an engine resource `R`: it encodes keys and
/// values, refuses every operation once closed, and owns the resource
/// through a [`DbReferenceHolder`] that derived handles share.
pub struct Rdict<R> {
    holder: DbReferenceHolder<R>,
    raw_mode: bool,
    prefix_extractors: PrefixRegistry,
}

impl<R> Rdict<R> {
    pub closed spec fn wf(&self) -> bool {
        self.holder@.wf() && self.prefix_extractors.wf()
    }

    pub closed spec fn holder_view(&self) -> HolderView {
        self.holder@
    }

    pub closed spec fn raw_mode(&self) -> bool {
        self.raw_mode
    }

    pub closed spec fn prefix_extractors(&self) -> Map<Seq<char>, SliceTransformType> {
        self.prefix_extractors@
    }

    pub closed spec fn resource(&self) -> Option<R> {
        self.holder.resource()
    }

    /// True once the store has been closed.
    pub open spec fn is_closed(&self) -> bool {
        self.holder_view().closed
    }

    /// A store over an opened engine resource, with the record it was opened with.
    pub fn new(db: R, config: RocksDictConfig) -> (r: Rdict<R>)
        requires
            config.prefix_extractors.wf(),
        ensures
            r.wf(),
            !r.is_closed(),
            r.holder_view().live.len() == 0,
            r.holder_view().next_id == 0,
            r.raw_mode() == config.raw_mode,
            r.prefix_extractors() == config.prefix_extractors@,
            r.resource() == Some(db),
    {
        Rdict {
            holder: DbReferenceHolder::new(db),
            raw_mode: config.raw_mode,
            prefix_extractors: config.prefix_extractors,
        }
    }

    /// True when keys and values bypass the codec.
    pub fn is_raw_mode(&self) -> (r: bool)
        ensures
            r == self.raw_mode(),
    {
        self.raw_mode
    }

    /// The engine resource, unless the store is closed.
    pub fn db(&self) -> (r: Result<&R, StoreError>)
        requires
            self.wf(),
        ensures
            r is Err <==> self.is_closed(),
            r matches Err(e) ==> e == StoreError::Closed,
            r matches Ok(d) ==> self.resource() == Some(*d),
    {
        match self.holder.get() {
            Some(d) => Ok(d),
            None => Err(StoreError::Closed),
        }
    }

    /// The engine resource, reached for a derived handle: unless the store
    /// is closed or the handle was given back.
    pub fn db_for(&self, h: &Handle) -> (r: Result<&R, StoreError>)
        requires
            self.wf(),
        ensures
            r is Err <==> self.is_closed() || !self.holder_view().live.contains(h@),
            r matches Err(e) ==> e == StoreError::Closed,
            r matches Ok(d) ==> self.resource() == Some(*d),
    {
        match self.holder.get_for(h) {
            Some(d) => Ok(d),
            None => Err(StoreError::Closed),
        }
    }

    /// The stored form of `key`, for a read, a deletion or a seek.
    pub fn key_for(&self, key: &Value) -> (r: Result<Vec<u8>, StoreError>)
        requires
            self.wf(),
        ensures
            match r {
                Ok(k) => !self.is_closed() && key_encoding(key@, self.raw_mode()) == Ok::<Seq<u8>, CodecError>(k@),
                Err(StoreError::Closed) => self.is_closed(),
                Err(StoreError::Codec(e)) => !self.is_closed() && key_encoding(key@, self.raw_mode()) == Err::<Seq<u8>, CodecError>(e),
                Err(_) => false,
            },
    {
        if self.holder.get().is_none() {
            return Err(StoreError::Closed);
        }
        match encode_key(key, self.raw_mode) {
            Ok(k) => Ok(k),
            Err(e) => Err(StoreError::Codec(e)),
        }
    }

    /// The stored forms of a key and its value, for a write.
    pub fn entry_for(&self, key: &Value, value: &Value) -> (r: Result<(Vec<u8>, Vec<u8>), StoreError>)
        requires
            self.wf(),
        ensures
            match r {
                Ok((k, v)) => !self.is_closed() && key_encoding(key@, self.raw_mode()) == Ok::<Seq<u8>, CodecError>(k@)
                    && value_encoding(value@, self.raw_mode()) == Ok::<Seq<u8>, CodecError>(v@),
                Err(StoreError::Closed) => self.is_closed(),
                Err(StoreError::Codec(e)) => !self.is_closed() && (key_encoding(key@, self.raw_mode()) == Err::<Seq<u8>, CodecError>(e)
                    || key_encoding(key@, self.raw_mode()) is Ok && value_encoding(value@, self.raw_mode()) == Err::<Seq<u8>, CodecError>(e)),
                Err(_) => false,
            },
            !self.is_closed() && key_encoding(key@, self.raw_mode()) is Ok && value_encoding(value@, self.raw_mode()) is Ok ==> r is Ok,
    {
        let k = match self.key_for(key) {
            Ok(k) => k,
            Err(e) => return Err(e),
        };
        match encode_value(value, self.raw_mode) {
            Ok(v) => Ok((k, v)),
            Err(e) => Err(StoreError::Codec(e)),
        }
    }

    /// The stored forms of both ends of a key range.
    pub fn range_for(&self, begin: &Value, end: &Value) -> (r: Result<(Vec<u8>, Vec<u8>), StoreError>)
        requires
            self.wf(),
        ensures
            match r {
                Ok((a, b)) => !self.is_closed() && key_encoding(begin@, self.raw_mode()) == Ok::<Seq<u8>, CodecError>(a@)
                    && key_encoding(end@, self.raw_mode()) == Ok::<Seq<u8>, CodecError>(b@),
                Err(StoreError::Closed) => self.is_closed(),
                Err(StoreError::Codec(e)) => !self.is_closed() && (key_encoding(begin@, self.raw_mode()) == Err::<Seq<u8>, CodecError>(e)
                    || key_encoding(begin@, self.raw_mode()) is Ok && key_encoding(end@, self.raw_mode()) == Err::<Seq<u8>, CodecError>(e)),
                Err(_) => false,
            },
    {
        let a = match self.key_for(begin) {
            Ok(a) => a,
            Err(e) => return Err(e),
        };
        match encode_key(end, self.raw_mode) {
            Ok(b) => Ok((a, b)),
            Err(e) => Err(StoreError::Codec(e)),
        }
    }

    /// The stored form of an optional bound of a compaction; no bound stays none.
    pub fn bound_for(&self, key: Option<&Value>) -> (r: Result<Option<Vec<u8>>, StoreError>)
        requires
            self.wf(),
        ensures
            self.is_closed() <==> r == Err::<Option<Vec<u8>>, StoreError>(StoreError::Closed),
            !self.is_closed() ==> match key {
                None => r matches Ok(None),
                Some(k) => match r {
                    Ok(Some(b)) => key_encoding(k@, self.raw_mode()) == Ok::<Seq<u8>, CodecError>(b@),
                    Err(StoreError::Codec(e)) => key_encoding(k@, self.raw_mode()) == Err::<Seq<u8>, CodecError>(e),
                    _ => false,
                },
            },
    {
        if self.holder.get().is_none() {
            return Err(StoreError::Closed);
        }
        match key {
            None => Ok(None),
            Some(k) => match encode_key(k, self.raw_mode) {
                Ok(b) => Ok(Some(b)),
                Err(e) => Err(StoreError::Codec(e)),
            },
        }
    }

    /// A key that the engine reports (the first or last key of a live
    /// file), decoded; none stays none.
    pub fn decode_bound(&self, raw: Option<&[u8]>) -> (r: Result<Option<Value>, StoreError>)
        ensures
            match raw {
                None => r matches Ok(None),
                Some(b) => match value_decoding(b@, self.raw_mode()) {
                    Ok(v) => r matches Ok(Some(x)) && x@ == v,
                    Err(e) => r == Err::<Option<Value>, StoreError>(StoreError::Codec(e)),
                },
            },
    {
        match raw {
            None => Ok(None),
            Some(b) => match decode_value(b, self.raw_mode) {
                Ok(v) => Ok(Some(v)),
                Err(e) => Err(StoreError::Codec(e)),
            },
        }
    }

    /// The value read for a key, from the engine's answer: absence is
    /// `NotFound`, an engine error is kept, stored bytes are decoded.
    pub fn finish_get(&self, outcome: Result<Option<Vec<u8>>, String>) -> (r: Result<Value, StoreError>)
        ensures
            get_result(outcome, r, self.raw_mode()),
    {
        finish_read(outcome, self.raw_mode)
    }

    /// Whether a key is present, from the engine's answer to reading it.
    pub fn finish_contains(&self, outcome: Result<Option<Vec<u8>>, String>) -> (r: Result<bool, StoreError>)
        ensures
            match outcome {
                Ok(found) => r == Ok::<bool, StoreError>(found is Some),
                Err(m) => r matches Err(StoreError::Engine(m2)) && m2@ == m@,
            },
    {
        match outcome {
            Ok(found) => Ok(found.is_some()),
            Err(m) => Err(StoreError::Engine(m)),
        }
    }

    /// The stored forms of the keys of a multi-get, in order. A key that
    /// cannot be encoded fails the whole call.
    pub fn keys_for(&self, keys: &Vec<Value>) -> (r: Result<Vec<Vec<u8>>, StoreError>)
        requires
            self.wf(),
        ensures
            match r {
                Ok(out) => !self.is_closed() && out@.len() == keys@.len() && forall|i: int|
                    0 <= i < keys@.len() ==> key_encoding(keys@[i]@, self.raw_mode()) == Ok::<Seq<u8>, CodecError>(out@[i]@),
                Err(StoreError::Closed) => self.is_closed(),
                Err(StoreError::Codec(e)) => !self.is_closed() && exists|i: int|
                    0 <= i < keys@.len() && key_encoding(keys@[i]@, self.raw_mode()) == Err::<Seq<u8>, CodecError>(e),
                Err(_) => false,
            },
            !self.is_closed() && (forall|i: int| 0 <= i < keys@.len() ==> key_encoding(keys@[i]@, self.raw_mode()) is Ok) ==> r is Ok,
    {
        if self.holder.get().is_none() {
            return Err(StoreError::Closed);
        }
        match encode_keys(keys, self.raw_mode) {
            Ok(out) => Ok(out),
            Err(e) => Err(StoreError::Codec(e)),
        }
    }

    /// The values of a multi-get from the engine's per-key answers: one slot
    /// per key, in the order of the keys, absent keys as `None`.
    pub fn finish_multi_get(&self, results: &Vec<Result<Option<Vec<u8>>, String>>) -> (r: Result<
        Vec<Option<Value>>,
        StoreError,
    >)
        ensures
            match r {
                Ok(out) => out@.len() == results@.len() && forall|i: int|
                    0 <= i < results@.len() ==> slot_result(results@[i], out@[i], self.raw_mode()),
                Err(e) => exists|i: int|
                    0 <= i < results@.len() && slot_error(results@[i], e, self.raw_mode()) && forall|j: int|
                        0 <= j < i ==> slot_ok(results@[j], self.raw_mode()),
            },
            r is Ok <==> forall|i: int| 0 <= i < results@.len() ==> slot_ok(results@[i], self.raw_mode()),
    {
        collect_batch(results, self.raw_mode)
    }

    /// Refuses options, read options or a column family whose raw mode is not the store's.
    pub fn check_raw_mode(&self, raw_mode: bool) -> (r: Result<(), StoreError>)
        ensures
            r is Ok <==> raw_mode == self.raw_mode(),
            r matches Err(e) ==> e == StoreError::RawModeMismatch(self.raw_mode()),
    {
        if raw_mode != self.raw_mode {
            Err(StoreError::RawModeMismatch(self.raw_mode))
        } else {
            Ok(())
        }
    }

    /// Whether a write batch may be applied: the store is open and the
    /// batch was built in the store's raw mode.
    pub fn check_write(&self, batch: &WriteBatch) -> (r: Result<(), StoreError>)
        requires
            self.wf(),
        ensures
            self.is_closed() ==> r == Err::<(), StoreError>(StoreError::Closed),
            !self.is_closed() ==> (r is Ok <==> batch.raw_mode() == self.raw_mode()),
            !self.is_closed() && r is Err ==> r == Err::<(), StoreError>(StoreError::RawModeMismatch(self.raw_mode())),
    {
        if self.holder.get().is_none() {
            return Err(StoreError::Closed);
        }
        self.check_raw_mode(batch.is_raw_mode())
    }

    /// Records a new column family's prefix extractor, once the store is
    /// open and the options agree with it on raw mode.
    pub fn create_column_family(&mut self, name: String, options: &StoreOptions) -> (r: Result<(), StoreError>)
        requires
            old(self).wf(),
        ensures
            final(self).wf(),
            final(self).holder_view() == old(self).holder_view(),
            final(self).raw_mode() == old(self).raw_mode(),
            final(self).resource() == old(self).resource(),
            old(self).is_closed() ==> r == Err::<(), StoreError>(StoreError::Closed),
            !old(self).is_closed() && options.raw_mode != old(self).raw_mode() ==> r == Err::<(), StoreError>(StoreError::RawModeMismatch(old(self).raw_mode())),
            r is Ok <==> options.raw_mode == old(self).raw_mode() && !old(self).is_closed(),
            final(self).prefix_extractors() == (match (r, options.prefix_extractor) {
                (Ok(_), Some(t)) => old(self).prefix_extractors().insert(name@, t),
                _ => old(self).prefix_extractors(),
            }),
    {
        if self.holder.get().is_none() {
            return Err(StoreError::Closed);
        }
        if options.raw_mode != self.raw_mode {
            return Err(StoreError::RawModeMismatch(self.raw_mode));
        }
        match options.prefix_extractor {
            Some(t) => self.prefix_extractors.insert(name, t),
            None => {},
        }
        Ok(())
    }

    /// The record to keep beside the store.
    pub fn dump_config(&self) -> (r: RocksDictConfig)
        requires
            self.wf(),
        ensures
            r.raw_mode == self.raw_mode(),
            r.prefix_extractors@ == self.prefix_extractors(),
            r.prefix_extractors.wf(),
    {
        RocksDictConfig { raw_mode: self.raw_mode, prefix_extractors: self.prefix_extractors.clone() }
    }

    /// A token for a derived handle (a cursor, a snapshot, a column family)
    /// that keeps the resource alive until it is given back.
    pub fn acquire(&mut self) -> (r: Result<Handle, StoreError>)
        requires
            old(self).wf(),
        ensures
            final(self).wf(),
            final(self).raw_mode() == old(self).raw_mode(),
            final(self).prefix_extractors() == old(self).prefix_extractors(),
            final(self).resource() == old(self).resource(),
            old(self).is_closed() ==> r == Err::<Handle, StoreError>(StoreError::Closed) && final(self).holder_view() == old(self).holder_view(),
            r matches Ok(h) ==> !old(self).is_closed() && final(self).holder_view().live == old(self).holder_view().live.push(h@)
                && !old(self).holder_view().live.contains(h@) && !final(self).is_closed(),
            !old(self).is_closed() && old(self).holder_view().next_id < u64::MAX ==> r is Ok,
            !old(self).is_closed() && old(self).holder_view().next_id == u64::MAX ==> r == Err::<Handle, StoreError>(StoreError::HandlesExhausted),
            r is Err ==> final(self).holder_view() == old(self).holder_view(),
    {
        if self.holder.get().is_none() {
            return Err(StoreError::Closed);
        }
        match self.holder.acquire() {
            Some(h) => Ok(h),
            None => Err(StoreError::HandlesExhausted),
        }
    }

    /// The holder of the engine resource, which cursors consult on each operation.
    pub fn holder(&self) -> (r: &DbReferenceHolder<R>)
        requires
            self.wf(),
        ensures
            r@ == self.holder_view(),
            r@.wf(),
    {
        &self.holder
    }

    /// A cursor over the store, in its raw mode, holding the token that
    /// keeps the store alive for it. A closed store is left as it was.
    pub fn iter(&mut self) -> (r: Result<RdictIter, StoreError>)
        requires
            old(self).wf(),
        ensures
            final(self).wf(),
            final(self).prefix_extractors() == old(self).prefix_extractors(),
            final(self).raw_mode() == old(self).raw_mode(),
            final(self).resource() == old(self).resource(),
            final(self).holder_view().closed == old(self).holder_view().closed,
            old(self).is_closed() ==> r == Err::<RdictIter, StoreError>(StoreError::Closed)
                && final(self).holder_view() == old(self).holder_view(),
            r matches Ok(it) ==> {
                &&& it.position() == Position::Unpositioned
                &&& it.raw_mode() == old(self).raw_mode()
                &&& it.error() is None
                &&& !final(self).is_closed()
                &&& final(self).holder_view().live == old(self).holder_view().live.push(it.token())
                &&& reaches(final(self).holder_view(), it.token())
            },
            !old(self).is_closed() && old(self).holder_view().next_id < u64::MAX ==> r is Ok,
    {
        match self.acquire() {
            Ok(h) => {
                let it = RdictIter::new(h, self.raw_mode);
                assert(self.holder_view().live[self.holder_view().live.len() - 1] == it.token());
                Ok(it)
            },
            Err(e) => Err(e),
        }
    }

    /// A snapshot of the store, holding the token that keeps the store
    /// alive for it. A closed store is left as it was.
    pub fn snapshot(&mut self) -> (r: Result<Snapshot, StoreError>)
        requires
            old(self).wf(),
        ensures
            final(self).wf(),
            final(self).prefix_extractors() == old(self).prefix_extractors(),
            final(self).raw_mode() == old(self).raw_mode(),
            final(self).resource() == old(self).resource(),
            final(self).holder_view().closed == old(self).holder_view().closed,
            old(self).is_closed() ==> r == Err::<Snapshot, StoreError>(StoreError::Closed)
                && final(self).holder_view() == old(self).holder_view(),
            r matches Ok(snap) ==> {
                &&& snap.raw_mode() == old(self).raw_mode()
                &&& final(self).holder_view().live == old(self).holder_view().live.push(snap.token())
                &&& reaches(final(self).holder_view(), snap.token())
            },
            !old(self).is_closed() && old(self).holder_view().next_id < u64::MAX ==> r is Ok,
    {
        match self.acquire() {
            Ok(handle) => {
                let snap = Snapshot { raw_mode: self.raw_mode, handle };
                assert(self.holder_view().live[self.holder_view().live.len() - 1] == snap.token());
                Ok(snap)
            },
            Err(e) => Err(e),
        }
    }

    /// Gives a cursor's token back, as [`Rdict::release`] does.
    pub fn release_cursor(&mut self, it: RdictIter) -> (r: Option<R>)
        requires
            old(self).wf(),
        ensures
            final(self).wf(),
            final(self).prefix_extractors() == old(self).prefix_extractors(),
            final(self).is_closed() == old(self).is_closed(),
            final(self).raw_mode() == old(self).raw_mode(),
            forall|x: u64| final(self).holder_view().live.contains(x) <==> old(self).holder_view().live.contains(x) && x != it.token(),
            r is Some <==> !old(self).holder_view().released && final(self).holder_view().teardown_due(),
            r is Some ==> r == old(self).resource() && final(self).holder_view().teardowns == 1,
            r is None ==> final(self).resource() == old(self).resource(),
    {
        let h = it.into_handle();
        self.release(h)
    }

    /// A column family by name, if the engine has it (`exists`), with the
    /// token that keeps the store alive for it.
    pub fn get_column_family_handle(&mut self, name: String, exists: bool) -> (r: Result<ColumnFamilyHandle, StoreError>)
        requires
            old(self).wf(),
        ensures
            final(self).wf(),
            final(self).prefix_extractors() == old(self).prefix_extractors(),
            final(self).raw_mode() == old(self).raw_mode(),
            final(self).resource() == old(self).resource(),
            old(self).is_closed() ==> r == Err::<ColumnFamilyHandle, StoreError>(StoreError::Closed),
            !old(self).is_closed() && !exists ==> r == Err::<ColumnFamilyHandle, StoreError>(StoreError::ColumnFamilyNotFound(name)),
            r matches Ok(cf) ==> exists && cf.name == name && final(self).holder_view().live == old(self).holder_view().live.push(cf.handle@),
            !old(self).is_closed() && exists && old(self).holder_view().next_id < u64::MAX ==> r is Ok,
    {
        if self.holder.get().is_none() {
            return Err(StoreError::Closed);
        }
        if !exists {
            return Err(StoreError::ColumnFamilyNotFound(name));
        }
        match self.acquire() {
            Ok(handle) => Ok(ColumnFamilyHandle { name, handle }),
            Err(e) => Err(e),
        }
    }

    /// Gives a derived handle's token back. When the store was closed and
    /// this was the last one, the resource comes back, once, to be torn down.
    pub fn release(&mut self, h: Handle) -> (r: Option<R>)
        requires
            old(self).wf(),
        ensures
            final(self).wf(),
            final(self).prefix_extractors() == old(self).prefix_extractors(),
            final(self).is_closed() == old(self).is_closed(),
            final(self).raw_mode() == old(self).raw_mode(),
            forall|x: u64| final(self).holder_view().live.contains(x) <==> old(self).holder_view().live.contains(x) && x != h@,
            r is Some <==> !old(self).holder_view().released && final(self).holder_view().teardown_due(),
            r is Some ==> r == old(self).resource() && final(self).holder_view().teardowns == 1,
            r is None ==> final(self).holder_view().teardowns == old(self).holder_view().teardowns,
            r is None ==> final(self).resource() == old(self).resource(),
    {
        self.holder.release(h)
    }

    /// Closes the store: every later operation on it or on a handle derived
    /// from it fails with `Closed`. Closing twice fails with `Closed` too.
    /// The resource comes back now, once, if no derived handle is alive.
    pub fn close(&mut self) -> (r: Result<Option<R>, StoreError>)
        requires
            old(self).wf(),
        ensures
            final(self).wf(),
            final(self).is_closed(),
            final(self).raw_mode() == old(self).raw_mode(),
            old(self).is_closed() <==> r is Err,
            r matches Err(e) ==> e == StoreError::Closed && final(self).holder_view() == old(self).holder_view(),
            r matches Ok(d) ==> (d is Some <==> old(self).holder_view().live.len() == 0),
            r matches Ok(Some(d)) ==> old(self).resource() == Some(d) && final(self).holder_view().teardowns == 1,
            r matches Ok(None) ==> final(self).resource() == old(self).resource(),
            r is Err ==> final(self).resource() == old(self).resource(),
            final(self).prefix_extractors() == old(self).prefix_extractors(),
    {
        if self.holder.get().is_none() {
            return Err(StoreError::Closed);
        }
        Ok(self.holder.close())
    }
}

} // verus!
