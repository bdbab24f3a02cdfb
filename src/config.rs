use vstd::prelude::*;

verus! {

/// How keys are cut to a prefix for prefix seeks and bloom filters.
#[derive(Clone, Copy, Debug, PartialEq, Eq, Structural)]
pub enum SliceTransformType {
    /// The first `n` bytes.
    Fixed(usize),
    /// At most the first `n` bytes.
    MaxLen(usize),
    /// The whole key.
    NOOP,
}

/// The longest prefix that a `MaxLen` extractor can keep.
pub const MAX_PREFIX_LEN: usize = 128;

impl SliceTransformType {
    /// True when the engine can be given this extractor: a `MaxLen` one
    /// keeps from 1 to [`MAX_PREFIX_LEN`] bytes.
    pub fn is_supported(&self) -> (r: bool)
        ensures
            r == match *self {
                SliceTransformType::MaxLen(n) => 1 <= n <= MAX_PREFIX_LEN,
                _ => true,
            },
    {
        match self {
            SliceTransformType::MaxLen(n) => 1 <= *n && *n <= MAX_PREFIX_LEN,
            _ => true,
        }
    }
}

/// The prefix that a `MaxLen(len)` extractor keeps of `key`: at most its
/// first `len` bytes.
pub fn max_len_prefix(key: &[u8], len: usize) -> (r: &[u8])
    ensures
        r@ == (if key@.len() > len {
            key@.subrange(0, len as int)
        } else {
            key@
        }),
{
    if key.len() > len {
        vstd::slice::slice_subrange(key, 0, len)
    } else {
        key
    }
}

/// The part of a store's or column family's options that the store itself reads.
#[derive(Clone, Copy, Debug, PartialEq, Eq, Structural)]
pub struct StoreOptions {
    /// Keys and values are stored as given bytes, without the codec.
    pub raw_mode: bool,
    pub prefix_extractor: Option<SliceTransformType>,
}

impl StoreOptions {
    /// Options with the codec in use and no prefix extractor.
    pub fn new(raw_mode: bool) -> (r: StoreOptions)
        ensures
            r.raw_mode == raw_mode,
            r.prefix_extractor is None,
    {
        StoreOptions { raw_mode, prefix_extractor: None }
    }
}

/// The prefix extractor of each column family, by name. Names are unique.
#[derive(Debug)]
pub struct PrefixRegistry {
    entries: Vec<(String, SliceTransformType)>,
}

pub open spec fn names_unique(entries: Seq<(String, SliceTransformType)>) -> bool {
    forall|i: int, j: int|
        0 <= i < j < entries.len() ==> entries[i].0@ != entries[j].0@
}

pub open spec fn has_name(entries: Seq<(String, SliceTransformType)>, k: Seq<char>) -> bool {
    exists|i: int| 0 <= i < entries.len() && entries[i].0@ == k
}

pub open spec fn entries_map(entries: Seq<(String, SliceTransformType)>) -> Map<Seq<char>, SliceTransformType> {
    Map::new(
        |k: Seq<char>| has_name(entries, k),
        |k: Seq<char>| entries[choose|i: int| 0 <= i < entries.len() && entries[i].0@ == k].1,
    )
}

impl View for PrefixRegistry {
    type V = Map<Seq<char>, SliceTransformType>;

    closed spec fn view(&self) -> Map<Seq<char>, SliceTransformType> {
        entries_map(self.entries@)
    }
}

impl Clone for PrefixRegistry {
    fn clone(&self) -> (r: PrefixRegistry)
        ensures
            r@ == self@,
            self.wf() ==> r.wf(),
    {
        let mut entries: Vec<(String, SliceTransformType)> = Vec::new();
        let mut i: usize = 0;
        while i < self.entries.len()
            invariant
                i <= self.entries@.len(),
                entries@ == self.entries@.subrange(0, i as int),
            decreases self.entries@.len() - i,
        {
            entries.push((self.entries[i].0.clone(), self.entries[i].1));
            i = i + 1;
            assert(entries@ =~= self.entries@.subrange(0, i as int));
        }
        assert(entries@ =~= self.entries@);
        PrefixRegistry { entries }
    }
}

impl PrefixRegistry {
    pub closed spec fn wf(&self) -> bool {
        names_unique(self.entries@)
    }

    /// A registry with no entry.
    pub fn new() -> (r: PrefixRegistry)
        ensures
            r.wf(),
            r@ == Map::<Seq<char>, SliceTransformType>::empty(),
    {
        let r = PrefixRegistry { entries: Vec::new() };
        assert(r@ =~= Map::<Seq<char>, SliceTransformType>::empty());
        r
    }

    /// Records `t` for `name`, replacing what was recorded for it.
    pub fn insert(&mut self, name: String, t: SliceTransformType)
        requires
            old(self).wf(),
        ensures
            final(self).wf(),
            final(self)@ == old(self)@.insert(name@, t),
    {
        let ghost before = self.entries@;
        let mut i: usize = 0;
        while i < self.entries.len()
            invariant
                i <= self.entries@.len(),
                self.entries@ == before,
                before == old(self).entries@,
                names_unique(before),
                forall|j: int| 0 <= j < i ==> self.entries@[j].0@ != name@,
            decreases self.entries@.len() - i,
        {
            if self.entries[i].0 == name {
                self.entries.set(i, (name, t));
                proof {
                    let after = self.entries@;
                    assert(after[i as int].0@ == name@);
                    assert(before[i as int].0@ == name@);
                    assert forall|a: int, b: int| 0 <= a < b < after.len() implies after[a].0@ != after[b].0@ by {
                        assert(after[a].0@ == before[a].0@ && after[b].0@ == before[b].0@);
                    }
                    assert forall|k: Seq<char>| has_name(after, k) <==> has_name(before, k) by {
                        if has_name(after, k) {
                            let m = choose|m: int| 0 <= m < after.len() && after[m].0@ == k;
                            assert(before[m].0@ == k);
                        }
                        if has_name(before, k) {
                            let m = choose|m: int| 0 <= m < before.len() && before[m].0@ == k;
                            assert(after[m].0@ == k);
                        }
                    }
                    assert(has_name(after, name@));
                    assert forall|k: Seq<char>| has_name(after, k) implies entries_map(after)[k]
                        == old(self)@.insert(name@, t)[k] by {
                        let m = choose|m: int| 0 <= m < after.len() && after[m].0@ == k;
                        let m0 = choose|m: int| 0 <= m < before.len() && before[m].0@ == k;
                        assert(before[m].0@ == k);
                        if k == name@ {
                            assert(m == i as int);
                        } else {
                            assert(m == m0);
                        }
                    }
                    assert(entries_map(after) =~= old(self)@.insert(name@, t));
                }
                return;
            }
            i = i + 1;
        }
        self.entries.push((name, t));
        proof {
            let after = self.entries@;
            let n = before.len() as int;
            assert forall|k: Seq<char>| has_name(after, k) <==> has_name(before, k) || k == name@ by {
                if has_name(before, k) {
                    let m = choose|m: int| 0 <= m < before.len() && before[m].0@ == k;
                    assert(after[m].0@ == k);
                }
                if k == name@ {
                    assert(after[n].0@ == k);
                }
            }
            assert forall|k: Seq<char>| has_name(after, k) implies entries_map(after)[k] == old(
                self,
            )@.insert(name@, t)[k] by {
                let m = choose|m: int| 0 <= m < after.len() && after[m].0@ == k;
                if k == name@ {
                    assert(m == n);
                } else {
                    let m0 = choose|m: int| 0 <= m < before.len() && before[m].0@ == k;
                    assert(after[m0].0@ == k);
                    assert(m == m0);
                }
            }
            assert(entries_map(after) =~= old(self)@.insert(name@, t));
        }
    }

    /// The recorded pairs, each name once.
    pub fn entries(&self) -> (r: &Vec<(String, SliceTransformType)>)
        ensures
            entries_map(r@) == self@,
            self.wf() ==> names_unique(r@),
    {
        &self.entries
    }
}

/// A small record kept beside a store: whether it is in raw mode, and the
/// prefix extractor of each column family.
#[derive(Clone, Debug)]
pub struct RocksDictConfig {
    pub raw_mode: bool,
    pub prefix_extractors: PrefixRegistry,
}

} // verus!
