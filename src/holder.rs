use vstd::prelude::*;

verus! {

/// A token that a derived handle (a cursor, a snapshot, a column family)
/// holds to keep the shared resource alive. It can be given back once.
#[derive(Debug)]
pub struct Handle {
    id: u64,
}

impl View for Handle {
    type V = u64;

    closed spec fn view(&self) -> u64 {
        self.id
    }
}

/// The single owner of a native resource that many handles share.
///
/// The resource is torn down once: when `close` has been asked for and no
/// derived handle is left. Until then it stays alive, but once `close` has
/// been asked for, nothing reaches it through the holder or any handle.
/// A holder that is never closed keeps the resource until it is dropped.
pub struct DbReferenceHolder<R> {
    inner: Option<R>,
    closed: bool,
    live: Vec<u64>,
    next_id: u64,
    teardowns: u64,
}

/// What the holder's state stands for.
pub struct HolderView {
    /// `close` has been asked for.
    pub closed: bool,
    /// The tokens of the derived handles still alive.
    pub live: Seq<u64>,
    /// The token the next derived handle gets.
    pub next_id: u64,
    /// The resource has been handed out for teardown.
    pub released: bool,
    /// How many times the resource has been handed out for teardown.
    pub teardowns: nat,
}

impl<R> View for DbReferenceHolder<R> {
    type V = HolderView;

    closed spec fn view(&self) -> HolderView {
        HolderView {
            closed: self.closed,
            live: self.live@,
            next_id: self.next_id,
            released: self.inner is None,
            teardowns: self.teardowns as nat,
        }
    }
}

impl HolderView {
    /// The holder's invariant: the resource goes at most once, only after
    /// `close` with no handle left, and tokens are unique.
    pub open spec fn wf(self) -> bool {
        &&& self.teardowns <= 1
        &&& self.released <==> self.teardowns == 1
        &&& self.released ==> self.closed && self.live.len() == 0
        &&& self.closed && self.live.len() == 0 ==> self.released
        &&& forall|i: int| 0 <= i < self.live.len() ==> self.live[i] < self.next_id
        &&& forall|i: int, j: int|
            0 <= i < j < self.live.len() ==> self.live[i] != self.live[j]
    }

    /// No derived handle is alive and close was asked for: teardown is due.
    pub open spec fn teardown_due(self) -> bool {
        self.closed && self.live.len() == 0
    }
}

/// What giving back the token `id` leaves: the token is no longer alive,
/// and when `close` was asked for and no token is left, the resource goes.
pub open spec fn after_release(v: HolderView, id: u64) -> HolderView {
    let live = v.live.remove_value(id);
    let due = !v.released && v.closed && live.len() == 0;
    HolderView {
        live,
        released: v.released || due,
        teardowns: if due { v.teardowns + 1 } else { v.teardowns },
        ..v
    }
}

/// Giving back the token `id` hands the resource out.
pub open spec fn release_hands_out(v: HolderView, id: u64) -> bool {
    !v.released && v.closed && v.live.remove_value(id).len() == 0
}

/// Giving back the tokens `ids`, one after another.
pub open spec fn release_all(v: HolderView, ids: Seq<u64>) -> HolderView
    decreases ids.len(),
{
    if ids.len() == 0 {
        v
    } else {
        release_all(after_release(v, ids[0]), ids.drop_first())
    }
}

/// Removing a token that occurs once removes exactly that token.
proof fn lemma_remove_unique(s: Seq<u64>, id: u64)
    requires
        s.no_duplicates(),
    ensures
        s.remove_value(id).no_duplicates(),
        forall|x: u64| s.remove_value(id).contains(x) <==> s.contains(x) && x != id,
        s.remove_value(id).len() == (if s.contains(id) { s.len() - 1 } else { s.len() as int }),
        forall|x: u64| #[trigger] s.remove_value(id).contains(x) ==> exists|i: int| 0 <= i < s.len() && s[i] == x,
{
    s.index_of_first_ensures(id);
    let t = s.remove_value(id);
    match s.index_of_first(id) {
        Some(i) => {
            assert(t == s.remove(i));
            assert forall|x: u64| t.contains(x) <==> s.contains(x) && x != id by {
                if t.contains(x) {
                    let k = choose|k: int| 0 <= k < t.len() && t[k] == x;
                    if k < i {
                        assert(s[k] == x);
                    } else {
                        assert(s[k + 1] == x);
                    }
                }
                if s.contains(x) && x != id {
                    let k = choose|k: int| 0 <= k < s.len() && s[k] == x;
                    assert(k != i);
                    if k < i {
                        assert(t[k] == x);
                    } else {
                        assert(t[k - 1] == x);
                    }
                }
            }
            assert forall|a: int, b: int| 0 <= a < t.len() && 0 <= b < t.len() && a != b implies t[a] != t[b] by {
                let a2 = if a < i { a } else { a + 1 };
                let b2 = if b < i { b } else { b + 1 };
                assert(t[a] == s[a2] && t[b] == s[b2]);
            }
        },
        None => {},
    }
}

/// Giving back every live token, in any order, leaves none alive, and the
/// resource is handed out exactly once on the way when `close` was asked
/// for: the teardown count ends at one. Without `close` nothing is handed
/// out, and the next `close` hands the resource out at once.
pub proof fn lemma_release_all(v: HolderView, ids: Seq<u64>)
    requires
        v.wf(),
        ids.no_duplicates(),
        ids.len() == v.live.len(),
        forall|x: u64| ids.contains(x) ==> v.live.contains(x),
    ensures
        release_all(v, ids).wf(),
        release_all(v, ids).live.len() == 0,
        release_all(v, ids).closed == v.closed,
        release_all(v, ids).teardowns == (if v.closed { 1nat } else { 0nat }),
        release_all(v, ids).released == v.closed,
    decreases ids.len(),
{
    let live_unique = v.live.no_duplicates();
    assert(live_unique);
    if ids.len() > 0 {
        let id = ids[0];
        assert(ids.contains(id));
        let w = after_release(v, id);
        lemma_remove_unique(v.live, id);
        let rest = ids.drop_first();
        assert forall|x: u64| rest.contains(x) implies w.live.contains(x) by {
            let k = choose|k: int| 0 <= k < rest.len() && rest[k] == x;
            assert(ids[k + 1] == x);
            assert(ids.contains(x));
            assert(x != id);
        }
        assert(rest.no_duplicates()) by {
            assert forall|a: int, b: int| 0 <= a < rest.len() && 0 <= b < rest.len() && a != b implies rest[a] != rest[b] by {
                assert(rest[a] == ids[a + 1] && rest[b] == ids[b + 1]);
            }
        }
        assert forall|i: int| 0 <= i < w.live.len() implies w.live[i] < w.next_id by {
            assert(w.live.contains(w.live[i]));
        }
        lemma_release_all(w, rest);
    } else {
        assert(v.closed ==> v.released);
    }
}

impl<R> DbReferenceHolder<R> {
    /// The resource that the holder owns, if `close` has not been asked for.
    pub closed spec fn resource(&self) -> Option<R> {
        self.inner
    }

    /// Takes ownership of the resource.
    pub fn new(db: R) -> (r: Self)
        ensures
            r@.wf(),
            !r@.closed,
            r@.live.len() == 0,
            !r@.released,
            r@.teardowns == 0,
            r@.next_id == 0,
            r.resource() == Some(db),
    {
        DbReferenceHolder { inner: Some(db), closed: false, live: Vec::new(), next_id: 0, teardowns: 0 }
    }

    /// The resource, unless `close` has been asked for.
    pub fn get(&self) -> (r: Option<&R>)
        requires
            self@.wf(),
        ensures
            r is Some <==> !self@.closed,
            r matches Some(d) ==> self.resource() == Some(*d),
    {
        if self.closed {
            None
        } else {
            self.inner.as_ref()
        }
    }

    /// True when `h` is a handle of this holder that has not been given back.
    pub fn is_live(&self, h: &Handle) -> (r: bool)
        ensures
            r == self@.live.contains(h@),
    {
        let mut i: usize = 0;
        while i < self.live.len()
            invariant
                i <= self.live@.len(),
                forall|j: int| 0 <= j < i ==> self.live@[j] != h@,
            decreases self.live@.len() - i,
        {
            if self.live[i] == h.id {
                return true;
            }
            i = i + 1;
        }
        false
    }

    /// The resource, reached through a derived handle: only while `close`
    /// has not been asked for and the handle is alive.
    pub fn get_for(&self, h: &Handle) -> (r: Option<&R>)
        requires
            self@.wf(),
        ensures
            r is Some <==> !self@.closed && self@.live.contains(h@),
            r matches Some(d) ==> self.resource() == Some(*d),
    {
        if self.closed || !self.is_live(h) {
            None
        } else {
            self.inner.as_ref()
        }
    }

    /// A new derived handle. None once `close` has been asked for, or when
    /// all 2^64 - 1 tokens have been handed out; the holder is then unchanged.
    pub fn acquire(&mut self) -> (r: Option<Handle>)
        requires
            old(self)@.wf(),
        ensures
            final(self)@.wf(),
            r is None <==> old(self)@.closed || old(self)@.next_id == u64::MAX,
            r is None ==> final(self)@ == old(self)@ && final(self).resource() == old(self).resource(),
            r matches Some(h) ==> {
                &&& !old(self)@.live.contains(h@)
                &&& final(self)@ == (HolderView {
                    live: old(self)@.live.push(h@),
                    next_id: (old(self)@.next_id + 1) as u64,
                    ..old(self)@
                })
                &&& final(self).resource() == old(self).resource()
            },
    {
        if self.closed || self.next_id == u64::MAX {
            return None;
        }
        let id = self.next_id;
        self.live.push(id);
        self.next_id = id + 1;
        Some(Handle { id })
    }

    /// Hands out the resource when teardown is due and it has not gone yet.
    fn finish(&mut self) -> (r: Option<R>)
        requires
            old(self).teardowns <= 1,
            old(self).inner is None <==> old(self).teardowns == 1,
            old(self).inner is None ==> old(self).closed && old(self).live@.len() == 0,
        ensures
            final(self).closed == old(self).closed,
            final(self).live@ == old(self).live@,
            final(self).next_id == old(self).next_id,
            if old(self).closed && old(self).live@.len() == 0 && old(self).inner is Some {
                &&& r == old(self).inner
                &&& final(self).inner is None
                &&& final(self).teardowns == old(self).teardowns + 1
            } else {
                &&& r is None
                &&& final(self).inner == old(self).inner
                &&& final(self).teardowns == old(self).teardowns
            },
    {
        if self.closed && self.live.len() == 0 && self.inner.is_some() {
            self.teardowns = self.teardowns + 1;
            self.inner.take()
        } else {
            None
        }
    }

    /// Gives a derived handle back. When `close` has been asked for and this
    /// was the last handle, the resource is handed out, once, for the caller
    /// to stop its background work and drop.
    pub fn release(&mut self, h: Handle) -> (r: Option<R>)
        requires
            old(self)@.wf(),
        ensures
            final(self)@.wf(),
            final(self)@.closed == old(self)@.closed,
            final(self)@.next_id == old(self)@.next_id,
            forall|x: u64| final(self)@.live.contains(x) <==> old(self)@.live.contains(x) && x != h@,
            r is Some <==> !old(self)@.released && final(self)@.teardown_due(),
            r is Some ==> r == old(self).resource() && final(self)@.teardowns == old(self)@.teardowns + 1,
            r is None ==> final(self)@.teardowns == old(self)@.teardowns,
            r is None ==> final(self).resource() == old(self).resource(),
            final(self)@ == after_release(old(self)@, h@),
            r is Some <==> release_hands_out(old(self)@, h@),
    {
        let mut i: usize = 0;
        while i < self.live.len()
            invariant
                i <= self.live@.len(),
                forall|j: int| 0 <= j < i ==> self.live@[j] != h@,
            ensures
                i < self.live@.len() ==> self.live@[i as int] == h@,
                i <= self.live@.len(),
                forall|j: int| 0 <= j < i ==> self.live@[j] != h@,
            decreases self.live@.len() - i,
        {
            if self.live[i] == h.id {
                break;
            }
            i = i + 1;
        }
        let ghost before = self.live@;
        proof {
            before.index_of_first_ensures(h@);
            assert(self@.live.no_duplicates());
        }
        if i < self.live.len() {
            self.live.remove(i);
            proof {
                let j = before.index_of_first(h@).unwrap();
                assert(before[j] == h@ && before[i as int] == h@);
                assert(j == i);
                assert(self.live@ == before.remove_value(h@));
            }
            assert forall|x: u64| self.live@.contains(x) <==> before.contains(x) && x != h@ by {
                if before.contains(x) && x != h@ {
                    let k = choose|k: int| 0 <= k < before.len() && before[k] == x;
                    assert(k != i);
                    if k < i {
                        assert(self.live@[k] == x);
                    } else {
                        assert(self.live@[k - 1] == x);
                    }
                }
                if self.live@.contains(x) {
                    let k = choose|k: int| 0 <= k < self.live@.len() && self.live@[k] == x;
                    if k < i {
                        assert(before[k] == x);
                    } else {
                        assert(before[k + 1] == x);
                    }
                }
            }
            assert forall|a: int, b: int|
                0 <= a < b < self.live@.len() implies self.live@[a] != self.live@[b] by {
                let a2 = if a < i { a } else { a + 1 };
                let b2 = if b < i { b } else { b + 1 };
                assert(self.live@[a] == before[a2] && self.live@[b] == before[b2]);
            }
            assert forall|a: int| 0 <= a < self.live@.len() implies self.live@[a] < self.next_id by {
                let a2 = if a < i { a } else { a + 1 };
                assert(self.live@[a] == before[a2]);
            }
        } else {
            assert(!before.contains(h@));
            assert(self.live@ == before.remove_value(h@));
        }
        self.finish()
    }

    /// Asks for the resource to be closed; later calls do nothing. From now
    /// on nothing reaches the resource. If no derived handle is alive it is
    /// handed out now, once, for the caller to stop its background work and
    /// drop; otherwise the last `release` hands it out.
    pub fn close(&mut self) -> (r: Option<R>)
        requires
            old(self)@.wf(),
        ensures
            final(self)@.wf(),
            final(self)@.closed,
            final(self)@.live == old(self)@.live,
            final(self)@.next_id == old(self)@.next_id,
            old(self)@.closed ==> r is None && final(self)@ == old(self)@,
            r is Some <==> !old(self)@.closed && old(self)@.live.len() == 0,
            r is Some ==> r == old(self).resource() && final(self)@.teardowns == old(self)@.teardowns + 1,
            r is None ==> final(self)@.teardowns == old(self)@.teardowns,
            r is None ==> final(self).resource() == old(self).resource(),
    {
        if self.closed {
            return None;
        }
        self.closed = true;
        let r = self.finish();
        assert(self.live@ == old(self).live@);
        assert forall|i: int| 0 <= i < self@.live.len() implies self@.live[i] < self@.next_id by {
            assert(old(self)@.live[i] == self@.live[i]);
            assert(old(self)@.next_id == self@.next_id);
        }
        assert forall|i: int, j: int| 0 <= i < j < self@.live.len() implies self@.live[i]
            != self@.live[j] by {
            assert(old(self)@.live[i] == self@.live[i]);
            assert(old(self)@.live[j] == self@.live[j]);
        }
        r
    }
}

} // verus!
