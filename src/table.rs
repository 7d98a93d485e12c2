//! The table of requests that wait for an answer: request id to the
//! caller's completion handle.
use vstd::prelude::*;

verus! {

/// Pending requests keyed by id, and the counter that hands out ids.
pub struct CorrelationTable<T> {
    next_id: u64,
    entries: Vec<(u64, T)>,
    pending: Ghost<Map<u64, T>>,
}

impl<T> CorrelationTable<T> {
    /// The requests that wait for an answer.
    pub closed spec fn view(&self) -> Map<u64, T> {
        self.pending@
    }

    /// The id that the next allocation hands out.
    pub closed spec fn next(&self) -> u64 {
        self.next_id
    }

    /// Ids start at 1, each pending id was handed out already, and the
    /// entries hold each pending request once.
    pub closed spec fn wf(&self) -> bool {
        &&& self.next_id >= 1
        &&& forall|i: int, j: int|
            0 <= i < j < self.entries@.len() ==> #[trigger] self.entries@[i].0
                != #[trigger] self.entries@[j].0
        &&& forall|i: int|
            0 <= i < self.entries@.len() ==> self.pending@.contains_key(
                #[trigger] self.entries@[i].0,
            ) && self.pending@[self.entries@[i].0] == self.entries@[i].1
        &&& forall|k: u64|
            #[trigger] self.pending@.contains_key(k) ==> exists|i: int|
                0 <= i < self.entries@.len() && #[trigger] self.entries@[i].0 == k
        &&& forall|k: u64| #[trigger] self.pending@.contains_key(k) ==> 1 <= k < self.next_id
    }

    /// An empty table whose first id is 1.
    pub fn new() -> (r: Self)
        ensures
            r.wf(),
            r@ == Map::<u64, T>::empty(),
            r.next() == 1,
    {
        CorrelationTable { next_id: 1, entries: Vec::new(), pending: Ghost(Map::empty()) }
    }

    /// Hands out the next id. Ids are never reused; a 64-bit counter is not
    /// expected to run out.
    pub fn allocate_id(&mut self) -> (r: u64)
        requires
            old(self).wf(),
            old(self).next() < u64::MAX,
        ensures
            final(self).wf(),
            r == old(self).next(),
            r >= 1,
            !final(self)@.contains_key(r),
            final(self).next() == r + 1,
            final(self)@ == old(self)@,
    {
        let id = self.next_id;
        self.next_id = id + 1;
        assert(!self.pending@.contains_key(id));
        assert forall|k: u64| #[trigger] self.pending@.contains_key(k) implies 1 <= k
            < self.next_id by {
            assert(old(self).pending@.contains_key(k));
        };
        assert(self.entries@ == old(self).entries@);
        assert(self.pending@ == old(self).pending@);
        id
    }

    /// Stores `handle` under `id`, which must have been handed out and not be pending.
    pub fn register(&mut self, id: u64, handle: T)
        requires
            old(self).wf(),
            1 <= id < old(self).next(),
            !old(self)@.contains_key(id),
        ensures
            final(self).wf(),
            final(self)@ == old(self)@.insert(id, handle),
            final(self).next() == old(self).next(),
    {
        let ghost old_entries = self.entries@;
        self.entries.push((id, handle));
        self.pending = Ghost(self.pending@.insert(id, self.entries@.last().1));
        assert forall|k: u64| #[trigger] self.pending@.contains_key(k) implies exists|i: int|
            0 <= i < self.entries@.len() && #[trigger] self.entries@[i].0 == k by {
            if k == id {
                assert(self.entries@[old_entries.len() as int].0 == k);
            } else {
                let i = choose|i: int|
                    0 <= i < old_entries.len() && #[trigger] old_entries[i].0 == k;
                assert(self.entries@[i].0 == k);
            }
        };
        assert forall|i: int, j: int|
            0 <= i < j < self.entries@.len() implies #[trigger] self.entries@[i].0
            != #[trigger] self.entries@[j].0 by {
            if j == old_entries.len() {
                assert(old(self).pending@.contains_key(old_entries[i].0));
            } else {
                assert(old_entries[i].0 != old_entries[j].0);
            }
        };
    }

    /// Whether another id can be handed out.
    pub fn has_ids_left(&self) -> (r: bool)
        ensures
            r == (self.next() < u64::MAX),
    {
        self.next_id < u64::MAX
    }

    /// Whether a request with this id waits for an answer.
    pub fn is_pending(&self, id: u64) -> (r: bool)
        requires
            self.wf(),
        ensures
            r == self@.contains_key(id),
    {
        let mut i: usize = 0;
        while i < self.entries.len()
            invariant
                self.wf(),
                i <= self.entries@.len(),
                forall|j: int| 0 <= j < i ==> self.entries@[j].0 != id,
            decreases self.entries@.len() - i,
        {
            if self.entries[i].0 == id {
                assert(self.pending@.contains_key(self.entries@[i as int].0));
                return true;
            }
            i = i + 1;
        }
        proof {
            if self@.contains_key(id) {
                let j = choose|j: int| 0 <= j < self.entries@.len() && #[trigger] self.entries@[j].0 == id;
                assert(self.entries@[j].0 == id);
            }
        }
        false
    }

    /// Takes out the handle stored under `id`, if any; an id is answered at most once.
    pub fn resolve(&mut self, id: u64) -> (r: Option<T>)
        requires
            old(self).wf(),
        ensures
            final(self).wf(),
            final(self).next() == old(self).next(),
            old(self)@.contains_key(id) ==> r == Some(old(self)@[id]) && final(self)@ == old(
                self,
            )@.remove(id),
            !old(self)@.contains_key(id) ==> r.is_none() && final(self)@ == old(self)@,
    {
        let mut i: usize = 0;
        while i < self.entries.len()
            invariant
                self.wf(),
                *self == *old(self),
                i <= self.entries@.len(),
                forall|j: int| 0 <= j < i ==> self.entries@[j].0 != id,
            decreases self.entries@.len() - i,
        {
            if self.entries[i].0 == id {
                let ghost old_entries = self.entries@;
                let (_, handle) = self.entries.remove(i);
                self.pending = Ghost(self.pending@.remove(id));
                assert forall|k: u64| #[trigger] self.pending@.contains_key(k) implies exists|
                    m: int,
                |
                    0 <= m < self.entries@.len() && #[trigger] self.entries@[m].0 == k by {
                    let m = choose|m: int|
                        0 <= m < old_entries.len() && #[trigger] old_entries[m].0 == k;
                    if m < i {
                        assert(self.entries@[m].0 == k);
                    } else {
                        assert(m != i);
                        assert(self.entries@[m - 1].0 == k);
                    }
                };
                assert forall|a: int, b: int|
                    0 <= a < b < self.entries@.len() implies #[trigger] self.entries@[a].0
                    != #[trigger] self.entries@[b].0 by {
                    let a0 = if a < i { a } else { a + 1 };
                    let b0 = if b < i { b } else { b + 1 };
                    assert(old_entries[a0].0 != old_entries[b0].0);
                };
                assert forall|m: int| 0 <= m < self.entries@.len() implies self.pending@.contains_key(
                    #[trigger] self.entries@[m].0,
                ) && self.pending@[self.entries@[m].0] == self.entries@[m].1 by {
                    let m0 = if m < i { m } else { m + 1 };
                    assert(old_entries[m0].0 != old_entries[i as int].0);
                };
                return Some(handle);
            }
            i = i + 1;
        }
        proof {
            if self@.contains_key(id) {
                let j = choose|j: int| 0 <= j < self.entries@.len() && #[trigger] self.entries@[j].0 == id;
                assert(self.entries@[j].0 == id);
            }
        }
        None
    }

    /// Takes out every pending request, leaving the table empty; the counter
    /// goes on from where it was.
    pub fn drain(&mut self) -> (r: Vec<(u64, T)>)
        requires
            old(self).wf(),
        ensures
            final(self).wf(),
            final(self)@ == Map::<u64, T>::empty(),
            final(self).next() == old(self).next(),
            forall|i: int, j: int|
                0 <= i < j < r@.len() ==> #[trigger] r@[i].0 != #[trigger] r@[j].0,
            forall|i: int|
                0 <= i < r@.len() ==> old(self)@.contains_key(#[trigger] r@[i].0) && old(
                    self,
                )@[r@[i].0] == r@[i].1,
            forall|k: u64|
                #[trigger] old(self)@.contains_key(k) ==> exists|i: int|
                    0 <= i < r@.len() && #[trigger] r@[i].0 == k,
    {
        let mut taken: Vec<(u64, T)> = Vec::new();
        std::mem::swap(&mut taken, &mut self.entries);
        self.pending = Ghost(Map::empty());
        taken
    }
}

} // verus!
