//! A bounded snapshot cache keyed by canonical path.
//!
//! The cache holds at most `capacity` entries; once full, an insert of a
//! new key evicts exactly the least-recently-accessed entry. Reads stamp
//! the entry with a fresh access tick so that eviction tracks use, not
//! insertion order. The browser shares one cache between the loader and
//! the panels; the sharing wrapper (a lock) lives outside the library, and
//! every operation here is a single atomic step over the whole state.

use vstd::prelude::*;

use crate::panel::DirPanel;
use crate::panel::panel_like;

verus! {

/// One cached snapshot: its key, the snapshot, and the access tick.
pub struct CacheSlot {
    pub key: String,
    pub value: DirPanel,
    pub last_access: u64,
}

/// The position of the slot with key `k` at or after `i`, or -1.
pub open spec fn find_slot(slots: Seq<CacheSlot>, k: Seq<char>, i: int) -> int
    decreases slots.len() - i,
{
    if i >= slots.len() {
        -1
    } else if slots[i].key@ == k {
        i
    } else {
        find_slot(slots, k, i + 1)
    }
}

pub proof fn lemma_find_slot(slots: Seq<CacheSlot>, k: Seq<char>, i: int)
    requires
        0 <= i,
    ensures
        find_slot(slots, k, i) == -1 ==> forall|j: int| i <= j < slots.len() ==> slots[j].key@ != k,
        find_slot(slots, k, i) != -1 ==> {
            let f = find_slot(slots, k, i);
            &&& i <= f < slots.len()
            &&& slots[f].key@ == k
        },
    decreases slots.len() - i,
{
    if i >= slots.len() {
    } else if slots[i].key@ == k {
    } else {
        lemma_find_slot(slots, k, i + 1);
    }
}

/// The position of the slot with the smallest access tick, scanning from
/// `i` with `best` the winner so far.
pub open spec fn lru_from(slots: Seq<CacheSlot>, best: int, i: int) -> int
    decreases slots.len() - i,
{
    if i >= slots.len() {
        best
    } else if slots[i].last_access < slots[best].last_access {
        lru_from(slots, i, i + 1)
    } else {
        lru_from(slots, best, i + 1)
    }
}

/// The position of the least-recently-accessed slot.
pub open spec fn lru_index(slots: Seq<CacheSlot>) -> int {
    lru_from(slots, 0, 1)
}

pub proof fn lemma_lru_from(slots: Seq<CacheSlot>, best: int, i: int)
    requires
        0 <= best < slots.len(),
        best < i,
        forall|j: int| 0 <= j < i ==> slots[best].last_access <= slots[j].last_access,
    ensures
        ({
            let m = lru_from(slots, best, i);
            &&& 0 <= m < slots.len()
            &&& forall|j: int| 0 <= j < slots.len() ==> slots[m].last_access
                <= slots[j].last_access
        }),
    decreases slots.len() - i,
{
    if i >= slots.len() {
    } else if slots[i].last_access < slots[best].last_access {
        lemma_lru_from(slots, i, i + 1);
    } else {
        lemma_lru_from(slots, best, i + 1);
    }
}

/// A bounded, least-recently-used snapshot cache.
pub struct DirCache {
    /// The cached slots; keys are pairwise distinct.
    pub slots: Vec<CacheSlot>,
    /// The bound: at most this many slots are ever held.
    pub capacity: usize,
    /// The access clock; every read or write stamps a fresh tick.
    pub clock: u64,
}

impl DirCache {
    /// Well-formedness: within capacity, keys distinct, and every access
    /// tick distinct and older than the clock.
    pub open spec fn wf(self) -> bool {
        &&& self.capacity >= 1
        &&& self.slots@.len() <= self.capacity
        &&& forall|i: int, j: int|
            0 <= i < j < self.slots@.len() ==> self.slots@[i].key@ != self.slots@[j].key@
        &&& forall|i: int|
            0 <= i < self.slots@.len() ==> #[trigger] self.slots@[i].last_access < self.clock
        &&& forall|i: int, j: int|
            0 <= i < j < self.slots@.len() ==> self.slots@[i].last_access
                != self.slots@[j].last_access
    }

    /// An empty cache bounded at `capacity` entries.
    pub fn with_size(capacity: usize) -> (c: DirCache)
        requires
            capacity >= 1,
        ensures
            c.wf(),
            c.capacity == capacity,
            c.slots@.len() == 0,
            c.clock == 0,
    {
        DirCache { slots: Vec::new(), capacity, clock: 0 }
    }

    /// Scans for the slot holding `key`.
    fn find(&self, key: &String) -> (r: Option<usize>)
        ensures
            match r {
                Some(i) => find_slot(self.slots@, key@, 0) == i as int && i < self.slots@.len(),
                None => find_slot(self.slots@, key@, 0) == -1,
            },
    {
        let len = self.slots.len();
        let mut i: usize = 0;
        while i < len
            invariant
                i <= len,
                len == self.slots@.len(),
                find_slot(self.slots@, key@, 0) == find_slot(self.slots@, key@, i as int),
            decreases len - i,
        {
            if self.slots[i].key == *key {
                return Some(i);
            }
            i = i + 1;
        }
        None
    }

    /// Looks a snapshot up. A hit hands back a copy and stamps the entry
    /// as just used; a miss changes nothing. Never fails.
    pub fn get(&mut self, key: &String) -> (r: Option<DirPanel>)
        requires
            old(self).wf(),
            old(self).clock < u64::MAX,
        ensures
            final(self).wf(),
            final(self).capacity == old(self).capacity,
            ({
                let f = find_slot(old(self).slots@, key@, 0);
                if f >= 0 {
                    &&& r is Some
                    &&& panel_like(r->Some_0, old(self).slots@[f].value)
                    &&& final(self).slots@ == old(self).slots@.update(
                        f,
                        (CacheSlot { last_access: old(self).clock, ..old(self).slots@[f] }),
                    )
                    &&& final(self).clock == old(self).clock + 1
                } else {
                    &&& r is None
                    &&& *final(self) == *old(self)
                }
            }),
    {
        match self.find(key) {
            Some(i) => {
                proof {
                    lemma_find_slot(self.slots@, key@, 0);
                }
                let now = self.clock;
                let out = self.slots[i].value.duplicate();
                let s = &mut self.slots[i];
                s.last_access = now;
                self.clock = now + 1;
                Some(out)
            },
            None => None,
        }
    }

    /// Stores a snapshot. An existing key is overwritten in place; a new
    /// key is appended while room remains, and once the cache is full it
    /// evicts exactly the least-recently-accessed slot. Never fails.
    pub fn insert(&mut self, key: String, value: DirPanel)
        requires
            old(self).wf(),
            old(self).clock < u64::MAX,
        ensures
            final(self).wf(),
            final(self).capacity == old(self).capacity,
            final(self).clock == old(self).clock + 1,
            ({
                let f = find_slot(old(self).slots@, key@, 0);
                let slot = (CacheSlot { key, value, last_access: old(self).clock });
                if f >= 0 {
                    final(self).slots@ == old(self).slots@.update(f, slot)
                } else if old(self).slots@.len() < old(self).capacity {
                    final(self).slots@ == old(self).slots@.push(slot)
                } else {
                    final(self).slots@ == old(self).slots@.remove(lru_index(old(self).slots@)).push(
                        slot,
                    )
                }
            }),
    {
        let now = self.clock;
        let found = self.find(&key);
        proof {
            lemma_find_slot(self.slots@, key@, 0);
        }
        match found {
            Some(i) => {
                let slot = CacheSlot { key, value, last_access: now };
                let s = &mut self.slots[i];
                *s = slot;
            },
            None => {
                if self.slots.len() >= self.capacity {
                    // Full: evict the least-recently-accessed slot.
                    let len = self.slots.len();
                    let mut m: usize = 0;
                    let mut i: usize = 1;
                    while i < len
                        invariant
                            1 <= i <= len,
                            len == self.slots@.len(),
                            len >= 1,
                            m < i,
                            lru_index(self.slots@) == lru_from(self.slots@, m as int, i as int),
                            forall|j: int|
                                0 <= j < i ==> self.slots@[m as int].last_access
                                    <= self.slots@[j].last_access,
                        decreases len - i,
                    {
                        if self.slots[i].last_access < self.slots[m].last_access {
                            m = i;
                        }
                        i = i + 1;
                    }
                    self.slots.remove(m);
                }
                let slot = CacheSlot { key, value, last_access: now };
                self.slots.push(slot);
            },
        }
        self.clock = now + 1;
    }

    /// Drops the snapshot for `key`, if one is cached.
    pub fn invalidate(&mut self, key: &String)
        requires
            old(self).wf(),
        ensures
            final(self).wf(),
            final(self).capacity == old(self).capacity,
            final(self).clock == old(self).clock,
            ({
                let f = find_slot(old(self).slots@, key@, 0);
                if f >= 0 {
                    final(self).slots@ == old(self).slots@.remove(f)
                } else {
                    *final(self) == *old(self)
                }
            }),
    {
        match self.find(key) {
            Some(i) => {
                proof {
                    lemma_find_slot(self.slots@, key@, 0);
                }
                self.slots.remove(i);
            },
            None => {},
        }
    }

    /// How many snapshots are cached now.
    pub fn len(&self) -> (r: usize)
        ensures
            r == self.slots@.len(),
    {
        self.slots.len()
    }
}

/// Cache bound: an insert never leaves more than `capacity` entries, and
/// an insert of a new key into a full cache keeps exactly `capacity`
/// entries while the least-recently-accessed one leaves.
pub proof fn lemma_cache_bound(c: DirCache, slots_after: Seq<CacheSlot>, k: Seq<char>)
    requires
        c.wf(),
        c.slots@.len() == c.capacity,
        find_slot(c.slots@, k, 0) == -1,
        slots_after == c.slots@.remove(lru_index(c.slots@)).push(
            (CacheSlot {
                key: c.slots@[0].key,
                value: c.slots@[0].value,
                last_access: c.clock,
            }),
        ),
    ensures
        slots_after.len() == c.capacity,
        forall|j: int|
            0 <= j < c.slots@.len() ==> c.slots@[lru_index(c.slots@)].last_access
                <= #[trigger] c.slots@[j].last_access,
{
    lemma_lru_from(c.slots@, 0, 1);
}

} // verus!
