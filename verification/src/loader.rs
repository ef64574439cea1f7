//! The loader's bookkeeping: which paths have a filesystem read in
//! flight, and how many requesters wait on each.
//!
//! The loader task guarantees at most one in-flight read per path. A
//! request for a path that is already being read is coalesced: no second
//! read is issued, and the requester is registered to receive the one
//! in-flight result. Completion hands back how many notifications to send.

use vstd::prelude::*;

verus! {

/// One in-flight read: its path and how many requesters wait on it.
pub struct PendingLoad {
    pub path: String,
    pub waiters: u64,
}

/// The position of the pending entry for path `k` at or after `i`, or -1.
pub open spec fn find_pending(pending: Seq<PendingLoad>, k: Seq<char>, i: int) -> int
    decreases pending.len() - i,
{
    if i >= pending.len() {
        -1
    } else if pending[i].path@ == k {
        i
    } else {
        find_pending(pending, k, i + 1)
    }
}

pub proof fn lemma_find_pending(pending: Seq<PendingLoad>, k: Seq<char>, i: int)
    requires
        0 <= i,
    ensures
        find_pending(pending, k, i) == -1 ==> forall|j: int|
            i <= j < pending.len() ==> pending[j].path@ != k,
        find_pending(pending, k, i) != -1 ==> {
            let f = find_pending(pending, k, i);
            &&& i <= f < pending.len()
            &&& pending[f].path@ == k
        },
    decreases pending.len() - i,
{
    if i >= pending.len() {
    } else if pending[i].path@ == k {
    } else {
        lemma_find_pending(pending, k, i + 1);
    }
}

/// The in-flight read table of the loader task.
pub struct LoadTracker {
    pub pending: Vec<PendingLoad>,
}

/// The pending table after a request for a path whose read is already in
/// flight: that entry gains one waiter.
pub open spec fn spec_coalesce(t: LoadTracker, k: Seq<char>) -> Seq<PendingLoad>
    recommends
        find_pending(t.pending@, k, 0) >= 0,
{
    let f = find_pending(t.pending@, k, 0);
    t.pending@.update(
        f,
        (PendingLoad { path: t.pending@[f].path, waiters: (t.pending@[f].waiters + 1) as u64 }),
    )
}

impl LoadTracker {
    /// Well-formedness: paths distinct and every entry has a waiter.
    pub open spec fn wf(self) -> bool {
        &&& forall|i: int, j: int|
            0 <= i < j < self.pending@.len() ==> self.pending@[i].path@ != self.pending@[j].path@
        &&& forall|i: int|
            0 <= i < self.pending@.len() ==> 1 <= #[trigger] self.pending@[i].waiters
    }

    /// Whether a read for `k` is in flight.
    pub open spec fn in_flight(self, k: Seq<char>) -> bool {
        find_pending(self.pending@, k, 0) >= 0
    }

    /// A tracker with nothing in flight.
    pub fn new() -> (t: LoadTracker)
        ensures
            t.wf(),
            t.pending@.len() == 0,
    {
        LoadTracker { pending: Vec::new() }
    }

    /// Scans for the pending entry of `path`.
    fn find(&self, path: &String) -> (r: Option<usize>)
        ensures
            match r {
                Some(i) => find_pending(self.pending@, path@, 0) == i as int && i
                    < self.pending@.len(),
                None => find_pending(self.pending@, path@, 0) == -1,
            },
    {
        let len = self.pending.len();
        let mut i: usize = 0;
        while i < len
            invariant
                i <= len,
                len == self.pending@.len(),
                find_pending(self.pending@, path@, 0) == find_pending(
                    self.pending@,
                    path@,
                    i as int,
                ),
            decreases len - i,
        {
            if self.pending[i].path == *path {
                return Some(i);
            }
            i = i + 1;
        }
        None
    }

    /// Reports whether a read for `path` is in flight.
    pub fn is_in_flight(&self, path: &String) -> (r: bool)
        ensures
            r == self.in_flight(path@),
    {
        match self.find(path) {
            Some(_) => true,
            None => false,
        }
    }

    /// Registers a request for `path` and decides whether to issue a
    /// filesystem read: `true` exactly when no read for it is in flight.
    /// A coalesced request adds one waiter instead.
    pub fn note_request(&mut self, path: &String) -> (issue_read: bool)
        requires
            old(self).wf(),
            forall|i: int|
                0 <= i < old(self).pending@.len() ==> #[trigger] old(self).pending@[i].waiters
                    < u64::MAX,
        ensures
            final(self).wf(),
            issue_read == !old(self).in_flight(path@),
            ({
                let f = find_pending(old(self).pending@, path@, 0);
                if f >= 0 {
                    final(self).pending@ == spec_coalesce(*old(self), path@)
                } else {
                    &&& final(self).pending@.len() == old(self).pending@.len() + 1
                    &&& final(self).pending@.last().path@ == path@
                    &&& final(self).pending@.last().waiters == 1
                    &&& final(self).pending@.take(old(self).pending@.len() as int) == old(
                        self,
                    ).pending@
                }
            }),
    {
        match self.find(path) {
            Some(i) => {
                proof {
                    lemma_find_pending(self.pending@, path@, 0);
                }
                let w = self.pending[i].waiters;
                let s = &mut self.pending[i];
                s.waiters = w + 1;
                false
            },
            None => {
                let entry = PendingLoad { path: path.clone(), waiters: 1 };
                self.pending.push(entry);
                proof {
                    lemma_find_pending(old(self).pending@, path@, 0);
                    assert(self.pending@.take(old(self).pending@.len() as int) =~= old(
                        self,
                    ).pending@);
                    assert forall|i: int, j: int|
                        0 <= i < j < self.pending@.len() implies self.pending@[i].path@
                        != self.pending@[j].path@ by {
                        if j == self.pending@.len() - 1 {
                            assert(old(self).pending@[i].path@ != path@);
                        }
                    }
                }
                true
            },
        }
    }

    /// Takes the read for `path` as completed: hands back how many
    /// notifications to deliver (one per coalesced requester, zero when
    /// nothing was in flight) and clears the entry.
    pub fn complete(&mut self, path: &String) -> (notify: u64)
        requires
            old(self).wf(),
        ensures
            final(self).wf(),
            ({
                let f = find_pending(old(self).pending@, path@, 0);
                if f >= 0 {
                    &&& notify == old(self).pending@[f].waiters
                    &&& final(self).pending@ == old(self).pending@.remove(f)
                } else {
                    &&& notify == 0
                    &&& *final(self) == *old(self)
                }
            }),
            !final(self).in_flight(path@),
    {
        let r = match self.find(path) {
            Some(i) => {
                proof {
                    lemma_find_pending(self.pending@, path@, 0);
                }
                let w = self.pending[i].waiters;
                self.pending.remove(i);
                w
            },
            None => 0,
        };
        proof {
            lemma_find_pending(self.pending@, path@, 0);
            if find_pending(self.pending@, path@, 0) >= 0 {
                let g = find_pending(self.pending@, path@, 0);
                assert(self.pending@[g].path@ == path@);
                let f = find_pending(old(self).pending@, path@, 0);
                if f >= 0 {
                    lemma_find_pending(old(self).pending@, path@, 0);
                    if g < f {
                        assert(old(self).pending@[g].path@ == path@);
                        assert(false);
                    } else {
                        assert(old(self).pending@[g + 1].path@ == path@);
                        assert(false);
                    }
                } else {
                    assert(false);
                }
            }
        }
        r
    }
}

/// Request coalescing: two requests for the same path issued before the
/// read completes cause exactly one filesystem read, and completion
/// delivers exactly two notifications, one per requester.
pub proof fn lemma_request_coalescing(t: LoadTracker, t1: LoadTracker, t2: LoadTracker, k: Seq<char>)
    requires
        t.wf(),
        !t.in_flight(k),
        // first request: the tracker moves from t to t1, a read is issued
        t1.pending@.len() == t.pending@.len() + 1,
        t1.pending@.last().path@ == k,
        t1.pending@.last().waiters == 1,
        t1.pending@.take(t.pending@.len() as int) == t.pending@,
        // second request: the tracker moves from t1 to t2
        t2.pending@ == spec_coalesce(t1, k),
    ensures
        // the second request is coalesced: no second read is issued
        t1.in_flight(k),
        // completion owes exactly two notifications
        ({
            let f = find_pending(t2.pending@, k, 0);
            &&& f >= 0
            &&& t2.pending@[f].waiters == 2
        }),
{
    let n = t.pending@.len() as int;
    lemma_find_pending(t.pending@, k, 0);
    assert(t1.pending@[n].path@ == k);
    lemma_find_pending(t1.pending@, k, 0);
    let f1 = find_pending(t1.pending@, k, 0);
    assert(f1 >= 0) by {
        if f1 == -1 {
            assert(t1.pending@[n].path@ != k);
        }
    }
    assert(t1.pending@[f1].path@ == k);
    assert(f1 == n) by {
        if f1 < n {
            assert(t.pending@[f1] == t1.pending@.take(n)[f1]);
            assert(t.pending@[f1].path@ == k);
            assert(false);
        }
    }
    assert(t1.pending@[f1].waiters == 1);
    assert(t2.pending@[f1].waiters == 2);
    assert(t2.pending@[f1].path@ == k);
    lemma_find_pending(t2.pending@, k, 0);
    let f2 = find_pending(t2.pending@, k, 0);
    assert(f2 >= 0) by {
        if f2 == -1 {
            assert(t2.pending@[f1].path@ != k);
        }
    }
    assert(f2 == f1) by {
        if f2 < f1 {
            assert(t2.pending@[f2].path@ == k);
            assert(t1.pending@[f2].path@ == k);
            assert(t.pending@[f2] == t1.pending@.take(n)[f2]);
            assert(t1.pending@.take(n)[f2] == t1.pending@[f2]);
            assert(t.pending@[f2].path@ != k);
            assert(false);
        }
    }
}

/// What the loader does with a request, once the cache and the in-flight
/// table have been consulted.
#[derive(Clone, Copy, Debug, PartialEq, Eq, Structural)]
pub enum LoadAction {
    /// A fresh snapshot is cached: publish it without touching the disk.
    ServeCached,
    /// Nothing usable: issue a filesystem read.
    Read,
    /// A read is already in flight: wait for it instead of reading again.
    Coalesce,
}

/// Decides how to serve a load request: a cached snapshot whose recorded
/// modification time still matches the filesystem is served as is; an
/// in-flight read absorbs the request; otherwise the disk is read.
pub fn plan_load(cached_modified: Option<u64>, fs_modified: u64, in_flight: bool) -> (r: LoadAction)
    ensures
        r == (match cached_modified {
            Some(m) => if m == fs_modified {
                LoadAction::ServeCached
            } else if in_flight {
                LoadAction::Coalesce
            } else {
                LoadAction::Read
            },
            None => if in_flight {
                LoadAction::Coalesce
            } else {
                LoadAction::Read
            },
        }),
{
    match cached_modified {
        Some(m) => {
            if m == fs_modified {
                LoadAction::ServeCached
            } else if in_flight {
                LoadAction::Coalesce
            } else {
                LoadAction::Read
            }
        },
        None => {
            if in_flight {
                LoadAction::Coalesce
            } else {
                LoadAction::Read
            }
        },
    }
}

} // verus!
