//! The directory panel: an immutable-until-replaced snapshot of one
//! directory's entries together with the live selection state.
//!
//! The entry vector never changes length or order for the life of a panel;
//! the `non_hidden` vector caches the positions of the non-hidden entries,
//! and a panel is always replaced wholesale so that the pair stays in step.

use vstd::prelude::*;
use vstd::string::StrSliceExecFns;

use crate::entry::DirElem;
use crate::order::sort_entries;
use crate::order::sorted_entries;

verus! {

/// The positions (in order) of the non-hidden entries of a listing.
pub open spec fn nh_seq(s: Seq<DirElem>) -> Seq<int>
    decreases s.len(),
{
    if s.len() == 0 {
        Seq::empty()
    } else if s.last().is_hidden {
        nh_seq(s.drop_last())
    } else {
        nh_seq(s.drop_last()).push(s.len() - 1)
    }
}

/// Every cached position points at a non-hidden entry, in strictly
/// increasing order, and every non-hidden entry is cached.
pub proof fn lemma_nh_seq_valid(s: Seq<DirElem>)
    ensures
        forall|k: int|
            0 <= k < nh_seq(s).len() ==> 0 <= #[trigger] nh_seq(s)[k] < s.len()
                && !s[nh_seq(s)[k]].is_hidden,
        forall|k1: int, k2: int|
            0 <= k1 < k2 < nh_seq(s).len() ==> nh_seq(s)[k1] < nh_seq(s)[k2],
        forall|j: int| 0 <= j < s.len() && !s[j].is_hidden ==> nh_seq(s).contains(j),
    decreases s.len(),
{
    if s.len() > 0 {
        lemma_nh_seq_valid(s.drop_last());
        assert forall|j: int| 0 <= j < s.len() && !s[j].is_hidden implies nh_seq(s).contains(
            j,
        ) by {
            if j < s.len() - 1 {
                assert(s.drop_last()[j] == s[j]);
                assert(nh_seq(s.drop_last()).contains(j));
                let k = choose|k: int|
                    0 <= k < nh_seq(s.drop_last()).len() && nh_seq(s.drop_last())[k] == j;
                assert(nh_seq(s)[k] == j);
            } else {
                assert(!s.last().is_hidden);
                assert(nh_seq(s).last() == j);
            }
        }
    }
}

/// A directory snapshot plus its selection state.
#[derive(Debug)]
pub struct DirPanel {
    /// Elements of the directory, in display order.
    pub elements: Vec<DirElem>,
    /// Positions of the non-hidden elements, cached for filtered navigation.
    pub non_hidden: Vec<usize>,
    /// Selected element, as an index into `elements`.
    pub selected_idx: usize,
    /// Position in `non_hidden` that carries the selection when hidden
    /// entries are filtered out.
    pub non_hidden_idx: usize,
    /// Path of the directory that the panel shows.
    pub path: String,
    /// Last modification time of that directory, as the caller read it.
    pub modified: u64,
    /// Whether the panel is a placeholder still waiting for its listing.
    pub loading: bool,
    /// Whether hidden files are shown.
    pub show_hidden: bool,
    /// Deterministic digest of the elements.
    pub hash: u64,
}

impl DirPanel {
    /// The cached non-hidden positions, as mathematical integers.
    pub open spec fn nh(self) -> Seq<int> {
        self.non_hidden@.map_values(|u: usize| u as int)
    }

    /// Well-formedness: the cache is exactly the non-hidden positions, and
    /// both cursors are in range (or zero for an empty view).
    pub open spec fn wf(self) -> bool {
        &&& self.nh() == nh_seq(self.elements@)
        &&& if self.elements@.len() == 0 {
            self.selected_idx == 0
        } else {
            self.selected_idx < self.elements@.len()
        }
        &&& if self.non_hidden@.len() == 0 {
            self.non_hidden_idx == 0
        } else {
            self.non_hidden_idx < self.non_hidden@.len()
        }
    }

    /// Builds a panel over the given elements without reordering them.
    /// The first non-hidden entry is selected, or position zero if none.
    pub fn new(elements: Vec<DirElem>, path: String, modified: u64) -> (p: DirPanel)
        ensures
            p.wf(),
            p.elements@ == elements@,
            p.path == path,
            p.modified == modified,
            p.selected_idx == if nh_seq(elements@).len() > 0 {
                nh_seq(elements@)[0]
            } else {
                0int
            },
            p.non_hidden_idx == 0,
            p.loading == false,
            p.show_hidden == false,
            p.hash == spec_hash_elements(elements@),
    {
        let mut non_hidden: Vec<usize> = Vec::new();
        let mut j: usize = 0;
        proof {
            assert(elements@.take(0) =~= Seq::empty());
        }
        while j < elements.len()
            invariant
                j <= elements@.len(),
                non_hidden@.map_values(|u: usize| u as int) == nh_seq(elements@.take(j as int)),
            decreases elements@.len() - j,
        {
            let ghost prefix = elements@.take(j as int);
            if !elements[j].is_hidden {
                non_hidden.push(j);
            }
            proof {
                let next = elements@.take(j + 1);
                assert(next.drop_last() =~= prefix);
                assert(next.last() == elements@[j as int]);
                if !elements@[j as int].is_hidden {
                    assert(non_hidden@.map_values(|u: usize| u as int) =~= nh_seq(prefix).push(
                        j as int,
                    ));
                }
            }
            j = j + 1;
        }
        proof {
            assert(elements@.take(elements@.len() as int) =~= elements@);
            lemma_nh_seq_valid(elements@);
            if non_hidden@.len() > 0 {
                assert(non_hidden@.map_values(|u: usize| u as int)[0] == non_hidden@[0] as int);
                assert(0 <= nh_seq(elements@)[0] < elements@.len());
            }
        }
        let selected: usize = if non_hidden.len() > 0 {
            non_hidden[0]
        } else {
            0
        };
        let hash = hash_elements(&elements);
        let p = DirPanel {
            elements,
            non_hidden,
            selected_idx: selected,
            non_hidden_idx: 0,
            path,
            modified,
            loading: false,
            show_hidden: false,
            hash,
        };
        proof {
            assert(p.nh() == nh_seq(p.elements@));
            assert(if p.elements@.len() == 0 {
                p.selected_idx == 0
            } else {
                p.selected_idx < p.elements@.len()
            });
            assert(if p.non_hidden@.len() == 0 {
                p.non_hidden_idx == 0
            } else {
                p.non_hidden_idx < p.non_hidden@.len()
            });
        }
        p
    }

    /// Builds the snapshot the loader publishes for a directory read:
    /// the entries are sorted into display order first.
    pub fn from_listing(elements: Vec<DirElem>, path: String, modified: u64) -> (p: DirPanel)
        ensures
            p.wf(),
            sorted_entries(p.elements@),
            p.elements@.to_multiset() == elements@.to_multiset(),
            p.elements@.len() == elements@.len(),
            p.path == path,
            p.modified == modified,
            p.selected_idx == if nh_seq(p.elements@).len() > 0 {
                nh_seq(p.elements@)[0]
            } else {
                0int
            },
            p.non_hidden_idx == 0,
            p.loading == false,
            p.show_hidden == false,
            p.hash == spec_hash_elements(p.elements@),
    {
        let mut es = elements;
        sort_entries(&mut es);
        DirPanel::new(es, path, modified)
    }

    /// A placeholder panel shown while the listing for `path` is fetched.
    pub fn loading(path: String) -> (p: DirPanel)
        ensures
            p.wf(),
            p.elements@.len() == 0,
            p.non_hidden@.len() == 0,
            p.selected_idx == 0,
            p.non_hidden_idx == 0,
            p.path == path,
            p.modified == 0,
            p.loading == true,
            p.show_hidden == false,
            p.hash == 0,
    {
        let p = DirPanel {
            elements: Vec::new(),
            non_hidden: Vec::new(),
            selected_idx: 0,
            non_hidden_idx: 0,
            path,
            modified: 0,
            loading: true,
            show_hidden: false,
            hash: 0,
        };
        proof {
            assert(p.nh() =~= nh_seq(p.elements@));
        }
        p
    }

    /// An empty panel; its path is the empty string, not a valid path.
    pub fn empty() -> (p: DirPanel)
        ensures
            p.wf(),
            p.path@.len() == 0,
            p.elements@.len() == 0,
            p.non_hidden@.len() == 0,
            p.selected_idx == 0,
            p.non_hidden_idx == 0,
            p.modified == 0,
            p.loading == false,
            p.show_hidden == false,
            p.hash == 0,
    {
        let p = DirPanel {
            elements: Vec::new(),
            non_hidden: Vec::new(),
            selected_idx: 0,
            non_hidden_idx: 0,
            path: String::new(),
            modified: 0,
            loading: false,
            show_hidden: false,
            hash: 0,
        };
        proof {
            assert(p.nh() =~= nh_seq(p.elements@));
        }
        p
    }
}

/// The digest of a single character, folded into a running hash with the
/// 64-bit FNV-1a step.
pub open spec fn spec_hash_step(h: u64, c: char) -> u64 {
    vstd::wrapping::u64_specs::wrapping_mul((h ^ (c as u64)), 0x100000001b3)
}

/// The digest of a character sequence folded left-to-right onto `h`.
pub open spec fn spec_hash_chars(h: u64, s: Seq<char>) -> u64
    decreases s.len(),
{
    if s.len() == 0 {
        h
    } else {
        spec_hash_chars(spec_hash_step(h, s[0]), s.skip(1))
    }
}

/// One entry folded into a running digest: its name, a kind marker, and
/// its display suffix, closed by a separator so that adjacent entries
/// cannot run together.
pub open spec fn spec_hash_elem(h: u64, e: DirElem) -> u64 {
    spec_hash_step(
        spec_hash_chars(
            spec_hash_step(
                spec_hash_chars(h, e.name@),
                if e.is_dir {
                    'd'
                } else {
                    'f'
                },
            ),
            e.suffix@,
        ),
        '\u{1f}',
    )
}

/// The digest of a whole listing: each entry folded in turn.
pub open spec fn spec_hash_elements_from(h: u64, s: Seq<DirElem>) -> u64
    decreases s.len(),
{
    if s.len() == 0 {
        h
    } else {
        spec_hash_elements_from(spec_hash_elem(h, s[0]), s.skip(1))
    }
}

/// The deterministic content digest over a listing (names, kinds and
/// suffixes), used to detect externally-unchanged directories.
pub open spec fn spec_hash_elements(s: Seq<DirElem>) -> u64 {
    spec_hash_elements_from(0xcbf29ce484222325, s)
}

/// One FNV-1a step over a character.
fn hash_step(h: u64, c: char) -> (r: u64)
    ensures
        r == spec_hash_step(h, c),
{
    (h ^ (c as u64)).wrapping_mul(0x100000001b3)
}

/// Folds a whole string into a running digest.
fn hash_chars(h0: u64, s: &str) -> (r: u64)
    ensures
        r == spec_hash_chars(h0, s@),
{
    let n = s.unicode_len();
    let mut h = h0;
    let mut i: usize = 0;
    proof {
        assert(s@.skip(0) =~= s@);
    }
    while i < n
        invariant
            i <= n,
            n == s@.len(),
            spec_hash_chars(h0, s@) == spec_hash_chars(h, s@.skip(i as int)),
        decreases n - i,
    {
        let c = s.get_char(i);
        proof {
            assert(s@.skip(i as int)[0] == s@[i as int]);
            assert(s@.skip(i as int).skip(1) =~= s@.skip(i + 1));
        }
        h = hash_step(h, c);
        i = i + 1;
    }
    h
}

/// Computes the deterministic content digest of a listing.
pub fn hash_elements(elements: &Vec<DirElem>) -> (r: u64)
    ensures
        r == spec_hash_elements(elements@),
{
    let mut h: u64 = 0xcbf29ce484222325;
    let mut i: usize = 0;
    proof {
        assert(elements@.skip(0) =~= elements@);
    }
    while i < elements.len()
        invariant
            i <= elements@.len(),
            spec_hash_elements(elements@) == spec_hash_elements_from(h, elements@.skip(i as int)),
        decreases elements@.len() - i,
    {
        proof {
            assert(elements@.skip(i as int)[0] == elements@[i as int]);
            assert(elements@.skip(i as int).skip(1) =~= elements@.skip(i + 1));
        }
        h = hash_chars(h, elements[i].name.as_str());
        h = hash_step(
            h,
            if elements[i].is_dir {
                'd'
            } else {
                'f'
            },
        );
        h = hash_chars(h, elements[i].suffix.as_str());
        h = hash_step(h, '\u{1f}');
        i = i + 1;
    }
    h
}

} // verus!

verus! {

/// Saturating subtraction on cursor positions.
pub open spec fn sat_sub(a: usize, b: usize) -> usize {
    if a >= b {
        (a - b) as usize
    } else {
        0usize
    }
}

/// The position the filtered cursor resolves to: the first cached position
/// at or after `sel`, or the last cached position if none is.
pub open spec fn closest_from(nh: Seq<int>, sel: int, k: int) -> int
    decreases nh.len() - k,
{
    if k >= nh.len() - 1 {
        nh.len() - 1
    } else if nh[k] >= sel {
        k
    } else {
        closest_from(nh, sel, k + 1)
    }
}

pub proof fn lemma_closest_from_range(nh: Seq<int>, sel: int, k: int)
    requires
        0 <= k < nh.len(),
    ensures
        k <= closest_from(nh, sel, k) < nh.len(),
    decreases nh.len() - k,
{
    if k >= nh.len() - 1 {
    } else if nh[k] >= sel {
    } else {
        lemma_closest_from_range(nh, sel, k + 1);
    }
}

/// When the selection itself is a cached position, the cursor resolves
/// exactly to it.
pub proof fn lemma_closest_from_hits(nh: Seq<int>, pos: int, k: int)
    requires
        forall|k1: int, k2: int| 0 <= k1 < k2 < nh.len() ==> nh[k1] < nh[k2],
        0 <= k <= pos < nh.len(),
    ensures
        closest_from(nh, nh[pos], k) == pos,
    decreases nh.len() - k,
{
    if k == pos {
        if k >= nh.len() - 1 {
        }
    } else {
        assert(nh[k] < nh[pos]);
        lemma_closest_from_hits(nh, pos, k + 1);
    }
}

impl DirPanel {
    /// The panel after the filtered cursor is re-resolved to the position
    /// closest at-or-after the current selection.
    pub open spec fn spec_resolve_nh_idx(p: DirPanel) -> DirPanel {
        if p.non_hidden@.len() == 0 {
            p
        } else {
            DirPanel {
                non_hidden_idx: closest_from(p.nh(), p.selected_idx as int, 0) as usize,
                ..p
            }
        }
    }

    /// Sets the filtered cursor to the position closest to the selection.
    pub fn set_non_hidden_idx(&mut self)
        requires
            old(self).wf(),
        ensures
            *final(self) == DirPanel::spec_resolve_nh_idx(*old(self)),
            final(self).wf(),
    {
        let n = self.non_hidden.len();
        if n == 0 {
            return ;
        }
        let mut k: usize = 0;
        while k < n - 1 && self.non_hidden[k] < self.selected_idx
            invariant
                old(self).wf(),
                *self == *old(self),
                n == self.non_hidden@.len(),
                n > 0,
                k <= n - 1,
                closest_from(self.nh(), self.selected_idx as int, 0) == closest_from(
                    self.nh(),
                    self.selected_idx as int,
                    k as int,
                ),
            decreases n - k,
        {
            proof {
                assert(self.nh()[k as int] == self.non_hidden@[k as int] as int);
            }
            k = k + 1;
        }
        proof {
            assert(self.nh()[k as int] == self.non_hidden@[k as int] as int);
            lemma_closest_from_range(self.nh(), self.selected_idx as int, 0);
        }
        self.non_hidden_idx = k;
    }

    /// The panel and redraw flag after moving the selection up by `step`.
    /// The flag reports whether the call changed the panel: a step absorbed
    /// at the top boundary (or a zero step) changes nothing.
    pub open spec fn spec_up(p: DirPanel, step: usize) -> (DirPanel, bool) {
        if p.show_hidden {
            if p.selected_idx == 0 || step == 0 {
                (p, false)
            } else {
                (DirPanel { selected_idx: sat_sub(p.selected_idx, step), ..p }, true)
            }
        } else {
            if p.non_hidden_idx == 0 || step == 0 {
                (p, false)
            } else {
                let k = sat_sub(p.non_hidden_idx, step);
                let sel = if p.non_hidden@.len() > 0 {
                    p.non_hidden@[k as int]
                } else {
                    0usize
                };
                (DirPanel { non_hidden_idx: k, selected_idx: sel, ..p }, true)
            }
        }
    }

    /// Moves the selection up if possible; reports whether a redraw is due.
    /// At the top boundary the panel does not change.
    pub fn up(&mut self, step: usize) -> (changed: bool)
        requires
            old(self).wf(),
        ensures
            *final(self) == DirPanel::spec_up(*old(self), step).0,
            changed == DirPanel::spec_up(*old(self), step).1,
            changed == (*final(self) != *old(self)),
            final(self).wf(),
    {
        if self.show_hidden {
            if self.selected_idx == 0 || step == 0 {
                return false;
            }
            self.selected_idx = crate::saturating_dec(self.selected_idx, step);
            proof {
                assert(self.selected_idx < old(self).selected_idx);
            }
        } else {
            if self.non_hidden_idx == 0 || step == 0 {
                return false;
            }
            let k = crate::saturating_dec(self.non_hidden_idx, step);
            self.non_hidden_idx = k;
            self.selected_idx = self.non_hidden[k];
            proof {
                assert(self.nh()[k as int] == self.non_hidden@[k as int] as int);
                lemma_nh_seq_valid(old(self).elements@);
                assert(self.non_hidden_idx < old(self).non_hidden_idx);
            }
        }
        true
    }

    /// The panel and redraw flag after moving the selection down by `step`.
    /// The flag reports whether the call changed the panel: a step absorbed
    /// at the bottom boundary, an empty visible list, or a zero step
    /// changes nothing.
    pub open spec fn spec_down(p: DirPanel, step: usize) -> (DirPanel, bool) {
        if p.show_hidden {
            if p.elements@.len() == 0 || p.selected_idx + 1 == p.elements@.len() || step == 0 {
                (p, false)
            } else {
                let sel = if p.selected_idx + step >= p.elements@.len() {
                    sat_sub(p.elements@.len() as usize, 1)
                } else {
                    (p.selected_idx + step) as usize
                };
                (DirPanel { selected_idx: sel, ..p }, true)
            }
        } else {
            if p.non_hidden@.len() == 0 || p.non_hidden_idx + 1 == p.non_hidden@.len() || step
                == 0 {
                (p, false)
            } else {
                let k = if p.non_hidden_idx + step >= p.non_hidden@.len() {
                    sat_sub(p.non_hidden@.len() as usize, 1)
                } else {
                    (p.non_hidden_idx + step) as usize
                };
                (DirPanel { non_hidden_idx: k, selected_idx: p.non_hidden@[k as int], ..p }, true)
            }
        }
    }

    /// Moves the selection down if possible; reports whether a redraw is
    /// due. At the bottom boundary the panel does not change.
    pub fn down(&mut self, step: usize) -> (changed: bool)
        requires
            old(self).wf(),
        ensures
            *final(self) == DirPanel::spec_down(*old(self), step).0,
            changed == DirPanel::spec_down(*old(self), step).1,
            changed == (*final(self) != *old(self)),
            final(self).wf(),
    {
        if self.show_hidden {
            let len = self.elements.len();
            if len == 0 || self.selected_idx + 1 == len || step == 0 {
                return false;
            }
            if len - self.selected_idx <= step {
                self.selected_idx = len - 1;
            } else {
                self.selected_idx = self.selected_idx + step;
            }
            proof {
                assert(self.selected_idx > old(self).selected_idx);
            }
        } else {
            let len = self.non_hidden.len();
            if len == 0 || self.non_hidden_idx + 1 == len || step == 0 {
                return false;
            }
            let k = if len - self.non_hidden_idx <= step {
                len - 1
            } else {
                self.non_hidden_idx + step
            };
            self.non_hidden_idx = k;
            self.selected_idx = self.non_hidden[k];
            proof {
                assert(self.nh()[k as int] == self.non_hidden@[k as int] as int);
                lemma_nh_seq_valid(old(self).elements@);
                assert(self.non_hidden_idx > old(self).non_hidden_idx);
            }
        }
        true
    }
}

/// Moving down at the bottom boundary (or on an empty view) never changes
/// the panel and reports no change, however often it is repeated.
pub proof fn lemma_down_idempotent_at_end(p: DirPanel, step: usize)
    requires
        p.wf(),
        if p.show_hidden {
            p.selected_idx + 1 == p.elements@.len() || p.elements@.len() == 0
        } else {
            p.non_hidden_idx + 1 == p.non_hidden@.len() || p.non_hidden@.len() == 0
        },
    ensures
        DirPanel::spec_down(p, step) == (p, false),
{
}

/// Moving up at the top boundary never changes the panel, however often
/// it is repeated.
pub proof fn lemma_up_idempotent_at_start(p: DirPanel, step: usize)
    requires
        p.wf(),
        if p.show_hidden {
            p.selected_idx == 0
        } else {
            p.non_hidden_idx == 0
        },
    ensures
        DirPanel::spec_up(p, step) == (p, false),
{
}

} // verus!

verus! {

/// The cached positions are never more numerous than the entries.
pub proof fn lemma_nh_seq_len(s: Seq<DirElem>)
    ensures
        nh_seq(s).len() <= s.len(),
    decreases s.len(),
{
    if s.len() > 0 {
        lemma_nh_seq_len(s.drop_last());
    }
}

/// Two listings with the same hidden pattern cache the same positions.
pub proof fn lemma_nh_seq_same_hidden(s1: Seq<DirElem>, s2: Seq<DirElem>)
    requires
        s1.len() == s2.len(),
        forall|j: int| 0 <= j < s1.len() ==> s1[j].is_hidden == s2[j].is_hidden,
    ensures
        nh_seq(s1) == nh_seq(s2),
    decreases s1.len(),
{
    if s1.len() > 0 {
        assert forall|j: int|
            0 <= j < s1.drop_last().len() implies s1.drop_last()[j].is_hidden
            == s2.drop_last()[j].is_hidden by {
            assert(s1[j].is_hidden == s2[j].is_hidden);
        }
        lemma_nh_seq_same_hidden(s1.drop_last(), s2.drop_last());
        assert(s1.last().is_hidden == s2.last().is_hidden);
    }
}

/// The first position at or after `i` holding a visible entry with the
/// given path, or -1 if there is none.
pub open spec fn find_from(s: Seq<DirElem>, show_hidden: bool, target: Seq<char>, i: int) -> int
    decreases s.len() - i,
{
    if i >= s.len() {
        -1
    } else if (show_hidden || !s[i].is_hidden) && s[i].path@ == target {
        i
    } else {
        find_from(s, show_hidden, target, i + 1)
    }
}

pub proof fn lemma_find_from(s: Seq<DirElem>, show_hidden: bool, target: Seq<char>, i: int)
    requires
        0 <= i,
    ensures
        find_from(s, show_hidden, target, i) == -1 ==> forall|j: int|
            i <= j < s.len() ==> !((show_hidden || !s[j].is_hidden) && s[j].path@ == target),
        find_from(s, show_hidden, target, i) != -1 ==> {
            let f = find_from(s, show_hidden, target, i);
            &&& i <= f < s.len()
            &&& (show_hidden || !s[f].is_hidden)
            &&& s[f].path@ == target
        },
    decreases s.len() - i,
{
    if i >= s.len() {
    } else if (show_hidden || !s[i].is_hidden) && s[i].path@ == target {
    } else {
        lemma_find_from(s, show_hidden, target, i + 1);
    }
}

impl DirPanel {
    /// The panel after the selection is changed to the entry with the given
    /// path, if a visible entry has it; otherwise the selection stays.
    pub open spec fn spec_select_path(p: DirPanel, target: Seq<char>) -> DirPanel {
        if p.elements@.len() > 0 && p.elements@[p.selected_idx as int].path@ == target {
            p
        } else {
            let f = find_from(p.elements@, p.show_hidden, target, 0);
            let q = if f >= 0 {
                DirPanel { selected_idx: f as usize, ..p }
            } else {
                p
            };
            if p.show_hidden {
                q
            } else {
                DirPanel::spec_resolve_nh_idx(q)
            }
        }
    }

    /// Scans for the first visible entry with the given path.
    fn find_visible_path(elements: &Vec<DirElem>, show_hidden: bool, selection: &String) -> (r:
        Option<usize>)
        ensures
            match r {
                Some(i) => find_from(elements@, show_hidden, selection@, 0) == i as int && i
                    < elements@.len(),
                None => find_from(elements@, show_hidden, selection@, 0) == -1,
            },
    {
        let len = elements.len();
        let mut i: usize = 0;
        while i < len
            invariant
                i <= len,
                len == elements@.len(),
                find_from(elements@, show_hidden, selection@, 0) == find_from(
                    elements@,
                    show_hidden,
                    selection@,
                    i as int,
                ),
            decreases len - i,
        {
            let vis = show_hidden || !elements[i].is_hidden;
            if vis && elements[i].path == *selection {
                return Some(i);
            }
            i = i + 1;
        }
        None
    }

    /// Changes the selection to the given path.
    ///
    /// If no visible entry has that path, the selection stays unchanged.
    pub fn select_path(&mut self, selection: &String)
        requires
            old(self).wf(),
        ensures
            *final(self) == DirPanel::spec_select_path(*old(self), selection@),
            final(self).wf(),
    {
        if self.selected_idx < self.elements.len() {
            if self.elements[self.selected_idx].path == *selection {
                return ;
            }
        }
        match Self::find_visible_path(&self.elements, self.show_hidden, selection) {
            Some(i) => {
                self.selected_idx = i;
            },
            None => {},
        }
        if !self.show_hidden {
            self.set_non_hidden_idx();
        }
    }

    /// The panel after the hidden-file view is switched. Turning filtering
    /// on first re-resolves the filtered cursor so that the visible
    /// selection does not jump to an unrelated entry.
    pub open spec fn spec_set_hidden(p: DirPanel, show: bool) -> DirPanel {
        if p.show_hidden == show {
            p
        } else if p.show_hidden && !show {
            let q = DirPanel::spec_resolve_nh_idx(p);
            let sel = if q.non_hidden_idx < q.non_hidden@.len() {
                q.non_hidden@[q.non_hidden_idx as int]
            } else {
                0usize
            };
            DirPanel { show_hidden: show, selected_idx: sel, ..q }
        } else {
            DirPanel { show_hidden: show, ..p }
        }
    }

    /// Switches whether hidden files are shown, keeping the selection on a
    /// visible entry when filtering turns on.
    pub fn set_hidden(&mut self, show_hidden: bool)
        requires
            old(self).wf(),
        ensures
            *final(self) == DirPanel::spec_set_hidden(*old(self), show_hidden),
            final(self).wf(),
    {
        if self.show_hidden == show_hidden {
            return ;
        }
        if self.show_hidden && !show_hidden {
            self.set_non_hidden_idx();
            if self.non_hidden_idx < self.non_hidden.len() {
                self.selected_idx = self.non_hidden[self.non_hidden_idx];
                proof {
                    assert(self.nh()[self.non_hidden_idx as int] == self.non_hidden@[self.non_hidden_idx as int] as int);
                    lemma_nh_seq_valid(self.elements@);
                }
            } else {
                self.selected_idx = 0;
            }
        }
        self.show_hidden = show_hidden;
    }

    /// The merged panel: a fresh snapshot replaces the old one wholesale,
    /// inheriting the hidden-file setting, and — when it is a refresh of
    /// the same directory — re-resolving the previous selection by path.
    pub open spec fn spec_update_content(p: DirPanel, content: DirPanel) -> DirPanel {
        let c = DirPanel { show_hidden: p.show_hidden, ..content };
        if content.path@ == p.path@ && p.elements@.len() > 0 {
            DirPanel::spec_select_path(c, p.elements@[p.selected_idx as int].path@)
        } else {
            c
        }
    }

    /// Replaces the panel with freshly loaded content.
    pub fn update_content(&mut self, content: DirPanel)
        requires
            old(self).wf(),
            content.wf(),
        ensures
            *final(self) == DirPanel::spec_update_content(*old(self), content),
            final(self).wf(),
    {
        let mut c = content;
        c.show_hidden = self.show_hidden;
        if c.path == self.path {
            if self.selected_idx < self.elements.len() {
                let target = self.elements[self.selected_idx].path.clone();
                c.select_path(&target);
            }
        }
        *self = c;
    }

    /// Toggles the mark of the selected entry, if there is one.
    pub fn mark_selected_item(&mut self)
        requires
            old(self).wf(),
        ensures
            final(self).wf(),
            old(self).selected_idx < old(self).elements@.len() ==> final(self).elements@ == old(
                self,
            ).elements@.update(
                old(self).selected_idx as int,
                (DirElem {
                    is_marked: !old(self).elements@[old(self).selected_idx as int].is_marked,
                    ..old(self).elements@[old(self).selected_idx as int]
                }),
            ),
            old(self).selected_idx >= old(self).elements@.len() ==> *final(self) == *old(self),
            final(self).non_hidden == old(self).non_hidden,
            final(self).selected_idx == old(self).selected_idx,
            final(self).non_hidden_idx == old(self).non_hidden_idx,
            final(self).path == old(self).path,
            final(self).modified == old(self).modified,
            final(self).loading == old(self).loading,
            final(self).show_hidden == old(self).show_hidden,
            final(self).hash == old(self).hash,
    {
        let idx = self.selected_idx;
        if idx < self.elements.len() {
            let e = &mut self.elements[idx];
            let was = e.is_marked;
            e.is_marked = !was;
        }
        proof {
            if old(self).selected_idx < old(self).elements@.len() {
                assert forall|j: int|
                    0 <= j < old(self).elements@.len() implies old(
                    self,
                ).elements@[j].is_hidden == self.elements@[j].is_hidden by {}
                lemma_nh_seq_same_hidden(old(self).elements@, self.elements@);
            }
        }
    }
}

} // verus!

verus! {

/// Selection carry-over. Reloading the same directory re-selects the
/// previously selected entry when a visible entry still has its path; when
/// the entry is gone, the selection falls back to the fresh snapshot's own
/// default, and the merged panel is well formed either way.
pub proof fn lemma_selection_carry_over(p: DirPanel, content: DirPanel)
    requires
        p.wf(),
        content.wf(),
        content.path@ == p.path@,
        p.elements@.len() > 0,
    ensures
        ({
            let target = p.elements@[p.selected_idx as int].path@;
            let u = DirPanel::spec_update_content(p, content);
            &&& u.wf()
            &&& u.elements@ == content.elements@
            &&& (exists|i: int|
                0 <= i < content.elements@.len() && (p.show_hidden
                    || !content.elements@[i].is_hidden)
                    && content.elements@[i].path@ == target) ==> u.selected_idx
                < u.elements@.len() && u.elements@[u.selected_idx as int].path@ == target
            &&& !(exists|i: int|
                0 <= i < content.elements@.len() && (p.show_hidden
                    || !content.elements@[i].is_hidden)
                    && content.elements@[i].path@ == target) ==> u.selected_idx
                == content.selected_idx
        }),
{
    broadcast use vstd::std_specs::vec::axiom_spec_len;

    assert(vstd::std_specs::vec::spec_vec_len(&content.elements) == content.elements@.len());
    let target = p.elements@[p.selected_idx as int].path@;
    let c = DirPanel { show_hidden: p.show_hidden, ..content };
    let u = DirPanel::spec_update_content(p, content);
    lemma_find_from(c.elements@, c.show_hidden, target, 0);
    let f = find_from(c.elements@, c.show_hidden, target, 0);
    let hit = exists|i: int|
        0 <= i < content.elements@.len() && (p.show_hidden || !content.elements@[i].is_hidden)
            && content.elements@[i].path@ == target;
    if c.elements@.len() > 0 && c.elements@[c.selected_idx as int].path@ == target {
        assert(u == c);
        assert(u.wf());
        assert(u.elements@[u.selected_idx as int].path@ == target);
    } else {
        if hit {
            let i = choose|i: int|
                0 <= i < content.elements@.len() && (p.show_hidden
                    || !content.elements@[i].is_hidden) && content.elements@[i].path@ == target;
            assert(f != -1) by {
                if f == -1 {
                    assert(!((c.show_hidden || !c.elements@[i].is_hidden) && c.elements@[i].path@
                        == target));
                }
            }
        } else {
            assert(f == -1) by {
                if f != -1 {
                    assert((c.show_hidden || !c.elements@[f].is_hidden) && c.elements@[f].path@
                        == target);
                }
            }
        }
        let q = if f >= 0 {
            DirPanel { selected_idx: f as usize, ..c }
        } else {
            c
        };
        assert(q.wf());
        if c.show_hidden {
            assert(u == q);
        } else {
            assert(u == DirPanel::spec_resolve_nh_idx(q));
            if q.non_hidden@.len() > 0 {
                lemma_closest_from_range(q.nh(), q.selected_idx as int, 0);
            }
            assert(u.selected_idx == q.selected_idx);
        }
        assert(u.wf());
        if hit {
            assert(u.selected_idx == f as usize);
            assert(u.elements@[u.selected_idx as int].path@ == target);
        } else {
            assert(u.selected_idx == content.selected_idx);
        }
    }
}

/// Toggle-hidden consistency. Starting from a panel that shows hidden
/// files, filtering them out and showing them again never leaves the
/// cursor out of range; when the selected entry was itself non-hidden, the
/// round trip returns the cursor exactly to where it started, and
/// otherwise it lands on a visible entry.
pub proof fn lemma_toggle_hidden_round_trip(p: DirPanel)
    requires
        p.wf(),
        p.show_hidden,
    ensures
        ({
            let q = DirPanel::spec_set_hidden(DirPanel::spec_set_hidden(p, false), true);
            &&& q.wf()
            &&& q.show_hidden == p.show_hidden
            &&& q.elements@ == p.elements@
            &&& nh_seq(p.elements@).contains(p.selected_idx as int) ==> q.selected_idx
                == p.selected_idx
            &&& p.non_hidden@.len() > 0 ==> nh_seq(p.elements@).contains(q.selected_idx as int)
        }),
{
    broadcast use vstd::std_specs::vec::axiom_spec_len;

    lemma_nh_seq_valid(p.elements@);
    assert(vstd::std_specs::vec::spec_vec_len(&p.non_hidden) == p.non_hidden@.len());
    let q1 = DirPanel::spec_set_hidden(p, false);
    let q = DirPanel::spec_set_hidden(q1, true);
    if p.non_hidden@.len() == 0 {
        assert(q.selected_idx == 0);
    } else {
        let k = closest_from(p.nh(), p.selected_idx as int, 0);
        lemma_closest_from_range(p.nh(), p.selected_idx as int, 0);
        assert(q1.non_hidden_idx == k as usize);
        assert(q1.selected_idx == p.non_hidden@[k]);
        assert(p.nh()[k] == p.non_hidden@[k] as int);
        assert(nh_seq(p.elements@).contains(q.selected_idx as int)) by {
            assert(nh_seq(p.elements@)[k] == q.selected_idx as int);
        }
        if nh_seq(p.elements@).contains(p.selected_idx as int) {
            let pos = choose|j: int|
                0 <= j < nh_seq(p.elements@).len() && nh_seq(p.elements@)[j]
                    == p.selected_idx as int;
            lemma_closest_from_hits(p.nh(), pos, 0);
            assert(k == pos);
        }
    }
}

impl DirPanel {
    /// The viewport scroll offset: the row window is chosen so that the
    /// cursor sits near the vertical middle, pinned at the list ends.
    pub open spec fn spec_scroll(p: DirPanel, height: u16) -> int {
        let h = ((height as int) + 1) / 2;
        let bot = if p.show_hidden {
            vstd::math::min(p.elements@.len() as int, p.selected_idx + h)
        } else {
            vstd::math::min(p.non_hidden@.len() as int, p.non_hidden_idx + h) + 1
        };
        if bot >= height as int {
            bot - height as int
        } else {
            0int
        }
    }

    /// Computes how many leading rows to skip so the selection stays near
    /// mid-viewport.
    pub fn scroll_offset(&self, height: u16) -> (scroll: usize)
        requires
            self.wf(),
            self.elements@.len() < usize::MAX,
        ensures
            scroll == DirPanel::spec_scroll(*self, height),
    {
        let h = (height as usize + 1) / 2;
        let bot: usize = if self.show_hidden {
            let len = self.elements.len();
            if len - self.selected_idx <= h {
                len
            } else {
                self.selected_idx + h
            }
        } else {
            let len = self.non_hidden.len();
            proof {
                lemma_nh_seq_len(self.elements@);
            }
            let m = if len - self.non_hidden_idx <= h {
                len
            } else {
                self.non_hidden_idx + h
            };
            m + 1
        };
        if bot >= height as usize {
            bot - height as usize
        } else {
            0
        }
    }

    /// A borrow of the elements, in display order.
    pub fn elements(&self) -> (r: &Vec<DirElem>)
        ensures
            r == self.elements,
    {
        &self.elements
    }

    /// A mutable borrow of the elements; the panel afterwards holds
    /// whatever the caller left in the borrow.
    pub fn elements_mut(&mut self) -> (r: &mut Vec<DirElem>)
        ensures
            *r == old(self).elements,
            final(self).elements == *final(r),
            final(self).non_hidden == old(self).non_hidden,
            final(self).selected_idx == old(self).selected_idx,
            final(self).non_hidden_idx == old(self).non_hidden_idx,
            final(self).path == old(self).path,
            final(self).modified == old(self).modified,
            final(self).loading == old(self).loading,
            final(self).show_hidden == old(self).show_hidden,
            final(self).hash == old(self).hash,
    {
        &mut self.elements
    }

    pub fn show_hidden(&self) -> (r: bool)
        ensures
            r == self.show_hidden,
    {
        self.show_hidden
    }

    /// The path of the directory that the panel shows.
    pub fn path(&self) -> (r: &String)
        ensures
            r == self.path,
    {
        &self.path
    }

    /// The deterministic digest of the shown listing.
    pub fn content_hash(&self) -> (r: u64)
        ensures
            r == self.hash,
    {
        self.hash
    }

    /// The directory modification time the listing was read at.
    pub fn modified(&self) -> (r: u64)
        ensures
            r == self.modified,
    {
        self.modified
    }

    /// Whether the panel is a placeholder still waiting for its listing.
    pub fn is_loading(&self) -> (r: bool)
        ensures
            r == self.loading,
    {
        self.loading
    }

    /// A borrow of the selected entry, or `None` for an empty panel.
    pub fn selected(&self) -> (r: Option<&DirElem>)
        ensures
            match r {
                Some(e) => self.selected_idx < self.elements@.len() && *e
                    == self.elements@[self.selected_idx as int],
                None => self.selected_idx >= self.elements@.len(),
            },
    {
        if self.selected_idx < self.elements.len() {
            Some(&self.elements[self.selected_idx])
        } else {
            None
        }
    }

    /// The path of the selected entry, or `None` for an empty panel.
    pub fn selected_path(&self) -> (r: Option<&String>)
        ensures
            match r {
                Some(s) => self.selected_idx < self.elements@.len() && s
                    == self.elements@[self.selected_idx as int].path,
                None => self.selected_idx >= self.elements@.len(),
            },
    {
        match self.selected() {
            Some(e) => Some(&e.path),
            None => None,
        }
    }

    /// The path of the selected entry as an owned string.
    pub fn selected_path_owned(&self) -> (r: Option<String>)
        ensures
            match r {
                Some(s) => self.selected_idx < self.elements@.len() && s
                    == self.elements@[self.selected_idx as int].path,
                None => self.selected_idx >= self.elements@.len(),
            },
    {
        match self.selected_path() {
            Some(s) => Some(s.clone()),
            None => None,
        }
    }

    /// The cursor the user sees: the raw selection when hidden files are
    /// shown, the filtered cursor otherwise.
    pub fn index(&self) -> (r: usize)
        ensures
            r == if self.show_hidden {
                self.selected_idx
            } else {
                self.non_hidden_idx
            },
    {
        if self.show_hidden {
            self.selected_idx
        } else {
            self.non_hidden_idx
        }
    }

    /// The one-based cursor position and the total count of visible rows.
    pub fn index_vs_total(&self) -> (r: (usize, usize))
        requires
            self.wf(),
        ensures
            self.show_hidden ==> r == (((self.selected_idx + 1) as usize),
            (self.elements@.len() as usize)),
            !self.show_hidden ==> r == (((self.non_hidden_idx + 1) as usize),
            (self.non_hidden@.len() as usize)),
    {
        if self.show_hidden {
            let len = self.elements.len();
            (self.selected_idx + 1, len)
        } else {
            let len = self.non_hidden.len();
            (self.non_hidden_idx + 1, len)
        }
    }
}

} // verus!

verus! {

/// An owned elementwise copy of a listing, equal to the original.
pub fn duplicate_elements(v: &Vec<DirElem>) -> (r: Vec<DirElem>)
    ensures
        r@ == v@,
{
    let mut r: Vec<DirElem> = Vec::new();
    let mut i: usize = 0;
    while i < v.len()
        invariant
            i <= v@.len(),
            r@ == v@.take(i as int),
        decreases v@.len() - i,
    {
        r.push(v[i].duplicate());
        proof {
            assert(r@ =~= v@.take(i + 1));
        }
        i = i + 1;
    }
    proof {
        assert(v@.take(v@.len() as int) =~= v@);
    }
    r
}

/// An owned copy of a position vector, equal to the original.
pub fn duplicate_positions(v: &Vec<usize>) -> (r: Vec<usize>)
    ensures
        r@ == v@,
{
    let mut r: Vec<usize> = Vec::new();
    let mut i: usize = 0;
    while i < v.len()
        invariant
            i <= v@.len(),
            r@ == v@.take(i as int),
        decreases v@.len() - i,
    {
        r.push(v[i]);
        proof {
            assert(r@ =~= v@.take(i + 1));
        }
        i = i + 1;
    }
    proof {
        assert(v@.take(v@.len() as int) =~= v@);
    }
    r
}

/// Two panels that agree on every observable field.
pub open spec fn panel_like(a: DirPanel, b: DirPanel) -> bool {
    &&& a.elements@ == b.elements@
    &&& a.non_hidden@ == b.non_hidden@
    &&& a.selected_idx == b.selected_idx
    &&& a.non_hidden_idx == b.non_hidden_idx
    &&& a.path == b.path
    &&& a.modified == b.modified
    &&& a.loading == b.loading
    &&& a.show_hidden == b.show_hidden
    &&& a.hash == b.hash
}

impl DirPanel {
    /// An owned copy of the panel, agreeing with the original on every
    /// observable field.
    pub fn duplicate(&self) -> (r: DirPanel)
        ensures
            panel_like(r, *self),
    {
        DirPanel {
            elements: duplicate_elements(&self.elements),
            non_hidden: duplicate_positions(&self.non_hidden),
            selected_idx: self.selected_idx,
            non_hidden_idx: self.non_hidden_idx,
            path: self.path.clone(),
            modified: self.modified,
            loading: self.loading,
            show_hidden: self.show_hidden,
            hash: self.hash,
        }
    }
}

} // verus!
