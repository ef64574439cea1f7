//! Ordering of directory entries: directories sort before files, and
//! within each kind entries sort case-insensitively by name.

use vstd::multiset::Multiset;
use vstd::prelude::*;
use vstd::string::StrSliceExecFns;

use crate::entry::DirElem;

verus! {

/// Lexicographic order on character sequences: `a` is at or before `b`.
pub open spec fn lex_le(a: Seq<char>, b: Seq<char>) -> bool
    decreases a.len(),
{
    if a.len() == 0 {
        true
    } else if b.len() == 0 {
        false
    } else if a[0] != b[0] {
        a[0] < b[0]
    } else {
        lex_le(a.skip(1), b.skip(1))
    }
}

/// The order on entries: a directory comes before every file; two entries
/// of the same kind order by their lowercase names.
pub open spec fn elem_le(a: DirElem, b: DirElem) -> bool {
    if a.is_dir && !b.is_dir {
        true
    } else if !a.is_dir && b.is_dir {
        false
    } else {
        lex_le(a.lowercase@, b.lowercase@)
    }
}

/// A sequence of entries sorted by `elem_le`, pairwise.
pub open spec fn sorted_entries(s: Seq<DirElem>) -> bool {
    forall|i: int, j: int| 0 <= i < j < s.len() ==> elem_le(s[i], s[j])
}

pub proof fn lemma_lex_total(a: Seq<char>, b: Seq<char>)
    ensures
        lex_le(a, b) || lex_le(b, a),
    decreases a.len(),
{
    if a.len() == 0 || b.len() == 0 {
    } else if a[0] != b[0] {
    } else {
        lemma_lex_total(a.skip(1), b.skip(1));
    }
}

pub proof fn lemma_lex_trans(a: Seq<char>, b: Seq<char>, c: Seq<char>)
    requires
        lex_le(a, b),
        lex_le(b, c),
    ensures
        lex_le(a, c),
    decreases a.len(),
{
    if a.len() == 0 {
    } else if b.len() == 0 {
    } else if c.len() == 0 {
    } else if a[0] == b[0] && b[0] == c[0] {
        lemma_lex_trans(a.skip(1), b.skip(1), c.skip(1));
    }
}

pub proof fn lemma_elem_total(a: DirElem, b: DirElem)
    ensures
        elem_le(a, b) || elem_le(b, a),
{
    lemma_lex_total(a.lowercase@, b.lowercase@);
}

pub proof fn lemma_elem_trans(a: DirElem, b: DirElem, c: DirElem)
    requires
        elem_le(a, b),
        elem_le(b, c),
    ensures
        elem_le(a, c),
{
    if a.is_dir == b.is_dir && b.is_dir == c.is_dir {
        lemma_lex_trans(a.lowercase@, b.lowercase@, c.lowercase@);
    }
}

/// Decides the lexicographic order of two strings.
pub fn str_lex_le(a: &str, b: &str) -> (r: bool)
    ensures
        r == lex_le(a@, b@),
{
    let an = a.unicode_len();
    let bn = b.unicode_len();
    let mut i: usize = 0;
    proof {
        assert(a@.skip(0) =~= a@);
        assert(b@.skip(0) =~= b@);
    }
    loop
        invariant
            i <= an,
            i <= bn,
            an == a@.len(),
            bn == b@.len(),
            lex_le(a@, b@) == lex_le(a@.skip(i as int), b@.skip(i as int)),
        decreases an - i,
    {
        if i >= an {
            return true;
        }
        if i >= bn {
            return false;
        }
        let ca = a.get_char(i);
        let cb = b.get_char(i);
        proof {
            assert(a@.skip(i as int)[0] == a@[i as int]);
            assert(b@.skip(i as int)[0] == b@[i as int]);
        }
        if ca != cb {
            return ca < cb;
        }
        proof {
            assert(a@.skip(i as int).skip(1) =~= a@.skip(i + 1));
            assert(b@.skip(i as int).skip(1) =~= b@.skip(i + 1));
        }
        i = i + 1;
    }
}

/// Decides the entry order: directories first, then case-insensitive names.
pub fn elem_le_exec(a: &DirElem, b: &DirElem) -> (r: bool)
    ensures
        r == elem_le(*a, *b),
{
    if a.is_dir && !b.is_dir {
        true
    } else if !a.is_dir && b.is_dir {
        false
    } else {
        str_lex_le(a.lowercase.as_str(), b.lowercase.as_str())
    }
}

/// Sorts a listing in place into display order: all directories precede
/// all files, and within each kind names compare case-insensitively
/// non-decreasing. The result is a permutation of the input.
pub fn sort_entries(v: &mut Vec<DirElem>)
    ensures
        sorted_entries(final(v)@),
        final(v)@.to_multiset() == old(v)@.to_multiset(),
        final(v)@.len() == old(v)@.len(),
{
    if v.len() <= 1 {
        return ;
    }
    let mut i: usize = 1;
    while i < v.len()
        invariant
            1 <= i <= v@.len(),
            v@.len() == old(v)@.len(),
            v@.to_multiset() == old(v)@.to_multiset(),
            sorted_entries(v@.take(i as int)),
        decreases v@.len() - i,
    {
        let ghost w = v@;
        let e = v.remove(i);
        proof {
            vstd::seq_lib::to_multiset_remove(w, i as int);
            assert(v@.take(i as int) =~= w.take(i as int));
        }
        // Find the first position in the sorted prefix whose element
        // does not precede `e`.
        let mut pos: usize = 0;
        while pos < i && elem_le_exec(&v[pos], &e)
            invariant
                pos <= i <= v@.len() + 1,
                i - 1 < v@.len(),
                v@ == w.remove(i as int),
                forall|k: int| 0 <= k < pos ==> elem_le(v@[k], e),
            decreases i - pos,
        {
            pos = pos + 1;
        }
        proof {
            if pos < i {
                lemma_elem_total(v@[pos as int], e);
                assert(elem_le(e, v@[pos as int]));
            }
        }
        let ghost before = v@;
        v.insert(pos, e);
        proof {
            // The sorted prefix grows by one.
            assert(v@ =~= before.insert(pos as int, e));
            assert(v@.take(i + 1) =~= before.take(i as int).insert(pos as int, e));
            let p = before.take(i as int);
            let q = v@.take(i + 1);
            assert forall|a: int, b: int| 0 <= a < b < q.len() implies elem_le(q[a], q[b]) by {
                if a < pos && b == pos {
                } else if a == pos && b == pos + 1 {
                    assert(elem_le(e, p[pos as int]));
                } else if a == pos && b > pos + 1 {
                    lemma_elem_trans(e, p[pos as int], p[b - 1]);
                } else if a < pos && b > pos {
                    assert(elem_le(p[a], p[b - 1]));
                } else if a > pos && b > pos {
                    assert(elem_le(p[a - 1], p[b - 1]));
                }
            }
            // Removing at `i` and reinserting keeps the contents.
            vstd::seq_lib::to_multiset_insert(before, pos as int, e);
            assert(v@.to_multiset() =~= old(v)@.to_multiset()) by {
                broadcast use vstd::multiset::group_multiset_axioms;

                assert(w.to_multiset().contains(e)) by {
                    vstd::seq_lib::to_multiset_contains(w, e);
                    assert(w[i as int] == e);
                }
            }
        }
        i = i + 1;
    }
    proof {
        assert(v@.take(v@.len() as int) =~= v@);
    }
}

} // verus!
