//! Entity identifiers and helpers for duplicate-free id sequences.
//!
//! An entity is an opaque, stable identifier into the store; this crate only
//! references entities, it does not own them.  The store and the detector
//! keep their id collections free of duplicates, which is what lets the
//! dispatchers promise "exactly one callback per transition".

use vstd::prelude::*;

verus! {

/// An entity identifier.
pub type Entity = u64;

/// The sequence holds no id twice.
pub open spec fn no_dups(s: Seq<u64>) -> bool {
    forall|i: int, j: int| 0 <= i < j < s.len() ==> s[i] != s[j]
}

/// Whether `ids` holds `e`.
pub fn contains_id(ids: &Vec<u64>, e: u64) -> (r: bool)
    ensures
        r == ids@.contains(e),
{
    let mut k: usize = 0;
    while k < ids.len()
        invariant
            k <= ids@.len(),
            forall|j: int| 0 <= j < k ==> ids@[j] != e,
        decreases ids@.len() - k,
    {
        if ids[k] == e {
            return true;
        }
        k += 1;
    }
    false
}

/// Remove `e` from a duplicate-free id sequence, if present.
pub fn remove_id(ids: &mut Vec<u64>, e: u64)
    requires
        no_dups(old(ids)@),
    ensures
        no_dups(final(ids)@),
        forall|x: u64| final(ids)@.contains(x) <==> (old(ids)@.contains(x) && x != e),
{
    let ghost pre = ids@;
    let mut k: usize = 0;
    while k < ids.len()
        invariant
            no_dups(pre),
            ids@ == pre,
            old(ids)@ == pre,
            k <= pre.len(),
            forall|j: int| 0 <= j < k ==> pre[j] != e,
        decreases pre.len() - k,
    {
        if ids[k] == e {
            ids.remove(k);
            proof {
                lemma_remove_unique(pre, k as int);
            }
            return ;
        }
        k += 1;
    }
    assert(!pre.contains(e));
}

/// Appending an id adds exactly that id.
pub proof fn lemma_push_contains(s: Seq<u64>, e: u64)
    ensures
        forall|x: u64| s.push(e).contains(x) <==> (s.contains(x) || x == e),
{
    assert forall|x: u64| s.push(e).contains(x) implies (s.contains(x) || x == e) by {
        let j = choose|j: int| 0 <= j < s.push(e).len() && s.push(e)[j] == x;
        if j < s.len() {
            assert(s[j] == x);
        }
    }
    assert forall|x: u64| s.contains(x) implies s.push(e).contains(x) by {
        let j = choose|j: int| 0 <= j < s.len() && s[j] == x;
        assert(s.push(e)[j] == x);
    }
    assert(s.push(e)[s.len() as int] == e);
}

/// Appending a fresh id keeps the sequence duplicate-free.
pub proof fn lemma_push_no_dups(s: Seq<u64>, e: u64)
    requires
        no_dups(s),
        !s.contains(e),
    ensures
        no_dups(s.push(e)),
{
    assert forall|i: int, j: int| 0 <= i < j < s.push(e).len() implies s.push(e)[i] != s.push(
        e,
    )[j] by {
        assert(s.push(e)[i] == s[i]);
        if j == s.len() {
            if s[i] == e {
                assert(s.contains(e));
            }
        } else {
            assert(s.push(e)[j] == s[j]);
        }
    }
}

/// Removing position `i` from a duplicate-free sequence removes exactly
/// the id that stood there.
pub proof fn lemma_remove_unique(s: Seq<u64>, i: int)
    requires
        no_dups(s),
        0 <= i < s.len(),
    ensures
        no_dups(s.remove(i)),
        forall|x: u64| s.remove(i).contains(x) <==> (s.contains(x) && x != s[i]),
{
    let r = s.remove(i);
    assert forall|p: int, q: int| 0 <= p < q < r.len() implies r[p] != r[q] by {
        let p0 = if p < i { p } else { p + 1 };
        let q0 = if q < i { q } else { q + 1 };
        assert(r[p] == s[p0]);
        assert(r[q] == s[q0]);
    }
    assert forall|x: u64| r.contains(x) implies s.contains(x) && x != s[i] by {
        let j = choose|j: int| 0 <= j < r.len() && r[j] == x;
        let j0 = if j < i { j } else { j + 1 };
        assert(r[j] == s[j0]);
        assert(s[j0] == x);
    }
    assert forall|x: u64| s.contains(x) && x != s[i] implies r.contains(x) by {
        let j = choose|j: int| 0 <= j < s.len() && s[j] == x;
        let j1 = if j < i { j } else { j - 1 };
        assert(r[j1] == s[j]);
    }
}

} // verus!
