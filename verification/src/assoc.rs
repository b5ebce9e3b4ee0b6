//! Association sequences: sequences of `(key, value)` pairs with unique keys.
//!
//! The store keeps each entity's component, and the registry keeps each
//! registered type's dispatch mode, as such a sequence.  The lemmas here say
//! how key lookup behaves under the updates the rest of the crate performs.

use vstd::prelude::*;

verus! {

/// No two pairs share a key.
pub open spec fn unique_keys<T>(s: Seq<(u64, T)>) -> bool {
    forall|i: int, j: int| 0 <= i < j < s.len() ==> (#[trigger] s[i]).0 != (#[trigger] s[j]).0
}

/// Some pair carries the key `k`.
pub open spec fn key_in<T>(s: Seq<(u64, T)>, k: u64) -> bool {
    exists|i: int| 0 <= i < s.len() && (#[trigger] s[i]).0 == k
}

/// The position of the pair carrying `k` (meaningful when `key_in` holds
/// and the keys are unique).
pub open spec fn key_idx<T>(s: Seq<(u64, T)>, k: u64) -> int {
    choose|i: int| 0 <= i < s.len() && (#[trigger] s[i]).0 == k
}

/// The value stored under `k`.
pub open spec fn val_of<T>(s: Seq<(u64, T)>, k: u64) -> T {
    s[key_idx(s, k)].1
}

/// With unique keys, the pair at any position is the one its key looks up.
pub proof fn lemma_at<T>(s: Seq<(u64, T)>, j: int)
    requires
        unique_keys(s),
        0 <= j < s.len(),
    ensures
        key_in(s, s[j].0),
        key_idx(s, s[j].0) == j,
        val_of(s, s[j].0) == s[j].1,
{
    assert(key_in(s, s[j].0));
    let i = key_idx(s, s[j].0);
    assert(0 <= i < s.len() && s[i].0 == s[j].0);
    if i != j {
        if i < j {
            assert(s[i].0 != s[j].0);
        } else {
            assert(s[j].0 != s[i].0);
        }
    }
}

/// Removing the pair at position `i` removes exactly its key.
pub proof fn lemma_remove<T>(s: Seq<(u64, T)>, i: int)
    requires
        unique_keys(s),
        0 <= i < s.len(),
    ensures
        unique_keys(s.remove(i)),
        !key_in(s.remove(i), s[i].0),
        forall|k: u64|
            k != s[i].0 ==> (key_in(s.remove(i), k) <==> #[trigger] key_in(s, k)),
        forall|k: u64|
            k != s[i].0 && #[trigger] key_in(s, k) ==> val_of(s.remove(i), k) == val_of(s, k),
{
    let r = s.remove(i);
    assert forall|p: int, q: int| 0 <= p < q < r.len() implies (#[trigger] r[p]).0
        != (#[trigger] r[q]).0 by {
        let p0 = if p < i { p } else { p + 1 };
        let q0 = if q < i { q } else { q + 1 };
        assert(r[p] == s[p0]);
        assert(r[q] == s[q0]);
    }
    assert forall|j: int| 0 <= j < r.len() implies (#[trigger] r[j]).0 != s[i].0 by {
        let j0 = if j < i { j } else { j + 1 };
        assert(r[j] == s[j0]);
    }
    assert forall|k: u64| k != s[i].0 && #[trigger] key_in(s, k) implies key_in(r, k)
        && val_of(r, k) == val_of(s, k) by {
        let j = key_idx(s, k);
        lemma_at(s, j);
        let j1 = if j < i { j } else { j - 1 };
        assert(r[j1] == s[j]);
        lemma_at(r, j1);
    }
    assert forall|k: u64| k != s[i].0 && #[trigger] key_in(r, k) implies key_in(s, k) by {
        let j = choose|j: int| 0 <= j < r.len() && (#[trigger] r[j]).0 == k;
        let j0 = if j < i { j } else { j + 1 };
        assert(r[j] == s[j0]);
    }
}

/// Replacing the pair at position `i` by one with the same key updates
/// exactly that key's value.
pub proof fn lemma_update<T>(s: Seq<(u64, T)>, i: int, p: (u64, T))
    requires
        unique_keys(s),
        0 <= i < s.len(),
        p.0 == s[i].0,
    ensures
        unique_keys(s.update(i, p)),
        key_in(s.update(i, p), p.0),
        val_of(s.update(i, p), p.0) == p.1,
        forall|k: u64| key_in(s.update(i, p), k) <==> #[trigger] key_in(s, k),
        forall|k: u64|
            k != p.0 && #[trigger] key_in(s, k) ==> val_of(s.update(i, p), k) == val_of(s, k),
{
    let u = s.update(i, p);
    assert(forall|j: int| 0 <= j < u.len() ==> (#[trigger] u[j]).0 == s[j].0);
    lemma_at(u, i);
    assert forall|k: u64| k != p.0 && #[trigger] key_in(s, k) implies key_in(u, k)
        && val_of(u, k) == val_of(s, k) by {
        let j = key_idx(s, k);
        lemma_at(s, j);
        assert(u[j] == s[j]);
        lemma_at(u, j);
    }
    assert forall|k: u64| #[trigger] key_in(u, k) implies key_in(s, k) by {
        let j = choose|j: int| 0 <= j < u.len() && (#[trigger] u[j]).0 == k;
        assert(s[j].0 == k);
    }
}

/// Appending a pair with a fresh key adds exactly that key.
pub proof fn lemma_push<T>(s: Seq<(u64, T)>, p: (u64, T))
    requires
        unique_keys(s),
        !key_in(s, p.0),
    ensures
        unique_keys(s.push(p)),
        key_in(s.push(p), p.0),
        val_of(s.push(p), p.0) == p.1,
        forall|k: u64|
            k != p.0 ==> (key_in(s.push(p), k) <==> #[trigger] key_in(s, k)),
        forall|k: u64|
            k != p.0 && #[trigger] key_in(s, k) ==> val_of(s.push(p), k) == val_of(s, k),
{
    let u = s.push(p);
    assert(forall|j: int| 0 <= j < s.len() ==> #[trigger] u[j] == s[j]);
    assert(u[s.len() as int] == p);
    assert forall|i: int, j: int| 0 <= i < j < u.len() implies (#[trigger] u[i]).0
        != (#[trigger] u[j]).0 by {
        if j == s.len() {
            assert(u[i] == s[i]);
            if u[i].0 == p.0 {
                assert(key_in(s, p.0));
            }
        }
    }
    lemma_at(u, s.len() as int);
    assert forall|k: u64| k != p.0 && #[trigger] key_in(s, k) implies key_in(u, k)
        && val_of(u, k) == val_of(s, k) by {
        let j = key_idx(s, k);
        lemma_at(s, j);
        lemma_at(u, j);
    }
    assert forall|k: u64| k != p.0 && #[trigger] key_in(u, k) implies key_in(s, k) by {
        let j = choose|j: int| 0 <= j < u.len() && (#[trigger] u[j]).0 == k;
        assert(j != s.len());
        assert(u[j] == s[j]);
    }
}

} // verus!
