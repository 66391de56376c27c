//! Association lists keyed by `u64`, with unique keys.
//!
//! The accountants store their per-account records as vectors of
//! key/value pairs. This module gives the common specification vocabulary
//! (first-match lookup, key uniqueness) and the lemmas that relate lookup
//! to indexed reads and to updates of the underlying sequence.

use vstd::prelude::*;

verus! {

/// First-match lookup.
pub open spec fn alist_lookup<V>(s: Seq<(u64, V)>, key: u64) -> Option<V>
    decreases s.len(),
{
    if s.len() == 0 {
        None
    } else if s[0].0 == key {
        Some(s[0].1)
    } else {
        alist_lookup(s.drop_first(), key)
    }
}

/// Whether some entry carries `key`.
pub open spec fn alist_has<V>(s: Seq<(u64, V)>, key: u64) -> bool {
    exists|i: int| 0 <= i < s.len() && (#[trigger] s[i]).0 == key
}

/// No two entries carry the same key.
pub open spec fn alist_unique<V>(s: Seq<(u64, V)>) -> bool {
    forall|i: int, j: int|
        0 <= i < s.len() && 0 <= j < s.len() && (#[trigger] s[i]).0 == (#[trigger] s[j]).0 ==> i
            == j
}

pub proof fn lemma_unique_drop_first<V>(s: Seq<(u64, V)>)
    requires
        alist_unique(s),
        s.len() > 0,
    ensures
        alist_unique(s.drop_first()),
{
    assert forall|i: int, j: int|
        0 <= i < s.drop_first().len() && 0 <= j < s.drop_first().len()
            && (#[trigger] s.drop_first()[i]).0 == (#[trigger] s.drop_first()[j]).0 implies i
        == j by {
        assert(s.drop_first()[i] == s[i + 1]);
        assert(s.drop_first()[j] == s[j + 1]);
    }
}

/// With unique keys, lookup of the key found at index `i` yields that entry.
pub proof fn lemma_lookup_at_index<V>(s: Seq<(u64, V)>, key: u64, i: int)
    requires
        alist_unique(s),
        0 <= i < s.len(),
        s[i].0 == key,
    ensures
        alist_lookup(s, key) == Some(s[i].1),
    decreases s.len(),
{
    if i == 0 {
    } else {
        assert(s[0].0 != key);
        lemma_unique_drop_first(s);
        assert(s.drop_first()[i - 1] == s[i]);
        lemma_lookup_at_index(s.drop_first(), key, i - 1);
    }
}

/// Lookup succeeds exactly on present keys.
pub proof fn lemma_lookup_has<V>(s: Seq<(u64, V)>, key: u64)
    ensures
        alist_lookup(s, key) is Some <==> alist_has(s, key),
    decreases s.len(),
{
    if s.len() == 0 {
    } else if s[0].0 == key {
    } else {
        lemma_lookup_has(s.drop_first(), key);
        if alist_has(s.drop_first(), key) {
            let j = choose|j: int|
                0 <= j < s.drop_first().len() && (#[trigger] s.drop_first()[j]).0 == key;
            assert(s[j + 1] == s.drop_first()[j]);
        } else if alist_has(s, key) {
            let j = choose|j: int| 0 <= j < s.len() && (#[trigger] s[j]).0 == key;
            assert(s.drop_first()[j - 1] == s[j]);
        }
    }
}

/// A successful lookup names an index holding exactly that entry.
pub proof fn lemma_lookup_index_of<V>(s: Seq<(u64, V)>, key: u64)
    requires
        alist_lookup(s, key) is Some,
    ensures
        exists|i: int|
            0 <= i < s.len() && #[trigger] s[i] == (key, alist_lookup(s, key).unwrap()),
    decreases s.len(),
{
    if s.len() == 0 {
    } else if s[0].0 == key {
        assert(s[0] == (key, alist_lookup(s, key).unwrap()));
    } else {
        lemma_lookup_index_of(s.drop_first(), key);
        let i = choose|i: int|
            0 <= i < s.drop_first().len() && #[trigger] s.drop_first()[i] == (
            key,
            alist_lookup(s.drop_first(), key).unwrap(),
            );
        assert(s[i + 1] == s.drop_first()[i]);
    }
}

/// Updating an entry in place, keeping its key, preserves uniqueness.
pub proof fn lemma_unique_update<V>(s: Seq<(u64, V)>, i: int, e: (u64, V))
    requires
        alist_unique(s),
        0 <= i < s.len(),
        s[i].0 == e.0,
    ensures
        alist_unique(s.update(i, e)),
{
    let t = s.update(i, e);
    assert forall|p: int, q: int|
        0 <= p < t.len() && 0 <= q < t.len() && (#[trigger] t[p]).0 == (#[trigger] t[q]).0 implies p
        == q by {
        assert(t[p].0 == s[p].0);
        assert(t[q].0 == s[q].0);
    }
}

/// Appending a fresh key preserves uniqueness.
pub proof fn lemma_unique_push<V>(s: Seq<(u64, V)>, e: (u64, V))
    requires
        alist_unique(s),
        !alist_has(s, e.0),
    ensures
        alist_unique(s.push(e)),
{
    let t = s.push(e);
    assert forall|p: int, q: int|
        0 <= p < t.len() && 0 <= q < t.len() && (#[trigger] t[p]).0 == (#[trigger] t[q]).0 implies p
        == q by {
        if p < s.len() && q < s.len() {
            assert(t[p] == s[p]);
            assert(t[q] == s[q]);
        } else if p < s.len() {
            assert(t[p] == s[p]);
            assert(!alist_has(s, e.0));
        } else if q < s.len() {
            assert(t[q] == s[q]);
            assert(!alist_has(s, e.0));
        }
    }
}

/// Removing an entry preserves uniqueness.
pub proof fn lemma_unique_remove<V>(s: Seq<(u64, V)>, i: int)
    requires
        alist_unique(s),
        0 <= i < s.len(),
    ensures
        alist_unique(s.remove(i)),
{
    let t = s.remove(i);
    assert forall|p: int, q: int|
        0 <= p < t.len() && 0 <= q < t.len() && (#[trigger] t[p]).0 == (#[trigger] t[q]).0 implies p
        == q by {
        let p0: int = if p < i {
            p
        } else {
            p + 1
        };
        let q0: int = if q < i {
            q
        } else {
            q + 1
        };
        assert(t[p] == s[p0]);
        assert(t[q] == s[q0]);
    }
}

/// After an in-place update, lookups see the new entry at its key and the
/// old entries elsewhere.
pub proof fn lemma_lookup_update<V>(s: Seq<(u64, V)>, i: int, e: (u64, V), key: u64)
    requires
        alist_unique(s),
        0 <= i < s.len(),
        s[i].0 == e.0,
    ensures
        alist_lookup(s.update(i, e), key) == if key == e.0 {
            Some(e.1)
        } else {
            alist_lookup(s, key)
        },
{
    let t = s.update(i, e);
    lemma_unique_update(s, i, e);
    if key == e.0 {
        lemma_lookup_at_index(t, key, i);
    } else {
        lemma_lookup_has(s, key);
        lemma_lookup_has(t, key);
        if alist_has(s, key) {
            let j = choose|j: int| 0 <= j < s.len() && (#[trigger] s[j]).0 == key;
            assert(j != i);
            assert(t[j] == s[j]);
            lemma_lookup_at_index(s, key, j);
            lemma_lookup_at_index(t, key, j);
        } else {
            assert forall|j: int| 0 <= j < t.len() implies (#[trigger] t[j]).0 != key by {
                if j != i {
                    assert(t[j] == s[j]);
                }
            }
        }
    }
}

/// After appending a fresh key, lookups see the new entry at its key and the
/// old entries elsewhere.
pub proof fn lemma_lookup_push<V>(s: Seq<(u64, V)>, e: (u64, V), key: u64)
    requires
        alist_unique(s),
        !alist_has(s, e.0),
    ensures
        alist_lookup(s.push(e), key) == if key == e.0 {
            Some(e.1)
        } else {
            alist_lookup(s, key)
        },
{
    let t = s.push(e);
    lemma_unique_push(s, e);
    if key == e.0 {
        lemma_lookup_at_index(t, key, s.len() as int);
    } else {
        lemma_lookup_has(s, key);
        lemma_lookup_has(t, key);
        if alist_has(s, key) {
            let j = choose|j: int| 0 <= j < s.len() && (#[trigger] s[j]).0 == key;
            assert(t[j] == s[j]);
            lemma_lookup_at_index(s, key, j);
            lemma_lookup_at_index(t, key, j);
        } else {
            assert forall|j: int| 0 <= j < t.len() implies (#[trigger] t[j]).0 != key by {
                if j < s.len() {
                    assert(t[j] == s[j]);
                }
            }
        }
    }
}

/// After removing an entry, lookups no longer see its key and see the old
/// entries elsewhere.
pub proof fn lemma_lookup_remove<V>(s: Seq<(u64, V)>, i: int, key: u64)
    requires
        alist_unique(s),
        0 <= i < s.len(),
    ensures
        alist_lookup(s.remove(i), key) == if key == s[i].0 {
            None::<V>
        } else {
            alist_lookup(s, key)
        },
{
    let t = s.remove(i);
    lemma_unique_remove(s, i);
    if key == s[i].0 {
        assert forall|j: int| 0 <= j < t.len() implies (#[trigger] t[j]).0 != key by {
            let j0: int = if j < i {
                j
            } else {
                j + 1
            };
            assert(t[j] == s[j0]);
        }
        lemma_lookup_has(t, key);
        if alist_lookup(t, key) is Some {
            assert(alist_has(t, key));
        }
    } else {
        lemma_lookup_has(s, key);
        lemma_lookup_has(t, key);
        if alist_has(s, key) {
            let j = choose|j: int| 0 <= j < s.len() && (#[trigger] s[j]).0 == key;
            assert(j != i);
            let j1: int = if j < i {
                j
            } else {
                j - 1
            };
            assert(t[j1] == s[j]);
            lemma_lookup_at_index(s, key, j);
            lemma_lookup_at_index(t, key, j1);
        } else {
            assert forall|j: int| 0 <= j < t.len() implies (#[trigger] t[j]).0 != key by {
                let j0: int = if j < i {
                    j
                } else {
                    j + 1
                };
                assert(t[j] == s[j0]);
            }
            lemma_lookup_has(t, key);
            if alist_lookup(t, key) is Some {
                assert(alist_has(t, key));
            }
        }
    }
}

/// Position of the entry carrying `key`, if any.
pub fn alist_find<V>(v: &Vec<(u64, V)>, key: u64) -> (r: Option<usize>)
    ensures
        match r {
            Some(i) => i < v@.len() && v@[i as int].0 == key,
            None => !alist_has(v@, key),
        },
{
    let mut i: usize = 0;
    while i < v.len()
        invariant
            i <= v@.len(),
            forall|j: int| 0 <= j < i ==> (#[trigger] v@[j]).0 != key,
        decreases v@.len() - i,
    {
        if v[i].0 == key {
            return Some(i);
        }
        i = i + 1;
    }
    None
}

} // verus!
