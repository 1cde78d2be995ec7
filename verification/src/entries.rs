//! The model of an insertion-ordered map keyed by `u32`: a sequence of
//! key-value pairs in insertion order, where a lookup finds the first pair
//! with the key.
use vstd::prelude::*;

verus! {

/// The position of the first occurrence of `k` in `keys`, or -1.
pub open spec fn first_index(keys: Seq<u32>, k: u32) -> int
    decreases keys.len(),
{
    if keys.len() == 0 {
        -1
    } else {
        let p = first_index(keys.drop_last(), k);
        if p >= 0 {
            p
        } else if keys.last() == k {
            keys.len() - 1
        } else {
            -1
        }
    }
}

/// The keys of an entry sequence, in order.
pub open spec fn keys_of<V>(entries: Seq<(u32, V)>) -> Seq<u32> {
    entries.map_values(|p: (u32, V)| p.0)
}

/// The position of the entry for key `k`, or -1 when there is none.
pub open spec fn index_of<V>(entries: Seq<(u32, V)>, k: u32) -> int {
    first_index(keys_of(entries), k)
}

/// The value stored under `k`.
pub open spec fn lookup<V>(entries: Seq<(u32, V)>, k: u32) -> Option<V> {
    let i = index_of(entries, k);
    if 0 <= i < entries.len() {
        Some(entries[i].1)
    } else {
        None
    }
}

/// The entries after storing `v` under `k`: an existing key keeps its place
/// and gets the new value, a new key goes last.
pub open spec fn inserted<V>(entries: Seq<(u32, V)>, k: u32, v: V) -> Seq<(u32, V)> {
    let i = index_of(entries, k);
    if 0 <= i < entries.len() {
        entries.update(i, (k, v))
    } else {
        entries.push((k, v))
    }
}

pub proof fn lemma_first_index(keys: Seq<u32>, k: u32)
    ensures
        -1 <= first_index(keys, k) < keys.len(),
        first_index(keys, k) >= 0 ==> keys[first_index(keys, k)] == k,
        forall|j: int| 0 <= j < first_index(keys, k) ==> keys[j] != k,
        first_index(keys, k) == -1 ==> forall|j: int| 0 <= j < keys.len() ==> keys[j] != k,
    decreases keys.len(),
{
    if keys.len() > 0 {
        let d = keys.drop_last();
        lemma_first_index(d, k);
        assert forall|j: int| 0 <= j < d.len() implies #[trigger] d[j] == keys[j] by {}
        let r = first_index(keys, k);
        let p = first_index(d, k);
        if p >= 0 {
            assert(r == p);
            assert(keys[r] == d[r]);
            assert forall|j: int| 0 <= j < r implies keys[j] != k by {
                assert(d[j] == keys[j]);
            }
        } else if keys.last() == k {
            assert(r == keys.len() - 1);
            assert forall|j: int| 0 <= j < r implies keys[j] != k by {
                assert(d[j] == keys[j]);
            }
        } else {
            assert(r == -1);
            assert forall|j: int| 0 <= j < keys.len() implies keys[j] != k by {
                if j < d.len() {
                    assert(d[j] == keys[j]);
                }
            }
        }
    }
}

/// Facts about the position of a key in an entry sequence.
pub proof fn lemma_index_of<V>(entries: Seq<(u32, V)>, k: u32)
    ensures
        -1 <= index_of(entries, k) < entries.len(),
        index_of(entries, k) >= 0 ==> entries[index_of(entries, k)].0 == k,
        forall|j: int| 0 <= j < index_of(entries, k) ==> entries[j].0 != k,
        index_of(entries, k) == -1 <==> forall|j: int|
            0 <= j < entries.len() ==> entries[j].0 != k,
        lookup(entries, k) is Some <==> index_of(entries, k) >= 0,
{
    lemma_first_index(keys_of(entries), k);
    let keys = keys_of(entries);
    assert(keys.len() == entries.len());
    assert forall|j: int| 0 <= j < entries.len() implies keys[j] == #[trigger] entries[j].0 by {}
}

/// Replacing the value at a position, with its key unchanged, moves no key.
pub proof fn lemma_index_of_value_update<V>(entries: Seq<(u32, V)>, i: int, v: V, k: u32)
    requires
        0 <= i < entries.len(),
    ensures
        index_of(entries.update(i, (entries[i].0, v)), k) == index_of(entries, k),
{
    assert(keys_of(entries.update(i, (entries[i].0, v))) =~= keys_of(entries));
}

/// A key that is present is found at the position where it was stored.
pub proof fn lemma_lookup_value_update<V>(entries: Seq<(u32, V)>, i: int, v: V, k: u32)
    requires
        0 <= i < entries.len(),
    ensures
        lookup(entries.update(i, (entries[i].0, v)), k) == if index_of(entries, k) == i {
            Some(v)
        } else {
            lookup(entries, k)
        },
{
    lemma_index_of_value_update(entries, i, v, k);
    lemma_index_of(entries, k);
}

/// What a lookup gives back after an insertion.
pub proof fn lemma_lookup_inserted<V>(entries: Seq<(u32, V)>, k: u32, v: V, k2: u32)
    ensures
        lookup(inserted(entries, k, v), k2) == if k2 == k {
            Some(v)
        } else {
            lookup(entries, k2)
        },
        inserted(entries, k, v).len() == if lookup(entries, k) is Some {
            entries.len()
        } else {
            entries.len() + 1
        },
{
    lemma_index_of(entries, k);
    lemma_index_of(entries, k2);
    let i = index_of(entries, k);
    if 0 <= i < entries.len() {
        lemma_index_of_value_update(entries, i, v, k2);
    } else {
        let e2 = entries.push((k, v));
        assert(keys_of(e2) =~= keys_of(entries).push(k));
        assert(keys_of(e2).drop_last() =~= keys_of(entries));
        lemma_index_of(e2, k2);
    }
}

} // verus!
