//! Name-keyed tables kept as vectors of (name, value) pairs.
//!
//! A lookup finds the first entry whose name matches; an insertion replaces
//! that entry, or appends a new one when the name is absent.
use vstd::prelude::*;

use crate::text::str_eq;

verus! {

/// Position of the first occurrence of `k` in `keys`, or -1.
pub open spec fn index_of(keys: Seq<Seq<char>>, k: Seq<char>) -> int
    decreases keys.len(),
{
    if keys.len() == 0 {
        -1
    } else if keys[0] == k {
        0
    } else {
        let r = index_of(keys.drop_first(), k);
        if r < 0 { -1 } else { r + 1 }
    }
}

/// The names of a table of exec entries.
pub open spec fn names_of<V>(m: Seq<(String, V)>) -> Seq<Seq<char>> {
    m.map_values(|p: (String, V)| p.0@)
}

/// The names of a table of spec entries.
pub open spec fn keys_of<V>(m: Seq<(Seq<char>, V)>) -> Seq<Seq<char>> {
    m.map_values(|p: (Seq<char>, V)| p.0)
}

/// The value stored under `k` in a spec table.
pub open spec fn map_get<V>(m: Seq<(Seq<char>, V)>, k: Seq<char>) -> Option<V> {
    let i = index_of(keys_of(m), k);
    if i < 0 { None } else { Some(m[i].1) }
}

/// The entry stored under `k` in an exec table.
pub open spec fn entry_get<V>(m: Seq<(String, V)>, k: Seq<char>) -> Option<V> {
    let i = index_of(names_of(m), k);
    if i < 0 { None } else { Some(m[i].1) }
}

/// A spec table after storing `v` under `k`.
pub open spec fn map_put<V>(m: Seq<(Seq<char>, V)>, k: Seq<char>, v: V) -> Seq<(Seq<char>, V)> {
    let i = index_of(keys_of(m), k);
    if i < 0 { m.push((k, v)) } else { m.update(i, (k, v)) }
}

/// `index_of` gives a position whose key is `k`, and no earlier position has it.
pub proof fn lemma_index_of(keys: Seq<Seq<char>>, k: Seq<char>)
    ensures
        -1 <= index_of(keys, k) < keys.len(),
        index_of(keys, k) >= 0 ==> keys[index_of(keys, k)] == k,
        forall|j: int| 0 <= j < index_of(keys, k) ==> keys[j] != k,
        index_of(keys, k) < 0 ==> forall|j: int| 0 <= j < keys.len() ==> keys[j] != k,
    decreases keys.len(),
{
    if keys.len() > 0 && keys[0] != k {
        lemma_index_of(keys.drop_first(), k);
        assert forall|j: int| 0 <= j < index_of(keys, k) implies keys[j] != k by {
            if j > 0 {
                assert(keys[j] == keys.drop_first()[j - 1]);
            }
        }
        if index_of(keys, k) < 0 {
            assert forall|j: int| 0 <= j < keys.len() implies keys[j] != k by {
                if j > 0 {
                    assert(keys[j] == keys.drop_first()[j - 1]);
                }
            }
        }
    }
}

/// A position holding `k` with no earlier `k` is what `index_of` gives.
pub proof fn lemma_index_of_first(keys: Seq<Seq<char>>, k: Seq<char>, i: int)
    requires
        0 <= i < keys.len(),
        keys[i] == k,
        forall|j: int| 0 <= j < i ==> keys[j] != k,
    ensures
        index_of(keys, k) == i,
{
    lemma_index_of(keys, k);
}

/// A key occurring nowhere has no index.
pub proof fn lemma_index_of_absent(keys: Seq<Seq<char>>, k: Seq<char>)
    requires
        forall|j: int| 0 <= j < keys.len() ==> keys[j] != k,
    ensures
        index_of(keys, k) == -1,
{
    lemma_index_of(keys, k);
}

/// Position of the first entry named `k`.
pub fn find<V>(m: &Vec<(String, V)>, k: &str) -> (r: Option<usize>)
    ensures
        r matches Some(i) ==> i == index_of(names_of(m@), k@) && i < m@.len(),
        r is None ==> index_of(names_of(m@), k@) == -1,
{
    let ghost keys = names_of(m@);
    let mut i: usize = 0;
    while i < m.len()
        invariant
            i <= m@.len(),
            keys == names_of(m@),
            forall|j: int| 0 <= j < i ==> keys[j] != k@,
        decreases m.len() - i,
    {
        if str_eq(m[i].0.as_str(), k) {
            proof {
                lemma_index_of_first(keys, k@, i as int);
            }
            return Some(i);
        }
        i += 1;
    }
    proof {
        lemma_index_of_absent(keys, k@);
    }
    None
}

/// Whether an entry named `k` is present.
pub fn contains<V>(m: &Vec<(String, V)>, k: &str) -> (r: bool)
    ensures
        r == (index_of(names_of(m@), k@) >= 0),
{
    find(m, k).is_some()
}

/// The value of the first entry named `k`.
pub fn get<'a, V>(m: &'a Vec<(String, V)>, k: &str) -> (r: Option<&'a V>)
    ensures
        r matches Some(v) ==> entry_get(m@, k@) == Some(*v),
        r is None ==> entry_get(m@, k@) is None,
{
    match find(m, k) {
        Some(i) => Some(&m[i].1),
        None => None,
    }
}

/// Stores `v` under `k`: replaces the first entry named `k`, or appends one.
pub fn put<V>(m: &mut Vec<(String, V)>, k: String, v: V)
    ensures
        ({
            let i = index_of(names_of(old(m)@), k@);
            if i < 0 {
                final(m)@ == old(m)@.push((k, v))
            } else {
                final(m)@ == old(m)@.update(i, (k, v))
            }
        }),
{
    match find(m, k.as_str()) {
        Some(i) => {
            m.set(i, (k, v));
        },
        None => {
            m.push((k, v));
        },
    }
}

} // verus!
