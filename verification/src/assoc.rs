//! Maps keyed by strings, held as lists of pairs whose keys are all distinct.

use vstd::prelude::*;

verus! {

/// No two entries of `m` have the same key.
pub open spec fn keys_distinct<T>(m: Seq<(String, T)>) -> bool {
    forall|i: int, j: int| 0 <= i < m.len() && 0 <= j < m.len() && i != j ==> #[trigger] m[i].0@ != #[trigger] m[j].0@
}

/// Some entry of `m` has key `k`.
pub open spec fn has_key<T>(m: Seq<(String, T)>, k: Seq<char>) -> bool {
    exists|i: int| 0 <= i < m.len() && #[trigger] m[i].0@ == k
}

/// The index of an entry of `m` with key `k`.
pub open spec fn key_index<T>(m: Seq<(String, T)>, k: Seq<char>) -> int {
    choose|i: int| 0 <= i < m.len() && #[trigger] m[i].0@ == k
}

/// The map that the list of pairs `m` stands for.
pub open spec fn assoc_view<T>(m: Seq<(String, T)>) -> Map<Seq<char>, T> {
    Map::new(|k: Seq<char>| has_key(m, k), |k: Seq<char>| m[key_index(m, k)].1)
}

/// With distinct keys, the entry at `i` is what the map holds for its key.
pub proof fn lemma_assoc_view_at<T>(m: Seq<(String, T)>, i: int)
    requires
        keys_distinct(m),
        0 <= i < m.len(),
    ensures
        assoc_view(m).contains_key(m[i].0@),
        assoc_view(m)[m[i].0@] == m[i].1,
{
    assert(has_key(m, m[i].0@));
    let j = key_index(m, m[i].0@);
    assert(m[j].0@ == m[i].0@);
}

/// The empty list stands for the empty map.
pub proof fn lemma_assoc_view_empty<T>(m: Seq<(String, T)>)
    requires
        m.len() == 0,
    ensures
        assoc_view(m) == Map::<Seq<char>, T>::empty(),
        keys_distinct(m),
{
    assert(assoc_view(m) =~= Map::<Seq<char>, T>::empty());
}

/// Index of the entry with key `k`, if any.
pub fn assoc_find<T>(m: &Vec<(String, T)>, k: &String) -> (r: Option<usize>)
    ensures
        match r {
            Some(i) => i < m@.len() && m@[i as int].0@ == k@,
            None => !has_key(m@, k@),
        },
{
    let mut i: usize = 0;
    while i < m.len()
        invariant
            i <= m@.len(),
            forall|j: int| 0 <= j < i ==> #[trigger] m@[j].0@ != k@,
        decreases m@.len() - i,
    {
        if m[i].0 == *k {
            return Some(i);
        }
        i = i + 1;
    }
    None
}

/// The value for key `k`, if any.
pub fn assoc_get<'a, T>(m: &'a Vec<(String, T)>, k: &String) -> (r: Option<&'a T>)
    requires
        keys_distinct(m@),
    ensures
        match r {
            Some(v) => assoc_view(m@).contains_key(k@) && assoc_view(m@)[k@] == *v,
            None => !assoc_view(m@).contains_key(k@),
        },
{
    match assoc_find(m, k) {
        Some(i) => {
            proof {
                lemma_assoc_view_at(m@, i as int);
            }
            Some(&m[i].1)
        },
        None => None,
    }
}

/// Sets the value for key `k` to `v`, replacing the entry that holds `k` if there is one,
/// else adding an entry at the end.
pub fn assoc_insert<T>(m: &mut Vec<(String, T)>, k: String, v: T)
    requires
        keys_distinct(old(m)@),
    ensures
        keys_distinct(final(m)@),
        assoc_view(final(m)@) == assoc_view(old(m)@).insert(k@, v),
        has_key(old(m)@, k@) ==> final(m)@.len() == old(m)@.len(),
        !has_key(old(m)@, k@) ==> final(m)@ == old(m)@.push((k, v)),
        forall|i: int| 0 <= i < old(m)@.len() ==> #[trigger] final(m)@[i].0@ == old(m)@[i].0@,
        forall|i: int| 0 <= i < old(m)@.len() && old(m)@[i].0@ != k@ ==> #[trigger] final(m)@[i] == old(m)@[i],
        forall|i: int| 0 <= i < final(m)@.len() && #[trigger] final(m)@[i].0@ == k@ ==> final(m)@[i].1 == v,
{
    let ghost k_view = k@;
    let ghost old_m = m@;
    match assoc_find(m, &k) {
        Some(i) => {
            m.set(i, (k, v));
            proof {
                let nm = m@;
                assert forall|a: int| 0 <= a < nm.len() && #[trigger] nm[a].0@ == k_view implies nm[a].1 == v by {
                    if a != i {
                        assert(old_m[a].0@ != old_m[i as int].0@);
                    }
                }
                assert forall|a: int, b: int|
                    0 <= a < nm.len() && 0 <= b < nm.len() && a != b implies #[trigger] nm[a].0@
                    != #[trigger] nm[b].0@ by {
                    assert(old_m[a].0@ != old_m[b].0@);
                }
                assert forall|kk: Seq<char>| #[trigger]
                    assoc_view(nm).contains_key(kk) == assoc_view(old_m).insert(
                        k_view,
                        v,
                    ).contains_key(kk) by {
                    if has_key(old_m, kk) {
                        let j = key_index(old_m, kk);
                        assert(nm[j].0@ == kk);
                    }
                    if has_key(nm, kk) {
                        let j = key_index(nm, kk);
                        if j != i {
                            assert(old_m[j].0@ == kk);
                        }
                    }
                }
                assert forall|kk: Seq<char>| assoc_view(nm).contains_key(kk) implies #[trigger] assoc_view(
                    nm,
                )[kk] == assoc_view(old_m).insert(k_view, v)[kk] by {
                    let j = key_index(nm, kk);
                    lemma_assoc_view_at(nm, j);
                    if j != i {
                        assert(old_m[j].0@ == kk);
                        lemma_assoc_view_at(old_m, j);
                    }
                }
                assert(assoc_view(nm) =~= assoc_view(old_m).insert(k_view, v));
            }
        },
        None => {
            m.push((k, v));
            proof {
                let nm = m@;
                assert forall|a: int| 0 <= a < nm.len() && #[trigger] nm[a].0@ == k_view implies nm[a].1 == v by {
                    if a < old_m.len() {
                        assert(old_m[a].0@ != k_view);
                    }
                }
                assert forall|a: int, b: int|
                    0 <= a < nm.len() && 0 <= b < nm.len() && a != b implies #[trigger] nm[a].0@
                    != #[trigger] nm[b].0@ by {
                    if a < old_m.len() && b < old_m.len() {
                        assert(old_m[a].0@ != old_m[b].0@);
                    } else if a < old_m.len() {
                        assert(old_m[a].0@ != k_view);
                    } else {
                        assert(old_m[b].0@ != k_view);
                    }
                }
                assert forall|kk: Seq<char>| #[trigger]
                    assoc_view(nm).contains_key(kk) == assoc_view(old_m).insert(
                        k_view,
                        v,
                    ).contains_key(kk) by {
                    if has_key(old_m, kk) {
                        let j = key_index(old_m, kk);
                        assert(nm[j].0@ == kk);
                    }
                    if kk == k_view {
                        assert(nm[old_m.len() as int].0@ == kk);
                    }
                    if has_key(nm, kk) {
                        let j = key_index(nm, kk);
                        if j < old_m.len() {
                            assert(old_m[j].0@ == kk);
                        }
                    }
                }
                assert forall|kk: Seq<char>| assoc_view(nm).contains_key(kk) implies #[trigger] assoc_view(
                    nm,
                )[kk] == assoc_view(old_m).insert(k_view, v)[kk] by {
                    let j = key_index(nm, kk);
                    lemma_assoc_view_at(nm, j);
                    if j < old_m.len() {
                        assert(old_m[j].0@ == kk);
                        lemma_assoc_view_at(old_m, j);
                    }
                }
                assert(assoc_view(nm) =~= assoc_view(old_m).insert(k_view, v));
            }
        },
    }
}

} // verus!
