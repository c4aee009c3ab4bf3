//! Association lists keyed by strings: ordered `(key, value)` entries with map semantics.
//!
//! A lookup finds the first entry with the key, an insertion replaces that entry's value
//! (or appends a new entry), and a removal drops that entry.

use vstd::prelude::*;
use crate::text::str_eq;

verus! {

/// Index of the first key equal to `k`.
pub open spec fn index_of_key(keys: Seq<Seq<char>>, k: Seq<char>) -> Option<int>
    decreases keys.len(),
{
    if keys.len() == 0 {
        None
    } else {
        match index_of_key(keys.drop_last(), k) {
            Some(i) => Some(i),
            None => if keys.last() == k {
                Some(keys.len() - 1)
            } else {
                None
            },
        }
    }
}

/// The keys of an association list.
pub open spec fn keys_of<V>(o: Seq<(Seq<char>, V)>) -> Seq<Seq<char>> {
    o.map_values(|e: (Seq<char>, V)| e.0)
}

/// The views of the keys of an executable association list.
pub open spec fn exec_keys<V>(o: Seq<(String, V)>) -> Seq<Seq<char>> {
    o.map_values(|e: (String, V)| e.0@)
}

/// The view of an executable association list.
pub open spec fn assoc_view<V: View>(o: Seq<(String, V)>) -> Seq<(Seq<char>, V::V)> {
    o.map_values(|e: (String, V)| (e.0@, e.1@))
}

/// The value stored under `k`.
pub open spec fn assoc_get<V>(o: Seq<(Seq<char>, V)>, k: Seq<char>) -> Option<V> {
    match index_of_key(keys_of(o), k) {
        Some(i) => Some(o[i].1),
        None => None,
    }
}

/// `o` with `v` stored under `k`.
pub open spec fn assoc_insert<V>(o: Seq<(Seq<char>, V)>, k: Seq<char>, v: V) -> Seq<(Seq<char>, V)> {
    match index_of_key(keys_of(o), k) {
        Some(i) => o.update(i, (k, v)),
        None => o.push((k, v)),
    }
}

/// `o` with `v` stored under `k` unless `k` is already present.
pub open spec fn assoc_insert_missing<V>(o: Seq<(Seq<char>, V)>, k: Seq<char>, v: V) -> Seq<(Seq<char>, V)> {
    match index_of_key(keys_of(o), k) {
        Some(_) => o,
        None => o.push((k, v)),
    }
}

/// `o` without the entry for `k`.
pub open spec fn assoc_remove<V>(o: Seq<(Seq<char>, V)>, k: Seq<char>) -> Seq<(Seq<char>, V)> {
    match index_of_key(keys_of(o), k) {
        Some(i) => o.remove(i),
        None => o,
    }
}

/// `o` without any entry for `k`.
pub open spec fn assoc_remove_all<V>(o: Seq<(Seq<char>, V)>, k: Seq<char>) -> Seq<(Seq<char>, V)>
    decreases o.len(),
{
    if o.len() == 0 {
        o
    } else {
        let rest = assoc_remove_all(o.drop_last(), k);
        if o.last().0 == k {
            rest
        } else {
            rest.push(o.last())
        }
    }
}

/// Every key occurs at most once.
pub open spec fn keys_distinct(keys: Seq<Seq<char>>) -> bool {
    forall|i: int, j: int| 0 <= i < keys.len() && 0 <= j < keys.len() && i != j ==> keys[i] != keys[j]
}

pub proof fn lemma_index_of_key(keys: Seq<Seq<char>>, k: Seq<char>)
    ensures
        match index_of_key(keys, k) {
            Some(i) => 0 <= i < keys.len() && keys[i] == k && forall|j: int| 0 <= j < i ==> keys[j] != k,
            None => forall|j: int| 0 <= j < keys.len() ==> keys[j] != k,
        },
    decreases keys.len(),
{
    if keys.len() > 0 {
        lemma_index_of_key(keys.drop_last(), k);
        assert(forall|j: int| 0 <= j < keys.len() - 1 ==> keys.drop_last()[j] == keys[j]);
    }
}

/// The first index of a key in an executable association list.
pub proof fn lemma_index_of_exec_key<V>(o: Seq<(String, V)>, k: Seq<char>)
    ensures
        match index_of_key(exec_keys(o), k) {
            Some(i) => 0 <= i < o.len() && o[i].0@ == k && forall|j: int| 0 <= j < i ==> o[j].0@ != k,
            None => forall|j: int| 0 <= j < o.len() ==> o[j].0@ != k,
        },
{
    let keys = exec_keys(o);
    lemma_index_of_key(keys, k);
    match index_of_key(keys, k) {
        Some(i) => {
            assert(keys[i] == o[i].0@);
            assert forall|j: int| 0 <= j < i implies o[j].0@ != k by {
                assert(keys[j] == o[j].0@);
            }
        },
        None => {
            assert forall|j: int| 0 <= j < o.len() implies o[j].0@ != k by {
                assert(keys[j] == o[j].0@);
            }
        },
    }
}

/// The keys of the view are the views of the keys.
pub proof fn lemma_assoc_view_keys<V: View>(o: Seq<(String, V)>)
    ensures
        keys_of(assoc_view(o)) == exec_keys(o),
        assoc_view(o).len() == o.len(),
{
    assert(keys_of(assoc_view(o)) =~= exec_keys(o));
}

/// Index of the first entry of `o` whose key is `k`.
pub fn find_key<V>(o: &Vec<(String, V)>, k: &str) -> (r: Option<usize>)
    ensures
        match r {
            Some(i) => index_of_key(exec_keys(o@), k@) == Some(i as int),
            None => index_of_key(exec_keys(o@), k@) is None,
        },
{
    let n = o.len();
    proof {
        lemma_index_of_exec_key(o@, k@);
    }
    for i in 0..n
        invariant
            n == o@.len(),
            forall|j: int| 0 <= j < i ==> o@[j].0@ != k@,
            match index_of_key(exec_keys(o@), k@) {
                Some(i) => 0 <= i < o@.len() && o@[i].0@ == k@ && forall|j: int| 0 <= j < i ==> o@[j].0@ != k@,
                None => forall|j: int| 0 <= j < o@.len() ==> o@[j].0@ != k@,
            },
    {
        if str_eq(o[i].0.as_str(), k) {
            return Some(i);
        }
    }
    None
}

/// Looks up the value stored under `k`.
pub fn assoc_lookup<'a, V: View>(o: &'a Vec<(String, V)>, k: &str) -> (r: Option<&'a V>)
    ensures
        match r {
            Some(v) => assoc_get(assoc_view(o@), k@) == Some(v@),
            None => assoc_get(assoc_view(o@), k@) is None,
        },
        match r {
            Some(v) => exists|i: int| 0 <= i < o@.len() && o@[i].1 == *v && index_of_key(exec_keys(o@), k@) == Some(i),
            None => index_of_key(exec_keys(o@), k@) is None,
        },
{
    proof {
        lemma_assoc_view_keys(o@);
        lemma_index_of_exec_key(o@, k@);
    }
    match find_key(o, k) {
        Some(i) => Some(&o[i].1),
        None => None,
    }
}

/// Stores `v` under `k`.
pub fn assoc_store<V: View>(o: &mut Vec<(String, V)>, k: String, v: V)
    ensures
        assoc_view(final(o)@) == assoc_insert(assoc_view(old(o)@), k@, v@),
{
    proof {
        lemma_assoc_view_keys(o@);
        lemma_index_of_exec_key(o@, k@);
    }
    match find_key(o, k.as_str()) {
        Some(i) => {
            let ghost kv = k@;
            let ghost vv = v@;
            o.set(i, (k, v));
            assert(assoc_view(o@) =~= assoc_view(old(o)@).update(i as int, (kv, vv)));
        },
        None => {
            let ghost kv = k@;
            let ghost vv = v@;
            o.push((k, v));
            assert(assoc_view(o@) =~= assoc_view(old(o)@).push((kv, vv)));
        },
    }
}

/// Stores `v` under `k` unless `k` is already present.
pub fn assoc_store_missing<V: View>(o: &mut Vec<(String, V)>, k: String, v: V)
    ensures
        assoc_view(final(o)@) == assoc_insert_missing(assoc_view(old(o)@), k@, v@),
{
    proof {
        lemma_assoc_view_keys(o@);
    }
    match find_key(o, k.as_str()) {
        Some(_) => {},
        None => {
            let ghost kv = k@;
            let ghost vv = v@;
            o.push((k, v));
            assert(assoc_view(o@) =~= assoc_view(old(o)@).push((kv, vv)));
        },
    }
}

/// Removes the entry for `k`, returning its value.
pub fn assoc_take<V: View>(o: &mut Vec<(String, V)>, k: &str) -> (r: Option<V>)
    ensures
        assoc_view(final(o)@) == assoc_remove(assoc_view(old(o)@), k@),
        match r {
            Some(v) => assoc_get(assoc_view(old(o)@), k@) == Some(v@),
            None => assoc_get(assoc_view(old(o)@), k@) is None,
        },
        match r {
            Some(v) => exists|i: int| 0 <= i < old(o)@.len() && old(o)@[i].1 == v,
            None => true,
        },
{
    proof {
        lemma_assoc_view_keys(o@);
        lemma_index_of_exec_key(o@, k@);
    }
    match find_key(o, k) {
        Some(i) => {
            let e = o.remove(i);
            assert(assoc_view(o@) =~= assoc_view(old(o)@).remove(i as int));
            Some(e.1)
        },
        None => None,
    }
}

// ---------------------------------------------------------------------------
// Map laws
// ---------------------------------------------------------------------------

proof fn lemma_keys_of_update<V>(o: Seq<(Seq<char>, V)>, i: int, k: Seq<char>, v: V)
    requires
        0 <= i < o.len(),
        o[i].0 == k,
    ensures
        keys_of(o.update(i, (k, v))) == keys_of(o),
{
    assert(keys_of(o.update(i, (k, v))) =~= keys_of(o));
}

proof fn lemma_index_of_key_push(keys: Seq<Seq<char>>, k: Seq<char>, k2: Seq<char>)
    ensures
        index_of_key(keys.push(k), k2) == match index_of_key(keys, k2) {
            Some(i) => Some(i),
            None => if k == k2 { Some(keys.len() as int) } else { None },
        },
{
    assert(keys.push(k).drop_last() =~= keys);
}

/// Reading a key just stored gives back the stored value.
pub proof fn lemma_assoc_get_insert_same<V>(o: Seq<(Seq<char>, V)>, k: Seq<char>, v: V)
    ensures
        assoc_get(assoc_insert(o, k, v), k) == Some(v),
{
    lemma_index_of_key(keys_of(o), k);
    match index_of_key(keys_of(o), k) {
        Some(i) => {
            assert(keys_of(o)[i] == o[i].0);
            lemma_keys_of_update(o, i, k, v);
        },
        None => {
            assert(keys_of(o.push((k, v))) =~= keys_of(o).push(k));
            lemma_index_of_key_push(keys_of(o), k, k);
        },
    }
}

/// Storing a key leaves every other key's value unchanged.
pub proof fn lemma_assoc_get_insert_other<V>(o: Seq<(Seq<char>, V)>, k: Seq<char>, v: V, k2: Seq<char>)
    requires
        k != k2,
    ensures
        assoc_get(assoc_insert(o, k, v), k2) == assoc_get(o, k2),
{
    lemma_index_of_key(keys_of(o), k);
    lemma_index_of_key(keys_of(o), k2);
    match index_of_key(keys_of(o), k) {
        Some(i) => {
            assert(keys_of(o)[i] == o[i].0);
            lemma_keys_of_update(o, i, k, v);
            if let Some(j) = index_of_key(keys_of(o), k2) {
                assert(keys_of(o)[j] == o[j].0);
            }
        },
        None => {
            assert(keys_of(o.push((k, v))) =~= keys_of(o).push(k));
            lemma_index_of_key_push(keys_of(o), k, k2);
        },
    }
}

/// Storing a key only when absent: present keys keep their value, an absent one gets `v`.
pub proof fn lemma_assoc_get_insert_missing<V>(o: Seq<(Seq<char>, V)>, k: Seq<char>, v: V, k2: Seq<char>)
    ensures
        assoc_get(assoc_insert_missing(o, k, v), k2) == if k2 == k && assoc_get(o, k) is None {
            Some(v)
        } else {
            assoc_get(o, k2)
        },
{
    match index_of_key(keys_of(o), k) {
        Some(_) => {},
        None => {
            assert(keys_of(o.push((k, v))) =~= keys_of(o).push(k));
            lemma_index_of_key_push(keys_of(o), k, k2);
            lemma_index_of_key(keys_of(o), k2);
            if let Some(j) = index_of_key(keys_of(o), k2) {
                assert(o.push((k, v))[j] == o[j]);
            }
        },
    }
}

/// A removed key is absent afterwards, provided keys are distinct.
pub proof fn lemma_assoc_get_remove_same<V>(o: Seq<(Seq<char>, V)>, k: Seq<char>)
    requires
        keys_distinct(keys_of(o)),
    ensures
        assoc_get(assoc_remove(o, k), k) is None,
        keys_distinct(keys_of(assoc_remove(o, k))),
{
    lemma_index_of_key(keys_of(o), k);
    let r = assoc_remove(o, k);
    if let Some(i) = index_of_key(keys_of(o), k) {
        assert(keys_of(r) =~= keys_of(o).remove(i));
        lemma_index_of_key(keys_of(r), k);
        if let Some(j) = index_of_key(keys_of(r), k) {
            if j < i {
                assert(keys_of(o)[j] == k);
            } else {
                assert(keys_of(o)[j + 1] == k);
                assert(keys_of(o)[i] == k);
            }
        }
        assert forall|a: int, b: int| 0 <= a < keys_of(r).len() && 0 <= b < keys_of(r).len() && a != b
            implies keys_of(r)[a] != keys_of(r)[b] by {
            let a2 = if a < i { a } else { a + 1 };
            let b2 = if b < i { b } else { b + 1 };
            assert(keys_of(r)[a] == keys_of(o)[a2]);
            assert(keys_of(r)[b] == keys_of(o)[b2]);
        }
    } else {
        lemma_index_of_key(keys_of(r), k);
    }
}

/// Storing keeps keys distinct.
pub proof fn lemma_assoc_insert_distinct<V>(o: Seq<(Seq<char>, V)>, k: Seq<char>, v: V)
    requires
        keys_distinct(keys_of(o)),
    ensures
        keys_distinct(keys_of(assoc_insert(o, k, v))),
        keys_distinct(keys_of(assoc_insert_missing(o, k, v))),
{
    lemma_index_of_key(keys_of(o), k);
    match index_of_key(keys_of(o), k) {
        Some(i) => {
            assert(keys_of(o)[i] == o[i].0);
            lemma_keys_of_update(o, i, k, v);
        },
        None => {
            let ks = keys_of(o.push((k, v)));
            assert(ks =~= keys_of(o).push(k));
            assert forall|a: int, b: int| 0 <= a < ks.len() && 0 <= b < ks.len() && a != b implies ks[a] != ks[b] by {
                if a < o.len() && b < o.len() {
                    assert(ks[a] == keys_of(o)[a]);
                    assert(ks[b] == keys_of(o)[b]);
                } else if a < o.len() {
                    assert(ks[a] == keys_of(o)[a]);
                } else if b < o.len() {
                    assert(ks[b] == keys_of(o)[b]);
                }
            }
        },
    }
}



/// What is left after removing every entry for `k` is entries of `o`, in order,
/// none with key `k`; with distinct keys in `o` they stay distinct.
pub proof fn lemma_assoc_remove_all_entries<V>(o: Seq<(Seq<char>, V)>, k: Seq<char>)
    ensures
        forall|i: int| 0 <= i < assoc_remove_all(o, k).len() ==> (#[trigger] assoc_remove_all(o, k)[i]).0 != k
            && o.contains(assoc_remove_all(o, k)[i]),
        assoc_remove_all(o, k).len() <= o.len(),
        keys_distinct(keys_of(o)) ==> keys_distinct(keys_of(assoc_remove_all(o, k))),
    decreases o.len(),
{
    if o.len() > 0 {
        let d = o.drop_last();
        let r = assoc_remove_all(d, k);
        lemma_assoc_remove_all_entries(d, k);
        let t = assoc_remove_all(o, k);
        assert forall|i: int| 0 <= i < t.len() implies (#[trigger] t[i]).0 != k && o.contains(t[i]) by {
            if i < r.len() {
                assert(t[i] == r[i]);
                let j = choose|j: int| 0 <= j < d.len() && d[j] == r[i];
                assert(o[j] == r[i]);
            } else {
                assert(t[i] == o[o.len() - 1]);
            }
        }
        if keys_distinct(keys_of(o)) {
            assert(keys_distinct(keys_of(d))) by {
                assert forall|a: int, b: int| 0 <= a < keys_of(d).len() && 0 <= b < keys_of(d).len() && a != b
                    implies keys_of(d)[a] != keys_of(d)[b] by {
                    assert(keys_of(d)[a] == keys_of(o)[a]);
                    assert(keys_of(d)[b] == keys_of(o)[b]);
                }
            }
            if o.last().0 != k {
                assert forall|a: int, b: int| 0 <= a < keys_of(t).len() && 0 <= b < keys_of(t).len() && a != b
                    implies keys_of(t)[a] != keys_of(t)[b] by {
                    if a < r.len() && b < r.len() {
                        assert(keys_of(t)[a] == keys_of(r)[a]);
                        assert(keys_of(t)[b] == keys_of(r)[b]);
                    } else {
                        let x = if a < r.len() { a } else { b };
                        if x < r.len() {
                            let j = choose|j: int| 0 <= j < d.len() && d[j] == r[x];
                            assert(keys_of(o)[j] == r[x].0);
                            assert(keys_of(o)[o.len() - 1] == o.last().0);
                            assert(keys_of(t)[x] == r[x].0);
                        }
                    }
                }
            }
        }
    }
}

/// Removing every entry for `k` leaves `k` absent and every other key's value as it was.
pub proof fn lemma_assoc_get_remove_all<V>(o: Seq<(Seq<char>, V)>, k: Seq<char>, k2: Seq<char>)
    ensures
        assoc_get(assoc_remove_all(o, k), k2) == if k2 == k {
            None
        } else {
            assoc_get(o, k2)
        },
    decreases o.len(),
{
    if o.len() > 0 {
        let d = o.drop_last();
        let r = assoc_remove_all(d, k);
        lemma_assoc_get_remove_all(d, k, k2);
        assert(o =~= d.push(o.last()));
        assert(keys_of(o) =~= keys_of(d).push(o.last().0));
        lemma_index_of_key_push(keys_of(d), o.last().0, k2);
        lemma_index_of_key(keys_of(d), k2);
        if let Some(j) = index_of_key(keys_of(d), k2) {
            assert(o[j] == d[j]);
        }
        if o.last().0 != k {
            assert(keys_of(r.push(o.last())) =~= keys_of(r).push(o.last().0));
            lemma_index_of_key_push(keys_of(r), o.last().0, k2);
            lemma_index_of_key(keys_of(r), k2);
            if let Some(j) = index_of_key(keys_of(r), k2) {
                assert(r.push(o.last())[j] == r[j]);
            }
        }
    } else {
        lemma_index_of_key(keys_of(assoc_remove_all(o, k)), k2);
    }
}

/// Removing every entry for an absent key changes nothing.
pub proof fn lemma_assoc_remove_all_absent<V>(o: Seq<(Seq<char>, V)>, k: Seq<char>)
    requires
        assoc_get(o, k) is None,
    ensures
        assoc_remove_all(o, k) == o,
    decreases o.len(),
{
    lemma_index_of_key(keys_of(o), k);
    if o.len() > 0 {
        let d = o.drop_last();
        assert(keys_of(o)[o.len() - 1] == o.last().0);
        lemma_index_of_key(keys_of(d), k);
        if let Some(j) = index_of_key(keys_of(d), k) {
            assert(keys_of(o)[j] == keys_of(d)[j]);
        }
        lemma_assoc_remove_all_absent(d, k);
        assert(d.push(o.last()) =~= o);
    }
}


/// Every entry after storing is the stored one or an entry that was there.
pub proof fn lemma_assoc_insert_entries<V>(o: Seq<(Seq<char>, V)>, k: Seq<char>, v: V)
    ensures
        forall|i: int| 0 <= i < assoc_insert(o, k, v).len() ==> #[trigger] assoc_insert(o, k, v)[i] == (k, v)
            || (i < o.len() && assoc_insert(o, k, v)[i] == o[i]),
        forall|i: int| 0 <= i < assoc_insert_missing(o, k, v).len() ==> #[trigger] assoc_insert_missing(o, k, v)[i] == (k, v)
            || (i < o.len() && assoc_insert_missing(o, k, v)[i] == o[i]),
{
    lemma_index_of_key(keys_of(o), k);
    let t = assoc_insert(o, k, v);
    assert forall|i: int| 0 <= i < t.len() implies #[trigger] t[i] == (k, v) || (i < o.len() && t[i] == o[i]) by {
        if i < o.len() && t[i] != (k, v) {
            assert(t[i] == o[i]);
        }
    }
}


/// Appending an entry: a key already present keeps its value; otherwise the new entry is found.
pub proof fn lemma_assoc_get_push<V>(o: Seq<(Seq<char>, V)>, e: (Seq<char>, V), k: Seq<char>)
    ensures
        assoc_get(o.push(e), k) == match assoc_get(o, k) {
            Some(v) => Some(v),
            None => if e.0 == k {
                Some(e.1)
            } else {
                None
            },
        },
{
    assert(keys_of(o.push(e)) =~= keys_of(o).push(e.0));
    lemma_index_of_key_push(keys_of(o), e.0, k);
    lemma_index_of_key(keys_of(o), k);
    if let Some(j) = index_of_key(keys_of(o), k) {
        assert(o.push(e)[j] == o[j]);
    }
}


/// Removing a key leaves every other key's value unchanged.
pub proof fn lemma_assoc_get_remove_other<V>(o: Seq<(Seq<char>, V)>, k: Seq<char>, k2: Seq<char>)
    requires
        k != k2,
    ensures
        assoc_get(assoc_remove(o, k), k2) == assoc_get(o, k2),
{
    lemma_index_of_key(keys_of(o), k);
    lemma_index_of_key(keys_of(o), k2);
    let r = assoc_remove(o, k);
    if let Some(i) = index_of_key(keys_of(o), k) {
        assert(keys_of(r) =~= keys_of(o).remove(i));
        lemma_index_of_key(keys_of(r), k2);
        match index_of_key(keys_of(o), k2) {
            Some(j) => {
                assert(keys_of(o)[j] == k2);
                if j < i {
                    assert(keys_of(r)[j] == k2);
                    assert(r[j] == o[j]);
                } else {
                    assert(keys_of(r)[j - 1] == k2);
                    assert(r[j - 1] == o[j]);
                }
                if let Some(j2) = index_of_key(keys_of(r), k2) {
                    if j2 < i {
                        assert(keys_of(o)[j2] == k2);
                    } else {
                        assert(keys_of(o)[j2 + 1] == k2);
                    }
                }
            },
            None => {
                if let Some(j2) = index_of_key(keys_of(r), k2) {
                    if j2 < i {
                        assert(keys_of(o)[j2] == k2);
                    } else {
                        assert(keys_of(o)[j2 + 1] == k2);
                    }
                }
            },
        }
    }
}

} // verus!
