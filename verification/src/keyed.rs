//! Association lists keyed by strings: maps and sets keyed by `String`,
//! held as vectors whose keys are distinct, so that lookups and updates
//! can be stated over the keys' text.
use vstd::prelude::*;

verus! {

/// The first position at or after `i` whose key is `k`.
pub open spec fn key_index_from<V>(e: Seq<(String, V)>, k: Seq<char>, i: int) -> Option<int>
    decreases e.len() - i,
{
    if i < 0 || i >= e.len() {
        None
    } else if e[i].0@ == k {
        Some(i)
    } else {
        key_index_from(e, k, i + 1)
    }
}

/// The position of key `k` in `e`.
pub open spec fn key_index<V>(e: Seq<(String, V)>, k: Seq<char>) -> Option<int> {
    key_index_from(e, k, 0)
}

/// The value stored under `k`.
pub open spec fn lookup<V>(e: Seq<(String, V)>, k: Seq<char>) -> Option<V> {
    match key_index(e, k) {
        Some(i) => Some(e[i].1),
        None => None,
    }
}

/// No key occurs twice.
pub open spec fn distinct_keys<V>(e: Seq<(String, V)>) -> bool {
    forall|i: int, j: int|
        #![trigger e[i], e[j]]
        0 <= i < j < e.len() ==> e[i].0@ != e[j].0@
}

/// `e` with the value under `k` replaced by `v`, or with `(k, v)` appended
/// when `k` is absent (what `HashMap::insert` does to the contents).
pub open spec fn put<V>(e: Seq<(String, V)>, k: String, v: V) -> Seq<(String, V)> {
    match key_index(e, k@) {
        Some(i) => e.update(i, (e[i].0, v)),
        None => e.push((k, v)),
    }
}

/// `e` without the entry under `k`.
pub open spec fn without<V>(e: Seq<(String, V)>, k: Seq<char>) -> Seq<(String, V)> {
    match key_index(e, k) {
        Some(i) => e.remove(i),
        None => e,
    }
}

pub proof fn lemma_key_index_from<V>(e: Seq<(String, V)>, k: Seq<char>, i: int)
    requires
        0 <= i,
    ensures
        key_index_from(e, k, i) matches Some(j) ==> i <= j < e.len() && e[j].0@ == k && forall|
            m: int,
        | i <= m < j ==> e[m].0@ != k,
        key_index_from(e, k, i) is None ==> forall|m: int| i <= m < e.len() ==> e[m].0@ != k,
    decreases e.len() - i,
{
    if i < e.len() && e[i].0@ != k {
        lemma_key_index_from(e, k, i + 1);
        assert forall|m: int| i <= m < e.len() && !(i + 1 <= m) implies e[m].0@ != k by {
            assert(m == i);
        }
    }
}

/// The position found for a key holds that key, and none before it does;
/// when none is found, no entry holds the key.
pub proof fn lemma_key_index<V>(e: Seq<(String, V)>, k: Seq<char>)
    ensures
        key_index(e, k) matches Some(j) ==> 0 <= j < e.len() && e[j].0@ == k && forall|m: int|
            0 <= m < j ==> e[m].0@ != k,
        key_index(e, k) is None ==> forall|m: int| 0 <= m < e.len() ==> e[m].0@ != k,
{
    lemma_key_index_from(e, k, 0);
}

/// Where the key `k` stands in `e`.
pub fn position_of_key<V>(e: &Vec<(String, V)>, k: &String) -> (r: Option<usize>)
    ensures
        r matches Some(i) ==> key_index(e@, k@) == Some(i as int),
        r is None ==> key_index(e@, k@) is None,
{
    let mut i: usize = 0;
    while i < e.len()
        invariant
            i <= e.len(),
            key_index(e@, k@) == key_index_from(e@, k@, i as int),
        decreases e.len() - i,
    {
        if e[i].0 == *k {
            return Some(i);
        }
        i += 1;
    }
    None
}

/// Stores `v` under `k`.
pub fn put_exec<V>(e: &mut Vec<(String, V)>, k: String, v: V)
    ensures
        final(e)@ == put(old(e)@, k, v),
{
    match position_of_key(e, &k) {
        Some(i) => {
            proof {
                lemma_key_index(e@, k@);
            }
            let ghost before = e@;
            let (name, _old) = e.remove(i);
            e.insert(i, (name, v));
            proof {
                assert(e@ =~= put(before, k, v));
            }
        },
        None => {
            e.push((k, v));
        },
    }
}

/// Removes the entry under `k`, if any.
pub fn remove_key<V>(e: &mut Vec<(String, V)>, k: &String)
    ensures
        final(e)@ == without(old(e)@, k@),
{
    match position_of_key(e, k) {
        Some(i) => {
            proof {
                lemma_key_index(old(e)@, k@);
            }
            let _ = e.remove(i);
        },
        None => {},
    }
}

/// `put` keeps the keys distinct.
pub proof fn lemma_put_distinct<V>(e: Seq<(String, V)>, k: String, v: V)
    requires
        distinct_keys(e),
    ensures
        distinct_keys(put(e, k, v)),
{
    lemma_key_index(e, k@);
}

/// `without` keeps the keys distinct.
pub proof fn lemma_without_distinct<V>(e: Seq<(String, V)>, k: Seq<char>)
    requires
        distinct_keys(e),
    ensures
        distinct_keys(without(e, k)),
{
    lemma_key_index(e, k);
    if let Some(i) = key_index(e, k) {
        let r = e.remove(i);
        assert forall|a: int, b: int| 0 <= a < b < r.len() implies #[trigger] r[a].0@ != #[trigger] r[b].0@ by {
            let oa = if a < i { a } else { a + 1 };
            let ob = if b < i { b } else { b + 1 };
            assert(r[a] == e[oa]);
            assert(r[b] == e[ob]);
        }
    }
}

/// After `put`, the key holds the new value.
pub proof fn lemma_lookup_put<V>(e: Seq<(String, V)>, k: String, v: V, q: Seq<char>)
    requires
        distinct_keys(e),
    ensures
        lookup(put(e, k, v), q) == (if q == k@ {
            Some(v)
        } else {
            lookup(e, q)
        }),
{
    lemma_key_index(e, k@);
    lemma_key_index(e, q);
    let p = put(e, k, v);
    lemma_key_index(p, q);
    match key_index(e, k@) {
        Some(i) => {
            if q == k@ {
                assert(p[i].0@ == q);
                match key_index(p, q) {
                    Some(j) => {
                        if j != i {
                            assert(p[j] == e[j]);
                            if j < i {
                            } else {
                                assert(e[j].0@ == e[i].0@);
                            }
                        }
                    },
                    None => {},
                }
            } else {
                match key_index(p, q) {
                    Some(j) => {
                        assert(p[j] == e[j]);
                    },
                    None => {
                        match key_index(e, q) {
                            Some(j) => {
                                assert(p[j].0@ == e[j].0@);
                            },
                            None => {},
                        }
                    },
                }
            }
        },
        None => {
            if q == k@ {
                match key_index(p, q) {
                    Some(j) => {
                        if j < e.len() {
                            assert(p[j] == e[j]);
                        }
                    },
                    None => {
                        assert(p[e.len() as int].0@ == q);
                    },
                }
            } else {
                match key_index(p, q) {
                    Some(j) => {
                        if j < e.len() {
                            assert(p[j] == e[j]);
                        }
                    },
                    None => {
                        match key_index(e, q) {
                            Some(j) => {
                                assert(p[j] == e[j]);
                            },
                            None => {},
                        }
                    },
                }
            }
        },
    }
}

} // verus!
