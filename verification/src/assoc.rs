//! Association lists from strings to values: the bindings of an environment frame and the
//! entries of a hash-map. Setting a key replaces its first binding, or adds one at the end.
use vstd::prelude::*;
use crate::equality::{find_entry, find_key, find_key_from};
use crate::types::{entry_views, group_views, MalType, Val};

verus! {

broadcast use group_views;

/// The value bound to `k`, by its first binding.
pub open spec fn assoc_get(e: Seq<(Seq<char>, Val)>, k: Seq<char>) -> Option<Val> {
    let j = find_key(e, k);
    if j >= 0 { Some(e[j].1) } else { None }
}

/// The bindings after binding `k` to `v`: the first binding of `k` is replaced, or a binding
/// is added at the end.
pub open spec fn assoc_insert(e: Seq<(Seq<char>, Val)>, k: Seq<char>, v: Val) -> Seq<(Seq<char>, Val)> {
    let j = find_key(e, k);
    if j >= 0 { e.update(j, (k, v)) } else { e.push((k, v)) }
}

/// The bindings without the first binding of `k`.
pub open spec fn assoc_remove(e: Seq<(Seq<char>, Val)>, k: Seq<char>) -> Seq<(Seq<char>, Val)> {
    let j = find_key(e, k);
    if j >= 0 { e.remove(j) } else { e }
}

/// No key is bound twice.
pub open spec fn keys_unique(e: Seq<(Seq<char>, Val)>) -> bool {
    forall|a: int, b: int| 0 <= a < b < e.len() ==> #[trigger] e[a].0 != #[trigger] e[b].0
}

/// What `find_key` gives: the first position with the key, or `-1` when there is none.
pub proof fn lemma_find_key(e: Seq<(Seq<char>, Val)>, k: Seq<char>)
    ensures
        ({
            let j = find_key(e, k);
            &&& -1 <= j < e.len()
            &&& j >= 0 ==> e[j].0 == k
            &&& forall|m: int| 0 <= m < e.len() && (j < 0 || m < j) ==> #[trigger] e[m].0 != k
        }),
{
    lemma_find_key_from_props(e, k, 0);
}

proof fn lemma_find_key_from_props(e: Seq<(Seq<char>, Val)>, k: Seq<char>, i: int)
    requires
        0 <= i,
    ensures
        ({
            let j = find_key_from(e, k, i);
            &&& -1 <= j < e.len()
            &&& j >= 0 ==> i <= j && e[j].0 == k
            &&& forall|m: int| i <= m < e.len() && (j < 0 || m < j) ==> #[trigger] e[m].0 != k
        }),
    decreases e.len() - i,
{
    if i < e.len() && e[i].0 != k {
        lemma_find_key_from_props(e, k, i + 1);
    }
}

/// A copy of the value bound to `k`.
pub fn assoc_lookup(e: &Vec<(String, MalType)>, k: &str) -> (r: Option<MalType>)
    ensures
        match assoc_get(entry_views(e@), k@) {
            Some(v) => r matches Some(x) && x@ == v,
            None => r is None,
        },
{
    match find_entry(e, k) {
        Some(j) => Some(e[j].1.deep_clone()),
        None => None,
    }
}

/// Whether `k` is bound.
pub fn assoc_contains(e: &Vec<(String, MalType)>, k: &str) -> (r: bool)
    ensures
        r == (assoc_get(entry_views(e@), k@) is Some),
{
    match find_entry(e, k) {
        Some(_) => true,
        None => false,
    }
}

/// Binds `k` to `v`.
pub fn assoc_set(e: &mut Vec<(String, MalType)>, k: String, v: MalType)
    ensures
        entry_views(final(e)@) == assoc_insert(entry_views(old(e)@), k@, v@),
{
    match find_entry(e, k.as_str()) {
        Some(j) => {
            let ghost kv = k@;
            let ghost vv = v@;
            e.set(j, (k, v));
            assert(entry_views(e@) =~= entry_views(old(e)@).update(j as int, (kv, vv)));
        },
        None => {
            let ghost kv = k@;
            let ghost vv = v@;
            e.push((k, v));
            assert(entry_views(e@) =~= entry_views(old(e)@).push((kv, vv)));
        },
    }
}

/// Removes the first binding of `k`.
pub fn assoc_delete(e: &mut Vec<(String, MalType)>, k: &str)
    ensures
        entry_views(final(e)@) == assoc_remove(entry_views(old(e)@), k@),
{
    match find_entry(e, k) {
        Some(j) => {
            e.remove(j);
            assert(entry_views(e@) =~= entry_views(old(e)@).remove(j as int));
        },
        None => {},
    }
}

/// Reading a key right after binding it gives the new value.
pub proof fn law_get_after_insert(e: Seq<(Seq<char>, Val)>, k: Seq<char>, v: Val)
    ensures
        assoc_get(assoc_insert(e, k, v), k) == Some(v),
{
    lemma_find_key(e, k);
    let e2 = assoc_insert(e, k, v);
    lemma_find_key(e2, k);
    let j = find_key(e, k);
    let j2 = find_key(e2, k);
    if j >= 0 {
        assert(e2[j].0 == k);
        assert(j2 == j) by {
            if j2 < j && j2 >= 0 {
                assert(e2[j2] == e[j2]);
            }
            if j2 < 0 {
                assert(e2[j].0 == k);
            }
        }
    } else {
        assert(e2[e.len() as int].0 == k);
        assert(j2 == e.len()) by {
            if 0 <= j2 < e.len() {
                assert(e2[j2] == e[j2]);
            }
        }
    }
}

/// Binding a key leaves every other key as it was.
pub proof fn law_insert_keeps_other_keys(e: Seq<(Seq<char>, Val)>, k: Seq<char>, k2: Seq<char>, v: Val)
    requires
        k != k2,
    ensures
        assoc_get(assoc_insert(e, k, v), k2) == assoc_get(e, k2),
{
    lemma_find_key(e, k);
    let e2 = assoc_insert(e, k, v);
    lemma_find_key(e2, k2);
    lemma_find_key(e, k2);
    let a = find_key(e, k2);
    let b = find_key(e2, k2);
    assert(e2.len() >= e.len());
    assert(forall|m: int| 0 <= m < e.len() ==> ((#[trigger] e2[m]).0 == k2 <==> e[m].0 == k2));
    if e2.len() > e.len() {
        assert(e2[e.len() as int].0 == k);
    }
    assert(a == b) by {
        if a >= 0 {
            assert(e2[a].0 == k2);
            if b < 0 || b > a {
            } else if b < a {
                assert(e[b].0 == k2);
            }
        } else {
            if b >= 0 {
                assert(b < e.len());
                assert(e[b].0 == k2);
            }
        }
    }
    if a >= 0 {
        assert(e2[a].1 == e[a].1);
    }
}

/// Binding a key keeps keys unique.
pub proof fn law_insert_keeps_keys_unique(e: Seq<(Seq<char>, Val)>, k: Seq<char>, v: Val)
    requires
        keys_unique(e),
    ensures
        keys_unique(assoc_insert(e, k, v)),
{
    lemma_find_key(e, k);
    let e2 = assoc_insert(e, k, v);
    assert forall|a: int, b: int| 0 <= a < b < e2.len() implies #[trigger] e2[a].0 != #[trigger] e2[b].0 by {
        let j = find_key(e, k);
        if j < 0 && b == e.len() {
            assert(e2[a] == e[a]);
        } else if j >= 0 {
            if a == j {
                assert(e2[b] == e[b]);
                assert(e[j].0 == k);
            } else if b == j {
                assert(e2[a] == e[a]);
                assert(e[j].0 == k);
            } else {
                assert(e2[a] == e[a] && e2[b] == e[b]);
            }
        } else {
            assert(e2[a] == e[a] && e2[b] == e[b]);
        }
    }
}

/// With unique keys, a removed key is no longer bound.
pub proof fn law_remove_unbinds(e: Seq<(Seq<char>, Val)>, k: Seq<char>)
    requires
        keys_unique(e),
    ensures
        assoc_get(assoc_remove(e, k), k) is None,
        keys_unique(assoc_remove(e, k)),
{
    lemma_find_key(e, k);
    let j = find_key(e, k);
    let e2 = assoc_remove(e, k);
    lemma_find_key(e2, k);
    if j >= 0 {
        assert forall|m: int| 0 <= m < e2.len() implies #[trigger] e2[m].0 != k by {
            if m < j {
                assert(e2[m] == e[m]);
            } else {
                assert(e2[m] == e[m + 1]);
                assert(e[j].0 != e[m + 1].0);
            }
        }
        assert forall|a: int, b: int| 0 <= a < b < e2.len() implies #[trigger] e2[a].0 != #[trigger] e2[b].0 by {
            let a1 = if a < j { a } else { a + 1 };
            let b1 = if b < j { b } else { b + 1 };
            assert(e2[a] == e[a1]);
            assert(e2[b] == e[b1]);
        }
    }
}

/// Removing a key leaves every other key as it was.
pub proof fn law_remove_keeps_other_keys(e: Seq<(Seq<char>, Val)>, k: Seq<char>, k2: Seq<char>)
    requires
        k != k2,
    ensures
        assoc_get(assoc_remove(e, k), k2) == assoc_get(e, k2),
{
    lemma_find_key(e, k);
    let j = find_key(e, k);
    if j >= 0 {
        let e2 = assoc_remove(e, k);
        lemma_find_key(e, k2);
        lemma_find_key(e2, k2);
        let a = find_key(e, k2);
        let b = find_key(e2, k2);
        assert(forall|m: int| 0 <= m < j ==> #[trigger] e2[m] == e[m]);
        assert(forall|m: int| j <= m < e2.len() ==> #[trigger] e2[m] == e[m + 1]);
        if a >= 0 {
            assert(a != j);
            if a < j {
                assert(e2[a] == e[a]);
                if b >= 0 && b < a {
                    assert(e2[b] == e[b]);
                }
                assert(b == a);
            } else {
                assert(e2[a - 1] == e[a]);
                if b >= 0 && b < a - 1 {
                    if b < j {
                        assert(e2[b] == e[b]);
                    } else {
                        assert(e2[b] == e[b + 1]);
                    }
                }
                assert(b == a - 1);
            }
        } else {
            if b >= 0 {
                if b < j {
                    assert(e2[b] == e[b]);
                } else {
                    assert(e2[b] == e[b + 1]);
                }
            }
        }
    }
}

} // verus!
