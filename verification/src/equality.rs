//! Equality of values: numbers, strings, symbols and keywords by content, lists and vectors
//! item by item (a list can equal a vector), hash-maps by their entries, atoms by identity.
//! Functions are never equal, not even to themselves.
use vstd::prelude::*;
use crate::types::{entry_views, group_views, lemma_view_shape, views, MalType, Val};

verus! {

broadcast use group_views;

/// Whether two values are equal.
pub open spec fn val_eq(a: Val, b: Val) -> bool
    decreases a, 0int,
{
    match a {
        Val::Nil => b is Nil,
        Val::Bool(x) => b matches Val::Bool(y) && x == y,
        Val::Number(x) => b matches Val::Number(y) && x == y,
        Val::Symbol(x) => b matches Val::Symbol(y) && x == y,
        Val::Str(x) => b matches Val::Str(y) && x == y,
        Val::Keyword(x) => b matches Val::Keyword(y) && x == y,
        Val::List(l, _) => match b {
            Val::List(r, _) => seq_eq(l, r, 0),
            Val::Vector(r, _) => seq_eq(l, r, 0),
            _ => false,
        },
        Val::Vector(l, _) => match b {
            Val::List(r, _) => seq_eq(l, r, 0),
            Val::Vector(r, _) => seq_eq(l, r, 0),
            _ => false,
        },
        Val::HashMap(l, _) => match b {
            Val::HashMap(r, _) => l.len() == r.len() && entries_eq(l, r, 0),
            _ => false,
        },
        Val::Atom(x) => b matches Val::Atom(y) && x == y,
        _ => false,
    }
}

/// Whether two sequences have the same length and are equal item by item from `i` on.
pub open spec fn seq_eq(l: Seq<Val>, r: Seq<Val>, i: int) -> bool
    decreases l, l.len() - i,
{
    if l.len() != r.len() {
        false
    } else if i < 0 || i >= l.len() {
        true
    } else {
        val_eq(l[i], r[i]) && seq_eq(l, r, i + 1)
    }
}

/// The position of the first entry with key `k` at or after `i`, or `-1`.
pub open spec fn find_key_from(e: Seq<(Seq<char>, Val)>, k: Seq<char>, i: int) -> int
    decreases e.len() - i,
{
    if i < 0 || i >= e.len() {
        -1
    } else if e[i].0 == k {
        i
    } else {
        find_key_from(e, k, i + 1)
    }
}

/// The position of the first entry with key `k`, or `-1`.
pub open spec fn find_key(e: Seq<(Seq<char>, Val)>, k: Seq<char>) -> int {
    find_key_from(e, k, 0)
}

/// Whether each entry of `l` from `i` on has its key in `r`, bound to an equal value.
pub open spec fn entries_eq(l: Seq<(Seq<char>, Val)>, r: Seq<(Seq<char>, Val)>, i: int) -> bool
    decreases l, l.len() - i,
{
    if i < 0 || i >= l.len() {
        true
    } else {
        let j = find_key(r, l[i].0);
        j >= 0 && val_eq(l[i].1, r[j].1) && entries_eq(l, r, i + 1)
    }
}

proof fn lemma_find_key_from(e: Seq<(Seq<char>, Val)>, k: Seq<char>, i: int)
    requires
        0 <= i,
    ensures
        ({
            let j = find_key_from(e, k, i);
            &&& -1 <= j < e.len()
            &&& j >= 0 ==> i <= j && e[j].0 == k
            &&& forall|m: int| i <= m < e.len() && (j < 0 || m < j) ==> e[m].0 != k
        }),
    decreases e.len() - i,
{
    if i < e.len() && e[i].0 != k {
        lemma_find_key_from(e, k, i + 1);
    }
}

/// The first position of a key in hash-map entries.
pub fn find_entry(e: &Vec<(String, MalType)>, k: &str) -> (r: Option<usize>)
    ensures
        match r {
            Some(j) => find_key(entry_views(e@), k@) == j && j < e@.len(),
            None => find_key(entry_views(e@), k@) == -1,
        },
{
    proof { lemma_find_key_from(entry_views(e@), k@, 0); }
    let mut i: usize = 0;
    while i < e.len()
        invariant
            i <= e.len(),
            forall|m: int| 0 <= m < i ==> entry_views(e@)[m].0 != k@,
        decreases e.len() - i,
    {
        if crate::text::str_is(e[i].0.as_str(), k) {
            proof {
                let ev = entry_views(e@);
                lemma_find_key_from(ev, k@, 0);
                let j = find_key(ev, k@);
                assert(ev[i as int].0 == k@);
                if j < 0 || j > i {
                    assert(ev[i as int].0 != k@);
                }
                if 0 <= j < i {
                    assert(ev[j].0 != k@);
                }
            }
            return Some(i);
        }
        i = i + 1;
    }
    proof { lemma_find_key_from(entry_views(e@), k@, 0); }
    None
}

proof fn lemma_seq_eq(l: Seq<Val>, r: Seq<Val>, i: int)
    requires
        0 <= i <= l.len(),
    ensures
        seq_eq(l, r, i) == (l.len() == r.len() && forall|m: int| i <= m < l.len() ==> val_eq(#[trigger] l[m], r[m])),
    decreases l.len() - i,
{
    if i < l.len() {
        lemma_seq_eq(l, r, i + 1);
    }
}

proof fn lemma_entries_eq(l: Seq<(Seq<char>, Val)>, r: Seq<(Seq<char>, Val)>, i: int)
    requires
        0 <= i <= l.len(),
    ensures
        entries_eq(l, r, i) == (forall|m: int| i <= m < l.len() ==> find_key(r, #[trigger] l[m].0) >= 0
            && val_eq(l[m].1, r[find_key(r, l[m].0)].1)),
    decreases l.len() - i,
{
    if i < l.len() {
        lemma_entries_eq(l, r, i + 1);
    }
}

/// Whether two values are equal (the `=` of the language).
#[verifier::spinoff_prover]
pub fn mal_eq(a: &MalType, b: &MalType) -> (r: bool)
    ensures
        r == val_eq(a@, b@),
    decreases a, 0int,
{
    proof {
        lemma_view_shape(a);
        lemma_view_shape(b);
    }
    match a {
        MalType::Nil => match b {
            MalType::Nil => {
                assert(a@ == Val::Nil);
                assert(b@ == Val::Nil);
                true
            },
            _ => {
                assert(a@ == Val::Nil);
                assert(!(b@ is Nil));
                false
            },
        },
        MalType::Bool(x) => match b {
            MalType::Bool(y) => *x == *y,
            _ => false,
        },
        MalType::Number(x) => match b {
            MalType::Number(y) => *x == *y,
            _ => false,
        },
        MalType::Symbol(x) => match b {
            MalType::Symbol(y) => crate::text::str_is(x.as_str(), y.as_str()),
            _ => false,
        },
        MalType::String(x) => match b {
            MalType::String(y) => crate::text::str_is(x.as_str(), y.as_str()),
            _ => false,
        },
        MalType::Keyword(x) => match b {
            MalType::Keyword(y) => crate::text::str_is(x.as_str(), y.as_str()),
            _ => false,
        },
        MalType::List(l, _) => match b {
            MalType::List(r, _) => values_eq(l, r),
            MalType::Vector(r, _) => values_eq(l, r),
            _ => false,
        },
        MalType::Vector(l, _) => match b {
            MalType::List(r, _) => values_eq(l, r),
            MalType::Vector(r, _) => values_eq(l, r),
            _ => false,
        },
        MalType::HashMap(l, _) => match b {
            MalType::HashMap(r, _) => maps_eq(l, r),
            _ => false,
        },
        MalType::Atom(x) => match b {
            MalType::Atom(y) => *x == *y,
            _ => false,
        },
        _ => false,
    }
}

/// Whether two vectors of values are equal item by item.
fn values_eq(l: &Vec<MalType>, r: &Vec<MalType>) -> (res: bool)
    ensures
        res == seq_eq(views(l@), views(r@), 0),
    decreases l, 1int,
{
    proof { lemma_seq_eq(views(l@), views(r@), 0); }
    if l.len() != r.len() {
        return false;
    }
    let mut i: usize = 0;
    while i < l.len()
        invariant
            i <= l.len(),
            l.len() == r.len(),
            forall|m: int| 0 <= m < i ==> val_eq(#[trigger] views(l@)[m], views(r@)[m]),
        decreases l.len() - i,
    {
        proof {
            assert(decreases_to!(l => l@));
            assert(decreases_to!(l@ => l@[i as int]));
        }
        let same = mal_eq(&l[i], &r[i]);
        assert(views(l@)[i as int] == l@[i as int]@);
        assert(views(r@)[i as int] == r@[i as int]@);
        if !same {
            proof { lemma_seq_eq(views(l@), views(r@), 0); }
            return false;
        }
        i = i + 1;
    }
    true
}

/// Whether two hash-maps have the same size and each entry of the first is in the second
/// with an equal value.
fn maps_eq(l: &Vec<(String, MalType)>, r: &Vec<(String, MalType)>) -> (res: bool)
    ensures
        res == (l@.len() == r@.len() && entries_eq(entry_views(l@), entry_views(r@), 0)),
    decreases l, 1int,
{
    proof { lemma_entries_eq(entry_views(l@), entry_views(r@), 0); }
    if l.len() != r.len() {
        return false;
    }
    let mut i: usize = 0;
    while i < l.len()
        invariant
            i <= l.len(),
            l.len() == r.len(),
            forall|m: int| 0 <= m < i ==> find_key(entry_views(r@), #[trigger] entry_views(l@)[m].0) >= 0
                && val_eq(entry_views(l@)[m].1, entry_views(r@)[find_key(entry_views(r@), entry_views(l@)[m].0)].1),
        decreases l.len() - i,
    {
        match find_entry(r, l[i].0.as_str()) {
            Some(j) => {
                proof {
                    assert(decreases_to!(l => l@));
                    assert(decreases_to!(l@ => l@[i as int]));
                    assert(decreases_to!(l@[i as int] => l@[i as int].1));
                }
                let same = mal_eq(&l[i].1, &r[j].1);
                assert(entry_views(l@)[i as int] == (l@[i as int].0@, l@[i as int].1@));
                assert(entry_views(r@)[j as int] == (r@[j as int].0@, r@[j as int].1@));
                assert(find_key(entry_views(r@), entry_views(l@)[i as int].0) == j);
                if !same {
                    proof { lemma_entries_eq(entry_views(l@), entry_views(r@), 0); }
                    return false;
                }
            },
            None => {
                assert(entry_views(l@)[i as int] == (l@[i as int].0@, l@[i as int].1@));
                assert(find_key(entry_views(r@), entry_views(l@)[i as int].0) < 0);
                proof { lemma_entries_eq(entry_views(l@), entry_views(r@), 0); }
                return false;
            },
        }
        i = i + 1;
    }
    true
}

/// Whether a value is plain data: it holds no function, and each hash-map in it binds each
/// key once.
pub open spec fn is_data(v: Val) -> bool
    decreases v, 0int,
{
    match v {
        Val::BuiltinFunc(..) => false,
        Val::Lambda { .. } => false,
        Val::List(l, _) => all_data(l, 0),
        Val::Vector(l, _) => all_data(l, 0),
        Val::HashMap(e, _) => crate::assoc::keys_unique(e) && entries_data(e, 0),
        _ => true,
    }
}

/// Whether the values from position `i` on are plain data.
pub open spec fn all_data(l: Seq<Val>, i: int) -> bool
    decreases l, l.len() - i,
{
    if i < 0 || i >= l.len() { true } else { is_data(l[i]) && all_data(l, i + 1) }
}

/// Whether the values of the entries from position `i` on are plain data.
pub open spec fn entries_data(e: Seq<(Seq<char>, Val)>, i: int) -> bool
    decreases e, e.len() - i,
{
    if i < 0 || i >= e.len() { true } else { is_data(e[i].1) && entries_data(e, i + 1) }
}

/// Plain data is equal to itself; a function is equal to nothing, not even itself.
pub proof fn law_eq_reflexive(v: Val)
    ensures
        is_data(v) ==> val_eq(v, v),
        (v is BuiltinFunc || v is Lambda) ==> !val_eq(v, v),
    decreases v, 0int,
{
    if is_data(v) {
        match v {
            Val::List(l, _) => lemma_seq_eq_refl(l, 0),
            Val::Vector(l, _) => lemma_seq_eq_refl(l, 0),
            Val::HashMap(e, _) => lemma_entries_eq_refl(e, 0),
            _ => {},
        }
    }
}

proof fn lemma_seq_eq_refl(l: Seq<Val>, i: int)
    requires
        0 <= i,
        all_data(l, i),
    ensures
        seq_eq(l, l, i),
    decreases l, l.len() - i,
{
    if i < l.len() {
        law_eq_reflexive(l[i]);
        lemma_seq_eq_refl(l, i + 1);
    }
}

proof fn lemma_entries_eq_refl(e: Seq<(Seq<char>, Val)>, i: int)
    requires
        0 <= i,
        crate::assoc::keys_unique(e),
        entries_data(e, i),
    ensures
        entries_eq(e, e, i),
    decreases e, e.len() - i,
{
    if i < e.len() {
        lemma_find_key_from(e, e[i].0, 0);
        let j = find_key(e, e[i].0);
        assert(j == i) by {
            if j >= 0 && j != i {
                assert(e[j].0 == e[i].0);
            }
        }
        law_eq_reflexive(e[i].1);
        lemma_entries_eq_refl(e, i + 1);
    }
}

/// Whether each hash-map in a value, at any depth, binds each key once.
pub open spec fn unique_maps(v: Val) -> bool
    decreases v, 0int,
{
    match v {
        Val::List(l, _) => all_unique_maps(l, 0),
        Val::Vector(l, _) => all_unique_maps(l, 0),
        Val::HashMap(e, _) => crate::assoc::keys_unique(e) && entries_unique_maps(e, 0),
        _ => true,
    }
}

/// Whether the values from position `i` on satisfy [`unique_maps`].
pub open spec fn all_unique_maps(l: Seq<Val>, i: int) -> bool
    decreases l, l.len() - i,
{
    if i < 0 || i >= l.len() { true } else { unique_maps(l[i]) && all_unique_maps(l, i + 1) }
}

/// Whether the values of the entries from position `i` on satisfy [`unique_maps`].
pub open spec fn entries_unique_maps(e: Seq<(Seq<char>, Val)>, i: int) -> bool
    decreases e, e.len() - i,
{
    if i < 0 || i >= e.len() { true } else { unique_maps(e[i].1) && entries_unique_maps(e, i + 1) }
}

proof fn lemma_all_unique_maps(l: Seq<Val>, i: int, k: int)
    requires
        0 <= i <= k < l.len(),
        all_unique_maps(l, i),
    ensures
        unique_maps(l[k]),
    decreases k - i,
{
    if i < k {
        lemma_all_unique_maps(l, i + 1, k);
    }
}

proof fn lemma_entries_unique_maps(e: Seq<(Seq<char>, Val)>, i: int, k: int)
    requires
        0 <= i <= k < e.len(),
        entries_unique_maps(e, i),
    ensures
        unique_maps(e[k].1),
    decreases k - i,
{
    if i < k {
        lemma_entries_unique_maps(e, i + 1, k);
    }
}

/// Equality does not depend on the order of its operands, for values whose hash-maps bind
/// each key once.
pub proof fn law_eq_symmetric(a: Val, b: Val)
    requires
        unique_maps(a),
        unique_maps(b),
    ensures
        val_eq(a, b) == val_eq(b, a),
{
    if val_eq(a, b) {
        lemma_eq_flip(a, b);
    }
    if val_eq(b, a) {
        lemma_eq_flip(b, a);
    }
}

proof fn lemma_eq_flip(a: Val, b: Val)
    requires
        unique_maps(a),
        unique_maps(b),
        val_eq(a, b),
    ensures
        val_eq(b, a),
    decreases a, 0int,
{
    match (a, b) {
        (Val::List(l, _), Val::List(r, _)) => lemma_seq_eq_flip(l, r, 0),
        (Val::List(l, _), Val::Vector(r, _)) => lemma_seq_eq_flip(l, r, 0),
        (Val::Vector(l, _), Val::List(r, _)) => lemma_seq_eq_flip(l, r, 0),
        (Val::Vector(l, _), Val::Vector(r, _)) => lemma_seq_eq_flip(l, r, 0),
        (Val::HashMap(l, _), Val::HashMap(r, _)) => lemma_entries_eq_flip(l, r),
        _ => {},
    }
}

proof fn lemma_seq_eq_flip(l: Seq<Val>, r: Seq<Val>, i: int)
    requires
        0 <= i,
        all_unique_maps(l, i),
        all_unique_maps(r, i),
        seq_eq(l, r, i),
    ensures
        seq_eq(r, l, i),
    decreases l, l.len() - i,
{
    if i < l.len() {
        lemma_eq_flip(l[i], r[i]);
        lemma_seq_eq_flip(l, r, i + 1);
    }
}

proof fn lemma_entries_eq_flip(l: Seq<(Seq<char>, Val)>, r: Seq<(Seq<char>, Val)>)
    requires
        l.len() == r.len(),
        crate::assoc::keys_unique(l),
        crate::assoc::keys_unique(r),
        entries_unique_maps(l, 0),
        entries_unique_maps(r, 0),
        entries_eq(l, r, 0),
    ensures
        entries_eq(r, l, 0),
    decreases l, 1int,
{
    let n = l.len() as int;
    lemma_entries_eq(l, r, 0);
    let f = |i: int| find_key(r, l[i].0);
    let xs = vstd::set_lib::set_int_range(0, n);
    vstd::set_lib::lemma_int_range(0, n);
    assert forall|i: int| 0 <= i < n implies 0 <= #[trigger] f(i) < n && r[f(i)].0 == l[i].0 by {
        lemma_find_key_from(r, l[i].0, 0);
    }
    assert(vstd::relations::injective_on(f, xs)) by {
        assert forall|x1: int, x2: int| xs.contains(x1) && xs.contains(x2) && #[trigger] f(x1) == #[trigger] f(x2) implies x1 == x2 by {
            assert(l[x1].0 == r[f(x1)].0 && l[x2].0 == r[f(x2)].0);
        }
    }
    let ys = xs.map(f);
    vstd::set_lib::lemma_map_size(xs, ys, f);
    assert(ys.subset_of(xs)) by {
        assert forall|j: int| ys.contains(j) implies xs.contains(j) by {
            let i = choose|i: int| xs.contains(i) && j == f(i);
        }
    }
    vstd::set_lib::lemma_subset_equality(ys, xs);
    assert forall|j: int| 0 <= j < n implies find_key(l, #[trigger] r[j].0) >= 0
        && val_eq(r[j].1, l[find_key(l, r[j].0)].1) by {
        assert(xs.contains(j));
        assert(ys.contains(j));
        let i = choose|i: int| xs.contains(i) && j == f(i);
        assert(r[j].0 == l[i].0);
        lemma_find_key_from(l, l[i].0, 0);
        let k = find_key(l, l[i].0);
        assert(k == i) by {
            if k != i {
                assert(l[k].0 == l[i].0);
            }
        }
        lemma_entries_unique_maps(l, 0, i);
        lemma_entries_unique_maps(r, 0, j);
        assert(val_eq(l[i].1, r[f(i)].1));
        lemma_eq_flip(l[i].1, r[j].1);
    }
    lemma_entries_eq(r, l, 0);
}

/// Values equal to the same value are equal to each other.
pub proof fn law_eq_transitive(a: Val, b: Val, c: Val)
    requires
        val_eq(a, b),
        val_eq(b, c),
    ensures
        val_eq(a, c),
    decreases a, 0int,
{
    match (a, b, c) {
        (Val::List(l, _), Val::List(m, _), Val::List(r, _)) => lemma_seq_eq_trans(l, m, r, 0),
        (Val::List(l, _), Val::List(m, _), Val::Vector(r, _)) => lemma_seq_eq_trans(l, m, r, 0),
        (Val::List(l, _), Val::Vector(m, _), Val::List(r, _)) => lemma_seq_eq_trans(l, m, r, 0),
        (Val::List(l, _), Val::Vector(m, _), Val::Vector(r, _)) => lemma_seq_eq_trans(l, m, r, 0),
        (Val::Vector(l, _), Val::List(m, _), Val::List(r, _)) => lemma_seq_eq_trans(l, m, r, 0),
        (Val::Vector(l, _), Val::List(m, _), Val::Vector(r, _)) => lemma_seq_eq_trans(l, m, r, 0),
        (Val::Vector(l, _), Val::Vector(m, _), Val::List(r, _)) => lemma_seq_eq_trans(l, m, r, 0),
        (Val::Vector(l, _), Val::Vector(m, _), Val::Vector(r, _)) => lemma_seq_eq_trans(l, m, r, 0),
        (Val::HashMap(l, _), Val::HashMap(m, _), Val::HashMap(r, _)) => lemma_entries_eq_trans(l, m, r),
        _ => {},
    }
}

proof fn lemma_seq_eq_trans(l: Seq<Val>, m: Seq<Val>, r: Seq<Val>, i: int)
    requires
        0 <= i,
        seq_eq(l, m, i),
        seq_eq(m, r, i),
    ensures
        seq_eq(l, r, i),
    decreases l, l.len() - i,
{
    if i < l.len() {
        law_eq_transitive(l[i], m[i], r[i]);
        lemma_seq_eq_trans(l, m, r, i + 1);
    }
}

proof fn lemma_entries_eq_trans(l: Seq<(Seq<char>, Val)>, m: Seq<(Seq<char>, Val)>, r: Seq<(Seq<char>, Val)>)
    requires
        entries_eq(l, m, 0),
        entries_eq(m, r, 0),
    ensures
        entries_eq(l, r, 0),
    decreases l, 1int,
{
    lemma_entries_eq(l, m, 0);
    lemma_entries_eq(m, r, 0);
    assert forall|i: int| 0 <= i < l.len() implies find_key(r, #[trigger] l[i].0) >= 0
        && val_eq(l[i].1, r[find_key(r, l[i].0)].1) by {
        let j = find_key(m, l[i].0);
        lemma_find_key_from(m, l[i].0, 0);
        assert(m[j].0 == l[i].0);
        let k = find_key(r, m[j].0);
        law_eq_transitive(l[i].1, m[j].1, r[k].1);
    }
    lemma_entries_eq(l, r, 0);
}

} // verus!
