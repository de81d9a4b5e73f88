//! Insertion-ordered sets and maps of owned names, as the obligation
//! pass uses them. A set holds no element twice and keeps first-seen
//! order; a map holds each key once, in first-seen order, with the value
//! of its latest insertion.

use vstd::prelude::*;
use crate::index_map::{key_index, inserted, lemma_key_index};
use crate::text::{str_eq, names_view};

verus! {

/// The texts of a list of owned name pairs.
pub open spec fn pairs_view(v: Seq<(String, String)>) -> Seq<(Seq<char>, Seq<char>)> {
    v.map_values(|p: (String, String)| (p.0@, p.1@))
}

/// `s` with `x` added unless already present.
pub open spec fn set_inserted<T>(s: Seq<T>, x: T) -> Seq<T> {
    if s.contains(x) {
        s
    } else {
        s.push(x)
    }
}

/// `s` with each of `items` added in turn.
pub open spec fn add_all<T>(s: Seq<T>, items: Seq<T>) -> Seq<T>
    decreases items.len(),
{
    if items.len() == 0 {
        s
    } else {
        set_inserted(add_all(s, items.drop_last()), items.last())
    }
}

/// The entries `e` after inserting each of `items` in turn.
pub open spec fn insert_all<K, V>(e: Seq<(K, V)>, items: Seq<(K, V)>) -> Seq<(K, V)>
    decreases items.len(),
{
    if items.len() == 0 {
        e
    } else {
        let prev = insert_all(e, items.drop_last());
        inserted(prev, items.last().0, items.last().1)
    }
}

/// Adding one element is one insertion.
pub proof fn lemma_add_all_one<T>(s: Seq<T>, x: T)
    ensures
        add_all(s, seq![x]) == set_inserted(s, x),
{
    reveal_with_fuel(add_all, 2);
    assert(seq![x].drop_last() =~= Seq::<T>::empty());
}

/// Inserting one entry is one `inserted`.
pub proof fn lemma_insert_all_one<K, V>(e: Seq<(K, V)>, k: K, v: V)
    ensures
        insert_all(e, seq![(k, v)]) == inserted(e, k, v),
{
    reveal_with_fuel(insert_all, 2);
    assert(seq![(k, v)].drop_last() =~= Seq::<(K, V)>::empty());
}

/// Adding `a` then `b` is adding `a + b`.
pub proof fn lemma_add_all_concat<T>(s: Seq<T>, a: Seq<T>, b: Seq<T>)
    ensures
        add_all(add_all(s, a), b) == add_all(s, a + b),
    decreases b.len(),
{
    if b.len() == 0 {
        assert(a + b =~= a);
    } else {
        lemma_add_all_concat(s, a, b.drop_last());
        assert((a + b).drop_last() =~= a + b.drop_last());
    }
}

/// Inserting `a` then `b` is inserting `a + b`.
pub proof fn lemma_insert_all_concat<K, V>(e: Seq<(K, V)>, a: Seq<(K, V)>, b: Seq<(K, V)>)
    ensures
        insert_all(insert_all(e, a), b) == insert_all(e, a + b),
    decreases b.len(),
{
    if b.len() == 0 {
        assert(a + b =~= a);
    } else {
        lemma_insert_all_concat(e, a, b.drop_last());
        assert((a + b).drop_last() =~= a + b.drop_last());
    }
}

/// A set never holds an element twice.
pub open spec fn no_dups<T>(s: Seq<T>) -> bool {
    forall|i: int, j: int| 0 <= i < j < s.len() ==> s[i] != s[j]
}

proof fn lemma_push_contains<T>(r: Seq<T>, y: T, x: T)
    ensures
        r.push(y).contains(x) <==> (r.contains(x) || x == y),
{
    if r.contains(x) {
        let k = choose|k: int| 0 <= k < r.len() && r[k] == x;
        assert(r.push(y)[k] == x);
    }
    if x == y {
        assert(r.push(y)[r.len() as int] == y);
    }
    if r.push(y).contains(x) {
        let k = choose|k: int| 0 <= k < r.len() + 1 && r.push(y)[k] == x;
        if k < r.len() {
            assert(r[k] == x);
        }
    }
}

/// Adding to a set keeps it free of repetitions, and the result holds
/// exactly what was there and what was added.
pub proof fn lemma_add_all_no_dups<T>(s: Seq<T>, items: Seq<T>)
    requires
        no_dups(s),
    ensures
        no_dups(add_all(s, items)),
        forall|x: T| add_all(s, items).contains(x) <==> (s.contains(x) || items.contains(x)),
    decreases items.len(),
{
    if items.len() > 0 {
        lemma_add_all_no_dups(s, items.drop_last());
        let r = add_all(s, items.drop_last());
        let y = items.last();
        assert(items =~= items.drop_last().push(y));
        assert forall|x: T| add_all(s, items).contains(x) <==> (s.contains(x) || items.contains(x)) by {
            lemma_push_contains(r, y, x);
            lemma_push_contains(items.drop_last(), y, x);
        }
        if !r.contains(y) {
            assert forall|i: int, j: int| 0 <= i < j < r.len() + 1 implies r.push(y)[i] != r.push(y)[j] by {
                if j == r.len() {
                    assert(r[i] != y);
                }
            }
        }
    }
}

/// Add a name to a set of names.
pub fn set_insert_name(v: &mut Vec<String>, x: String)
    ensures
        names_view(final(v)@) == set_inserted(names_view(old(v)@), x@),
{
    let mut i: usize = 0;
    while i < v.len()
        invariant
            i <= v@.len(),
            forall|j: int| 0 <= j < i ==> v@[j]@ != x@,
        decreases v@.len() - i,
    {
        if str_eq(v[i].as_str(), x.as_str()) {
            proof {
                assert(names_view(v@)[i as int] == x@);
            }
            return;
        }
        i += 1;
    }
    proof {
        assert(!names_view(v@).contains(x@)) by {
            if names_view(v@).contains(x@) {
                let j = choose|j: int| 0 <= j < names_view(v@).len() && names_view(v@)[j] == x@;
                assert(v@[j]@ == x@);
            }
        }
    }
    let ghost before = v@;
    v.push(x);
    proof {
        assert(names_view(v@) =~= names_view(before).push(x@));
    }
}

/// Add a pair of names to a set of pairs.
pub fn set_insert_pair(v: &mut Vec<(String, String)>, a: String, b: String)
    ensures
        pairs_view(final(v)@) == set_inserted(pairs_view(old(v)@), (a@, b@)),
{
    let mut i: usize = 0;
    while i < v.len()
        invariant
            i <= v@.len(),
            forall|j: int| 0 <= j < i ==> (v@[j].0@, v@[j].1@) != (a@, b@),
        decreases v@.len() - i,
    {
        if str_eq(v[i].0.as_str(), a.as_str()) && str_eq(v[i].1.as_str(), b.as_str()) {
            proof {
                assert(pairs_view(v@)[i as int] == (a@, b@));
            }
            return;
        }
        i += 1;
    }
    proof {
        assert(!pairs_view(v@).contains((a@, b@))) by {
            if pairs_view(v@).contains((a@, b@)) {
                let j = choose|j: int| 0 <= j < pairs_view(v@).len() && pairs_view(v@)[j] == (a@, b@);
                assert((v@[j].0@, v@[j].1@) == (a@, b@));
            }
        }
    }
    let ghost before = v@;
    v.push((a, b));
    proof {
        assert(pairs_view(v@) =~= pairs_view(before).push((a@, b@)));
    }
}

/// Index of the entry with key `k` in a map of name pairs.
pub fn pair_key_index(v: &Vec<(String, String)>, k: &str) -> (r: Option<usize>)
    ensures
        r matches Some(i) ==> key_index(pairs_view(v@), k@) == Some(i as int),
        r is None ==> key_index(pairs_view(v@), k@) is None,
{
    let ghost e = pairs_view(v@);
    proof {
        lemma_key_index(e, k@);
    }
    let mut i: usize = 0;
    while i < v.len()
        invariant
            i <= v@.len(),
            e == pairs_view(v@),
            forall|j: int| 0 <= j < i ==> e[j].0 != k@,
            key_index(e, k@) matches Some(ki) ==> 0 <= ki < e.len() && e[ki].0 == k@
                && forall|j: int| 0 <= j < ki ==> e[j].0 != k@,
            key_index(e, k@) is None ==> forall|j: int| 0 <= j < e.len() ==> e[j].0 != k@,
        decreases v@.len() - i,
    {
        if str_eq(v[i].0.as_str(), k) {
            proof {
                assert(e[i as int].0 == k@);
            }
            return Some(i);
        }
        i += 1;
    }
    None
}

/// Insert `k -> val` into a map of name pairs: an existing key keeps its
/// place and takes the new value; a new key goes last.
pub fn map_insert_pair(v: &mut Vec<(String, String)>, k: String, val: String)
    ensures
        pairs_view(final(v)@) == inserted(pairs_view(old(v)@), k@, val@),
{
    let ghost before = v@;
    proof {
        lemma_key_index(pairs_view(v@), k@);
    }
    match pair_key_index(v, k.as_str()) {
        Some(i) => {
            v.set(i, (k, val));
            proof {
                assert(pairs_view(v@) =~= pairs_view(before).update(i as int, (k@, val@)));
            }
        },
        None => {
            v.push((k, val));
            proof {
                assert(pairs_view(v@) =~= pairs_view(before).push((k@, val@)));
            }
        },
    }
}

} // verus!
