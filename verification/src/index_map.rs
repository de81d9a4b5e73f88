//! Insertion-ordered maps from the `indexmap` crate, as the passes use
//! them: the module table of a project and the "seen" tables that detect
//! repeated slots and action names.
//!
//! The contents of each map are named as a sequence of entries in
//! insertion order; the wrappers below state what `indexmap` does to that
//! sequence. Keys are unique: inserting an equal key updates the entry in
//! place and keeps its position.

use vstd::prelude::*;
use indexmap::IndexMap;
use crate::project::ModuleAggregate;
use crate::slot::SlotKind;
use crate::span::Span;

verus! {

#[verifier::external_type_specification]
#[verifier::external_body]
#[verifier::reject_recursive_types(K)]
#[verifier::reject_recursive_types(V)]
#[verifier::reject_recursive_types(S)]
pub struct ExIndexMap<K, V, S>(IndexMap<K, V, S>);

/// Entries of a module table, in insertion order (key by its text).
pub uninterp spec fn module_entries(m: IndexMap<String, ModuleAggregate>) -> Seq<(Seq<char>, ModuleAggregate)>;

/// Entries of a slot-kind table, in insertion order.
pub uninterp spec fn slot_span_entries(m: IndexMap<SlotKind, Span>) -> Seq<(SlotKind, Span)>;

/// Entries of a name table, in insertion order (key by its text).
pub uninterp spec fn name_span_entries(m: IndexMap<String, Span>) -> Seq<(Seq<char>, Span)>;

/// Index of the first entry whose key is `k`.
pub open spec fn key_index<K, V>(entries: Seq<(K, V)>, k: K) -> Option<int>
    decreases entries.len(),
{
    if entries.len() == 0 {
        None
    } else {
        match key_index(entries.drop_last(), k) {
            Some(i) => Some(i),
            None => if entries.last().0 == k { Some(entries.len() - 1) } else { None },
        }
    }
}

/// The entries after `insert(k, v)`: an existing key keeps its place and
/// takes the new value; a new key goes last.
pub open spec fn inserted<K, V>(entries: Seq<(K, V)>, k: K, v: V) -> Seq<(K, V)> {
    match key_index(entries, k) {
        Some(i) => entries.update(i, (k, v)),
        None => entries.push((k, v)),
    }
}

/// The value `insert(k, v)` hands back: the previous value for `k`.
pub open spec fn previous<K, V>(entries: Seq<(K, V)>, k: K) -> Option<V> {
    match key_index(entries, k) {
        Some(i) => Some(entries[i].1),
        None => None,
    }
}

pub proof fn lemma_key_index<K, V>(entries: Seq<(K, V)>, k: K)
    ensures
        key_index(entries, k) matches Some(i) ==> 0 <= i < entries.len() && entries[i].0 == k
            && forall|j: int| 0 <= j < i ==> entries[j].0 != k,
        key_index(entries, k) is None ==> forall|j: int| 0 <= j < entries.len() ==> entries[j].0 != k,
    decreases entries.len(),
{
    if entries.len() > 0 {
        let init = entries.drop_last();
        lemma_key_index(init, k);
        match key_index(init, k) {
            Some(i) => {
                assert forall|j: int| 0 <= j < i implies entries[j].0 != k by {
                    assert(init[j] == entries[j]);
                }
                assert(init[i] == entries[i]);
            },
            None => {
                assert forall|j: int| 0 <= j < entries.len() - 1 implies entries[j].0 != k by {
                    assert(init[j] == entries[j]);
                }
            },
        }
    }
}

/// Two entry lists with the same keys position by position find every
/// key at the same index.
pub proof fn lemma_key_index_same_keys<K, V, W>(a: Seq<(K, V)>, b: Seq<(K, W)>, k: K)
    requires
        a.len() == b.len(),
        forall|j: int| 0 <= j < a.len() ==> a[j].0 == b[j].0,
    ensures
        key_index(a, k) == key_index(b, k),
    decreases a.len(),
{
    if a.len() > 0 {
        assert forall|j: int| 0 <= j < a.len() - 1 implies a.drop_last()[j].0 == b.drop_last()[j].0 by {
            assert(a.drop_last()[j] == a[j]);
            assert(b.drop_last()[j] == b[j]);
        }
        lemma_key_index_same_keys(a.drop_last(), b.drop_last(), k);
    }
}

/// After `insert(k0, v0)` the previous value of `k0` is `v0` and every
/// other key keeps its previous value.
pub proof fn lemma_previous_inserted<K, V>(e: Seq<(K, V)>, k0: K, v0: V, k: K)
    ensures
        previous(inserted(e, k0, v0), k) == if k == k0 { Some(v0) } else { previous(e, k) },
{
    lemma_key_index(e, k0);
    lemma_key_index(e, k);
    match key_index(e, k0) {
        Some(i) => {
            let e2 = e.update(i, (k0, v0));
            assert forall|j: int| 0 <= j < e.len() implies e[j].0 == e2[j].0 by {}
            lemma_key_index_same_keys(e, e2, k);
        },
        None => {
            let e2 = e.push((k0, v0));
            assert(e2.drop_last() =~= e);
            lemma_key_index(e2, k);
        },
    }
}

/// `IndexMap::new` for the module table.
#[verifier::external_body]
pub(crate) fn modules_new() -> (r: IndexMap<String, ModuleAggregate>)
    ensures
        module_entries(r) == Seq::<(Seq<char>, ModuleAggregate)>::empty(),
{
    IndexMap::new()
}

/// `IndexMap::len` for the module table.
#[verifier::external_body]
pub(crate) fn modules_len(m: &IndexMap<String, ModuleAggregate>) -> (r: usize)
    ensures
        r == module_entries(*m).len(),
{
    m.len()
}

/// `IndexMap::get_index` for the module table.
#[verifier::external_body]
pub(crate) fn modules_get_index(m: &IndexMap<String, ModuleAggregate>, i: usize) -> (r: Option<(&String, &ModuleAggregate)>)
    ensures
        r is Some <==> i < module_entries(*m).len(),
        r matches Some(kv) ==> kv.0@ == module_entries(*m)[i as int].0 && *kv.1 == module_entries(*m)[i as int].1,
{
    m.get_index(i)
}

/// `IndexMap::get_index_of` for the module table.
#[verifier::external_body]
pub(crate) fn modules_get_index_of(m: &IndexMap<String, ModuleAggregate>, key: &str) -> (r: Option<usize>)
    ensures
        r matches Some(i) ==> key_index(module_entries(*m), key@) == Some(i as int),
        r is None ==> key_index(module_entries(*m), key@) is None,
{
    m.get_index_of(key)
}

/// `IndexMap::insert` for the module table.
#[verifier::external_body]
pub(crate) fn modules_insert(m: &mut IndexMap<String, ModuleAggregate>, key: String, value: ModuleAggregate) -> (r: Option<ModuleAggregate>)
    ensures
        module_entries(*final(m)) == inserted(module_entries(*old(m)), key@, value),
        r == previous(module_entries(*old(m)), key@),
{
    m.insert(key, value)
}

/// `IndexMap::new` for a slot-kind table.
#[verifier::external_body]
pub(crate) fn slot_spans_new() -> (r: IndexMap<SlotKind, Span>)
    ensures
        slot_span_entries(r) == Seq::<(SlotKind, Span)>::empty(),
{
    IndexMap::new()
}

/// `IndexMap::insert` for a slot-kind table.
#[verifier::external_body]
pub(crate) fn slot_spans_insert(m: &mut IndexMap<SlotKind, Span>, key: SlotKind, value: Span) -> (r: Option<Span>)
    ensures
        slot_span_entries(*final(m)) == inserted(slot_span_entries(*old(m)), key, value),
        r == previous(slot_span_entries(*old(m)), key),
{
    m.insert(key, value)
}

/// `IndexMap::new` for a name table.
#[verifier::external_body]
pub(crate) fn name_spans_new() -> (r: IndexMap<String, Span>)
    ensures
        name_span_entries(r) == Seq::<(Seq<char>, Span)>::empty(),
{
    IndexMap::new()
}

/// `IndexMap::insert` for a name table.
#[verifier::external_body]
pub(crate) fn name_spans_insert(m: &mut IndexMap<String, Span>, key: String, value: Span) -> (r: Option<Span>)
    ensures
        name_span_entries(*final(m)) == inserted(name_span_entries(*old(m)), key@, value),
        r == previous(name_span_entries(*old(m)), key@),
{
    m.insert(key, value)
}

} // verus!
