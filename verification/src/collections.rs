//! The hashed and small-vector collections that the engine keeps its indexes
//! in, with what this crate takes for granted of them.
//!
//! Nothing in this file is proved. Each item names the outside function that it
//! stands for and says what it claims of it.

use crate::graph::Edge;
use crate::runtime::RuntimeId;
use indexmap::IndexSet;
use rustc_hash::FxHashMap;
use rustc_hash::FxHasher;
use smallvec::SmallVec;
use std::hash::BuildHasherDefault;
use std::hash::Hash;
use vstd::prelude::*;
use vstd::std_specs::hash::obeys_key_model;

verus! {

/// `rustc_hash::FxHasher`, the hasher of every hashed collection here. Nothing
/// is claimed of it but that it is a type.
#[verifier::external_type_specification]
#[verifier::external_body]
pub struct ExFxHasher(FxHasher);

/// `std::hash::BuildHasherDefault`, which makes a hasher by `Default`. Nothing
/// is claimed of it but that it is a type.
#[verifier::external_type_specification]
#[verifier::external_body]
#[verifier::reject_recursive_types(H)]
pub struct ExBuildHasherDefault<H>(BuildHasherDefault<H>);

/// `indexmap::IndexSet`, a set that remembers the order in which its items
/// came. Nothing is claimed of it but that it is a type.
#[verifier::external_type_specification]
#[verifier::external_body]
#[verifier::reject_recursive_types(T)]
#[verifier::reject_recursive_types(S)]
pub struct ExIndexSet<T, S>(IndexSet<T, S>);

/// A set of numbers in insertion order, hashed with `FxHasher`.
pub type FxIndexSet = IndexSet<u64, BuildHasherDefault<FxHasher>>;

/// The items of an `IndexSet`, oldest first.
pub uninterp spec fn index_set_items(s: IndexSet<u64, BuildHasherDefault<FxHasher>>) -> Seq<u64>;

/// A short list of runtimes, held in a `smallvec::SmallVec` that keeps up to
/// four of them without allocating: those that wait for a query or a fork in
/// the graph's indexes, and those that wait at a slot.
#[verifier::external_body]
pub struct IdList {
    inner: SmallVec<[RuntimeId; 4]>,
}

/// The items of an `IdList`, oldest first.
pub uninterp spec fn id_list_items(l: IdList) -> Seq<RuntimeId>;

/// The edges that leave one runtime, held in a `smallvec::SmallVec` that keeps
/// one of them without allocating.
#[verifier::external_body]
pub struct EdgeList {
    inner: SmallVec<[Edge; 1]>,
}

/// The items of an `EdgeList`, oldest first.
pub uninterp spec fn edge_list_items(l: EdgeList) -> Seq<Edge>;

/// `HashMap::get` on a map hashed with `FxHasher`. Claims that the map answers
/// as its view does: the value stored under `k`, or `None` where the view has
/// no such key. `FxHasher` starts from a fixed state and hashes without chance,
/// so equal keys always meet.
#[verifier::external_body]
pub(crate) fn fx_get<'a, K: Eq + Hash, V>(m: &'a FxHashMap<K, V>, k: &K) -> (r: Option<&'a V>)
    ensures
        obeys_key_model::<K>() ==> (match r {
            Some(v) => m@.contains_key(*k) && *v == m@[*k],
            None => !m@.contains_key(*k),
        }),
{
    m.get(k)
}

/// `HashMap::insert` on a map hashed with `FxHasher`. Claims that afterwards
/// the view holds `v` under `k` and is otherwise as before, and that the value
/// that `k` had before, if any, is returned.
#[verifier::external_body]
pub(crate) fn fx_insert<K: Eq + Hash, V>(m: &mut FxHashMap<K, V>, k: K, v: V) -> (r: Option<V>)
    ensures
        obeys_key_model::<K>() ==> final(m)@ == old(m)@.insert(k, v),
        obeys_key_model::<K>() ==> (match r {
            Some(w) => old(m)@.contains_key(k) && w == old(m)@[k],
            None => !old(m)@.contains_key(k),
        }),
{
    m.insert(k, v)
}

/// `HashMap::remove` on a map hashed with `FxHasher`. Claims that afterwards
/// the view lacks `k` and is otherwise as before, and that the value that `k`
/// had, if any, is returned.
#[verifier::external_body]
pub(crate) fn fx_remove<K: Eq + Hash, V>(m: &mut FxHashMap<K, V>, k: &K) -> (r: Option<V>)
    ensures
        obeys_key_model::<K>() ==> final(m)@ == old(m)@.remove(*k),
        obeys_key_model::<K>() ==> (match r {
            Some(w) => old(m)@.contains_key(*k) && w == old(m)@[*k],
            None => !old(m)@.contains_key(*k),
        }),
{
    m.remove(k)
}

/// `HashMap::len` on a map hashed with `FxHasher`. Claims that the result is
/// the number of keys in the view.
#[verifier::external_body]
pub(crate) fn fx_len<K: Eq + Hash, V>(m: &FxHashMap<K, V>) -> (n: usize)
    ensures
        obeys_key_model::<K>() ==> n == m@.dom().len(),
{
    m.len()
}

/// `IndexSet::default`. Claims that the new set has no item.
#[verifier::external_body]
pub(crate) fn index_set_new() -> (s: FxIndexSet)
    ensures
        index_set_items(s) == Seq::<u64>::empty(),
{
    IndexSet::default()
}

/// `IndexSet::insert`. Claims what its documentation says: an item that the
/// set already holds is left where it is and `false` is returned; a new item
/// goes to the end and `true` is returned.
#[verifier::external_body]
pub(crate) fn index_set_insert(s: &mut FxIndexSet, x: u64) -> (fresh: bool)
    ensures
        fresh == !index_set_items(*old(s)).contains(x),
        index_set_items(*final(s)) == if fresh {
            index_set_items(*old(s)).push(x)
        } else {
            index_set_items(*old(s))
        },
{
    s.insert(x)
}

/// `IndexSet::into_iter`, collected. Claims that the items come out in the
/// order in which the set holds them.
#[verifier::external_body]
pub(crate) fn index_set_into_vec(s: FxIndexSet) -> (v: Vec<u64>)
    ensures
        v@ == index_set_items(s),
{
    s.into_iter().collect()
}

/// `SmallVec::new`, for a list of runtimes. Claims that the new list has no
/// item.
#[verifier::external_body]
pub(crate) fn id_list_new() -> (l: IdList)
    ensures
        id_list_items(l) == Seq::<RuntimeId>::empty(),
{
    IdList { inner: SmallVec::new() }
}

/// `SmallVec::push`, for a list of runtimes. Claims that the item is added at
/// the end and the others stay as they are.
#[verifier::external_body]
pub(crate) fn id_list_push(l: &mut IdList, id: RuntimeId)
    ensures
        id_list_items(*final(l)) == id_list_items(*old(l)).push(id),
{
    l.inner.push(id)
}

/// `SmallVec::as_slice`, for a list of runtimes. Claims that the slice shows
/// the items of the list in the order in which the list holds them.
#[verifier::external_body]
pub(crate) fn id_list_as_slice(l: &IdList) -> (items: &[RuntimeId])
    ensures
        items@ == id_list_items(*l),
{
    l.inner.as_slice()
}

/// `SmallVec::new`, for a list of edges. Claims that the new list has no item.
#[verifier::external_body]
pub(crate) fn edge_list_new() -> (l: EdgeList)
    ensures
        edge_list_items(l) == Seq::<Edge>::empty(),
{
    EdgeList { inner: SmallVec::new() }
}

/// `SmallVec::push`, for a list of edges. Claims that the item is added at the
/// end and the others stay as they are.
#[verifier::external_body]
pub(crate) fn edge_list_push(l: &mut EdgeList, edge: Edge)
    ensures
        edge_list_items(*final(l)) == edge_list_items(*old(l)).push(edge),
{
    l.inner.push(edge)
}

/// `SmallVec::as_slice`, for a list of edges. Claims that the slice shows the
/// items of the list in the order in which the list holds them.
#[verifier::external_body]
pub(crate) fn edge_list_as_slice(l: &EdgeList) -> (items: &[Edge])
    ensures
        items@ == edge_list_items(*l),
{
    l.inner.as_slice()
}

/// `SmallVec::swap_remove`. Claims what its documentation says: the item at
/// the place `i` is taken out and returned, and the last item is put in its
/// place; the others stay where they are. The place must exist.
#[verifier::external_body]
pub(crate) fn edge_list_swap_remove(l: &mut EdgeList, i: usize) -> (taken: Edge)
    requires
        i < edge_list_items(*old(l)).len(),
    ensures
        taken == edge_list_items(*old(l))[i as int],
        edge_list_items(*final(l)) == edge_list_items(*old(l)).update(
            i as int,
            edge_list_items(*old(l)).last(),
        ).drop_last(),
{
    l.inner.swap_remove(i)
}

} // verus!
