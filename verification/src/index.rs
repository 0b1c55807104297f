//! The index from keys to slots, held in a `dashmap::DashMap`.

use vstd::prelude::*;

use crate::key::{MetricKey, KeyId};

verus! {

/// The concurrent hash map of the crate `dashmap`.
#[verifier::external_type_specification]
#[verifier::external_body]
#[verifier::reject_recursive_types(K)]
#[verifier::reject_recursive_types(V)]
#[verifier::reject_recursive_types(S)]
pub struct ExDashMap<K, V, S>(dashmap::DashMap<K, V, S>);

/// The metric key of the crate `metrics`.
#[verifier::external_type_specification]
#[verifier::external_body]
pub struct ExMetricsKey(metrics::Key);

/// The slot that the index holds for each metric.
pub uninterp spec fn index_slots(index: dashmap::DashMap<metrics::Key, usize>) -> Map<KeyId, usize>;

/// Makes an index with `dashmap::DashMap::with_capacity`.
///
/// That function is stated to give a map without entries. It rounds the capacity up to its number
/// of shards, which overflows for capacities close to the largest integer.
#[verifier::external_body]
pub(crate) fn new_index(capacity: usize) -> (index: dashmap::DashMap<metrics::Key, usize>)
    requires
        capacity <= 0x1_0000,
    ensures
        (index_slots(index) == Map::<KeyId, usize>::empty()),
{
    dashmap::DashMap::with_capacity(capacity)
}

/// Looks a key up with `dashmap::DashMap::get`.
///
/// That function is stated to give the slot held under the key, if any. The index compares keys
/// as `metrics::Key` does: by their name, and by their labels without regard to order, save for
/// the order of labels with a common label key among three or more.
#[verifier::external_body]
pub(crate) fn find_slot(
    index: &dashmap::DashMap<metrics::Key, usize>,
    key: &MetricKey,
) -> (slot: Option<usize>)
    ensures
        slot is Some <==> index_slots(*index).contains_key(key@.id()),
        slot is Some ==> slot == Some(index_slots(*index)[key@.id()]),
{
    index.get(&metrics::Key::from_parts(key.name.clone(), &key.labels)).map(|slot| *slot)
}

/// Takes the entry for a key with `dashmap::DashMap::entry`, and its slot with `or_insert`.
///
/// The two are stated to give the slot held under the key where there is one, and to leave the
/// map as it was; else to put `slot` there and to give that. Keys are compared as in
/// [`find_slot`].
#[verifier::external_body]
pub(crate) fn slot_or_insert(
    index: &mut dashmap::DashMap<metrics::Key, usize>,
    key: &MetricKey,
    slot: usize,
) -> (held: usize)
    ensures
        index_slots(*old(index)).contains_key(key@.id()) ==> {
            &&& index_slots(*final(index)) == index_slots(*old(index))
            &&& held == index_slots(*old(index))[key@.id()]
        },
        !index_slots(*old(index)).contains_key(key@.id()) ==> {
            &&& index_slots(*final(index)) == index_slots(*old(index)).insert(key@.id(), slot)
            &&& held == slot
        },
{
    *index.entry(metrics::Key::from_parts(key.name.clone(), &key.labels)).or_insert(slot)
}

} // verus!
