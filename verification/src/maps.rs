//! The two concurrent maps that the store is built on. Every function here
//! holds the map exclusively or only reads it, so no other thread changes it
//! during a call, and no lock guard outlives a call.

use crate::record::{CacheObject, ObjectView, PartialObject, PartialView};
use dashmap::DashMap;
use vstd::prelude::*;

verus! {

/// `dashmap::DashMap`, a hash map in shards that are locked one by one.
#[verifier::external_type_specification]
#[verifier::external_body]
#[verifier::reject_recursive_types(K)]
#[verifier::reject_recursive_types(V)]
#[verifier::reject_recursive_types(S)]
pub struct ExDashMap<K, V, S>(DashMap<K, V, S>);

/// Complete objects by cache key.
pub type ObjectMap = DashMap<String, CacheObject>;

/// Writes in progress by cache key, then by write id.
pub type WriterMap = DashMap<String, DashMap<u64, PartialObject>>;

/// What a map of complete objects holds.
pub uninterp spec fn objects_in(m: DashMap<String, CacheObject>) -> Map<Seq<char>, ObjectView>;

/// What a map of writes in progress holds.
pub uninterp spec fn writers_in(m: DashMap<String, DashMap<u64, PartialObject>>) -> Map<
    Seq<char>,
    Map<u64, PartialView>,
>;

/// The writes in progress for `key`.
pub open spec fn writers_of(m: Map<Seq<char>, Map<u64, PartialView>>, key: Seq<char>) -> Map<
    u64,
    PartialView,
> {
    if m.contains_key(key) {
        m[key]
    } else {
        Map::empty()
    }
}

/// `listed` holds every write of `writers` once.
pub open spec fn lists(listed: Seq<(u64, PartialObject)>, writers: Map<u64, PartialView>) -> bool {
    &&& forall|i: int|
        0 <= i < listed.len() ==> writers.contains_key((#[trigger] listed[i]).0) && listed[i].1@
            == writers[listed[i].0]
    &&& forall|id: u64| #[trigger]
        writers.contains_key(id) ==> exists|i: int|
            0 <= i < listed.len() && (#[trigger] listed[i]).0 == id
    &&& forall|i: int, j: int|
        0 <= i < j < listed.len() ==> (#[trigger] listed[i]).0 != (#[trigger] listed[j]).0
}

/// A list of all writes is as long as there are writes.
pub proof fn lemma_lists_len(listed: Seq<(u64, PartialObject)>, writers: Map<u64, PartialView>)
    requires
        lists(listed, writers),
    ensures
        writers.dom().finite(),
        writers.len() == listed.len(),
{
    let ids = listed.map_values(|w: (u64, PartialObject)| w.0);
    assert(ids.no_duplicates()) by {
        assert forall|i: int, j: int| 0 <= i < ids.len() && 0 <= j < ids.len() && i != j implies ids[i]
            != ids[j] by {
            if i < j {
                assert(listed[i].0 != listed[j].0);
            } else {
                assert(listed[j].0 != listed[i].0);
            }
        }
    }
    ids.unique_seq_to_set();
    assert(writers.dom() =~= ids.to_set()) by {
        assert forall|id: u64| writers.contains_key(id) <==> ids.to_set().contains(id) by {
            if writers.contains_key(id) {
                let i = choose|i: int| 0 <= i < listed.len() && (#[trigger] listed[i]).0 == id;
                assert(ids[i] == id);
            }
            if ids.contains(id) {
                let i = choose|i: int| 0 <= i < ids.len() && ids[i] == id;
                assert(listed[i].0 == id);
            }
        }
    }
    vstd::seq_lib::seq_to_set_is_finite(ids);
}

/// `DashMap::new` makes a map that holds nothing.
#[verifier::external_body]
pub(crate) fn new_objects() -> (fresh: DashMap<String, CacheObject>)
    ensures
        (objects_in(fresh) == Map::<Seq<char>, ObjectView>::empty()),
{
    DashMap::new()
}

/// `DashMap::get` finds the value of a key. The value is copied out, sharing
/// the body.
#[verifier::external_body]
pub(crate) fn get_object(m: &DashMap<String, CacheObject>, key: &str) -> (found: Option<
    CacheObject,
>)
    ensures
        found is Some <==> objects_in(*m).contains_key(key@),
        found is Some ==> found->0@ == objects_in(*m)[key@],
{
    m.get(key).map(|entry| entry.value().clone())
}

/// `DashMap::insert` sets the value of a key, replacing any former value.
#[verifier::external_body]
pub(crate) fn insert_object(m: &mut DashMap<String, CacheObject>, key: String, object: CacheObject)
    ensures
        objects_in(*final(m)) == objects_in(*old(m)).insert(key@, object@),
{
    m.insert(key, object);
}

/// `DashMap::remove` drops a key with its value, and tells whether it was
/// there.
#[verifier::external_body]
pub(crate) fn remove_object(m: &mut DashMap<String, CacheObject>, key: &str) -> (existed: bool)
    ensures
        objects_in(*final(m)) == objects_in(*old(m)).remove(key@),
        existed == objects_in(*old(m)).contains_key(key@),
{
    m.remove(key).is_some()
}

/// `DashMap::len` counts the keys.
#[verifier::external_body]
pub(crate) fn count_objects(m: &DashMap<String, CacheObject>) -> (n: usize)
    ensures
        n == objects_in(*m).len(),
{
    m.len()
}

/// `DashMap::new` makes a map that holds nothing.
#[verifier::external_body]
pub(crate) fn new_writers() -> (fresh: DashMap<String, DashMap<u64, PartialObject>>)
    ensures
        (writers_in(fresh) == Map::<Seq<char>, Map<u64, PartialView>>::empty()),
{
    DashMap::new()
}

/// `DashMap::entry` with `or_default` finds the inner map of a key, or puts an
/// empty one there, and `DashMap::insert` sets the value of the write id in it.
#[verifier::external_body]
pub(crate) fn insert_writer(
    m: &mut DashMap<String, DashMap<u64, PartialObject>>,
    key: String,
    id: u64,
    writer: PartialObject,
)
    ensures
        writers_in(*final(m)) == writers_in(*old(m)).insert(
            key@,
            writers_of(writers_in(*old(m)), key@).insert(id, writer@),
        ),
{
    m.entry(key).or_default().insert(id, writer);
}

/// `DashMap::get` finds the inner map of a key, and `DashMap::iter` walks it,
/// handing out every value with its write id once, in no particular order. The
/// values are copied out. The result is `None` when the key has no inner map.
#[verifier::external_body]
pub(crate) fn list_writers(m: &DashMap<String, DashMap<u64, PartialObject>>, key: &str) -> (found:
    Option<Vec<(u64, PartialObject)>>)
    ensures
        found is Some <==> writers_in(*m).contains_key(key@),
        found matches Some(writers) ==> lists(writers@, writers_in(*m)[key@]),
{
    m.get(key).map(|inner| inner.iter().map(|e| (*e.key(), e.value().clone())).collect())
}

/// `DashMap::get` finds the inner map of a key, and `DashMap::remove` drops a
/// write id from it and tells whether it was there. The result is `None` when
/// the key has no inner map.
#[verifier::external_body]
pub(crate) fn remove_writer(
    m: &mut DashMap<String, DashMap<u64, PartialObject>>,
    key: &str,
    id: u64,
) -> (removed: Option<bool>)
    ensures
        removed is Some <==> writers_in(*old(m)).contains_key(key@),
        removed is Some ==> removed->0 == writers_in(*old(m))[key@].contains_key(id)
            && writers_in(*final(m)) == writers_in(*old(m)).insert(
            key@,
            writers_in(*old(m))[key@].remove(id),
        ),
        removed is None ==> writers_in(*final(m)) == writers_in(*old(m)),
{
    m.get(key).map(|w| w.remove(&id).is_some())
}

/// `DashMap::get` finds the inner map of a key, and `DashMap::is_empty` tells
/// whether it holds nothing. The result is `None` when the key has no inner
/// map.
#[verifier::external_body]
pub(crate) fn no_writers_left(m: &DashMap<String, DashMap<u64, PartialObject>>, key: &str) -> (empty:
    Option<bool>)
    ensures
        empty is Some <==> writers_in(*m).contains_key(key@),
        empty is Some ==> (empty->0 <==> writers_in(*m)[key@] == Map::<u64, PartialView>::empty()),
{
    m.get(key).map(|w| w.is_empty())
}

/// `DashMap::remove` drops a key with its inner map, and tells whether it was
/// there.
#[verifier::external_body]
pub(crate) fn remove_writers(m: &mut DashMap<String, DashMap<u64, PartialObject>>, key: &str) -> (
existed: bool)
    ensures
        writers_in(*final(m)) == writers_in(*old(m)).remove(key@),
        existed == writers_in(*old(m)).contains_key(key@),
{
    m.remove(key).is_some()
}

} // verus!
