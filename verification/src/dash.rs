//! The maps that requests share: `dashmap::DashMap`, with what its methods do
//! to its contents. A map is changed through a mutable reference only, so
//! nobody else reaches it meanwhile.

use crate::value::ColumnType;
use dashmap::DashMap;
use std::sync::Arc;
use vstd::prelude::*;
use vstd::string::*;

verus! {

/// `dashmap::DashMap`, a hash map in shards that are locked one by one.
#[verifier::external_type_specification]
#[verifier::external_body]
#[verifier::reject_recursive_types(K)]
#[verifier::reject_recursive_types(V)]
#[verifier::reject_recursive_types(S)]
pub struct ExDashMap<K, V, S>(dashmap::DashMap<K, V, S>);

/// What a map from stream ids to numbers holds.
pub uninterp spec fn streams_of(map: DashMap<i16, u64>) -> Map<i16, u64>;

/// `DashMap::with_capacity`: the map has no keys, and room for some.
#[verifier::external_body]
pub(crate) fn new_streams(capacity: usize) -> (map: DashMap<i16, u64>)
    requires
        capacity <= 0x1_0000,
    ensures
        streams_of(map).dom() == Set::<i16>::empty(),
{
    DashMap::with_capacity(capacity)
}

/// `DashMap::insert`: the key has the value, and no other key changes.
#[verifier::external_body]
pub(crate) fn insert_stream(map: &mut DashMap<i16, u64>, key: i16, value: u64)
    ensures
        streams_of(*final(map)) == streams_of(*old(map)).insert(key, value),
{
    map.insert(key, value);
}

/// `DashMap::remove`: the key is gone, its value is handed out, and no other key changes.
#[verifier::external_body]
pub(crate) fn remove_stream(map: &mut DashMap<i16, u64>, key: i16) -> (r: Option<u64>)
    ensures
        streams_of(*final(map)) == streams_of(*old(map)).remove(key),
        r == streams_of(*old(map)).get(key),
{
    map.remove(&key).map(|entry| entry.1)
}

/// `DashMap::clear`: no key is left.
#[verifier::external_body]
pub(crate) fn clear_streams(map: &mut DashMap<i16, u64>)
    ensures
        streams_of(*final(map)).dom() == Set::<i16>::empty(),
{
    map.clear();
}

/// `DashMap::len`: the number of keys.
#[verifier::external_body]
pub(crate) fn count_streams(map: &DashMap<i16, u64>) -> (n: usize)
    ensures
        n == streams_of(*map).dom().len(),
{
    map.len()
}

/// What a map from session ids to numbers holds.
pub uninterp spec fn sessions_of(map: DashMap<u64, u64>) -> Map<u64, u64>;

/// `DashMap::new`: the map has no keys.
#[verifier::external_body]
pub(crate) fn new_sessions() -> (map: DashMap<u64, u64>)
    ensures
        sessions_of(map).dom() == Set::<u64>::empty(),
{
    DashMap::new()
}

/// `DashMap::insert`: the key has the value, and no other key changes.
#[verifier::external_body]
pub(crate) fn insert_session(map: &mut DashMap<u64, u64>, key: u64, value: u64)
    ensures
        sessions_of(*final(map)) == sessions_of(*old(map)).insert(key, value),
{
    map.insert(key, value);
}

/// `DashMap::get`: the value of the key, if the key is there.
#[verifier::external_body]
pub(crate) fn get_session(map: &DashMap<u64, u64>, key: u64) -> (r: Option<u64>)
    ensures
        r == sessions_of(*map).get(key),
{
    map.get(&key).map(|entry| *entry.value())
}

/// `DashMap::remove`: the key is gone, its value is handed out, and no other key changes.
#[verifier::external_body]
pub(crate) fn remove_session(map: &mut DashMap<u64, u64>, key: u64) -> (r: Option<u64>)
    ensures
        sessions_of(*final(map)) == sessions_of(*old(map)).remove(key),
        r == sessions_of(*old(map)).get(key),
{
    map.remove(&key).map(|entry| entry.1)
}

/// `DashMap::len`: the number of keys.
#[verifier::external_body]
pub(crate) fn count_sessions(map: &DashMap<u64, u64>) -> (n: usize)
    ensures
        n == sessions_of(*map).dom().len(),
{
    map.len()
}

/// A prepared statement, known by a number, with the types of its bind variables.
pub struct CachedPrepared {
    pub statement: u64,
    pub bind_types: Arc<Vec<ColumnType>>,
}

/// What a map from keys to prepared statements holds.
pub uninterp spec fn statements_of(map: DashMap<String, CachedPrepared>) -> Map<Seq<char>, CachedPrepared>;

/// `DashMap::new`: the map has no keys.
#[verifier::external_body]
pub(crate) fn new_statements() -> (map: DashMap<String, CachedPrepared>)
    ensures
        statements_of(map).dom() == Set::<Seq<char>>::empty(),
{
    DashMap::new()
}

/// `DashMap::insert`: the key has the value, and no other key changes.
#[verifier::external_body]
pub(crate) fn insert_statement(
    map: &mut DashMap<String, CachedPrepared>,
    key: String,
    value: CachedPrepared,
)
    ensures
        statements_of(*final(map)) == statements_of(*old(map)).insert(key@, value),
{
    map.insert(key, value);
}

/// `DashMap::get`: the value of the key, if the key is there. The types are
/// shared with the map, not copied.
#[verifier::external_body]
pub(crate) fn get_statement(map: &DashMap<String, CachedPrepared>, key: &str) -> (r: Option<
    CachedPrepared,
>)
    ensures
        r == statements_of(*map).get(key@),
{
    match map.get(key) {
        Some(entry) => Some(CachedPrepared {
            statement: entry.value().statement,
            bind_types: Arc::clone(&entry.value().bind_types),
        }),
        None => None,
    }
}

} // verus!
