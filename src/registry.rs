//! The concurrent maps that hold the routing state, and what each operation
//! on them does to their contents.

use vstd::prelude::*;
use dashmap::DashMap;
use crate::load_balancer::{HealthStatus, StickySession};
use crate::notification::CachedNfProfile;

verus! {

/// `dashmap::DashMap`, the sharded concurrent map, held opaquely: what a
/// map holds is read through the names below.
#[verifier::external_type_specification]
#[verifier::external_body]
#[verifier::reject_recursive_types(K)]
#[verifier::reject_recursive_types(V)]
#[verifier::reject_recursive_types(S)]
pub struct ExDashMap<K, V, S>(dashmap::DashMap<K, V, S>);

/// Counters keyed by strings.
pub type CounterMap = DashMap<String, u64>;

/// Health records keyed by instance id.
pub type HealthMap = DashMap<String, HealthStatus>;

/// Sticky sessions keyed by session id.
pub type SessionMap = DashMap<String, StickySession>;

/// Cached NF profiles keyed by instance id.
pub type ProfileMap = DashMap<String, CachedNfProfile>;

/// The entries of a map from string keys to counters.
pub uninterp spec fn counter_entries(m: CounterMap) -> Map<Seq<char>, u64>;

/// The entries of a map from instance ids to health records.
pub uninterp spec fn health_entries(m: HealthMap) -> Map<Seq<char>, HealthStatus>;

/// The entries of a map from session ids to sticky sessions.
pub uninterp spec fn session_entries(m: SessionMap) -> Map<Seq<char>, StickySession>;

/// The entries of a map from instance ids to cached profiles.
pub uninterp spec fn profile_entries(m: ProfileMap) -> Map<Seq<char>, CachedNfProfile>;

/// The value stored under `k`, if any.
pub open spec fn lookup<V>(m: Map<Seq<char>, V>, k: Seq<char>) -> Option<V> {
    if m.contains_key(k) {
        Some(m[k])
    } else {
        None
    }
}

/// Relies on `DashMap::new`: a new map is empty.
#[verifier::external_body]
pub(crate) fn new_counter_map() -> (r: CounterMap)
    ensures
        counter_entries(r) =~= Map::empty(),
{
    DashMap::new()
}

/// Relies on `DashMap::get`: it finds the value stored under the key.
#[verifier::external_body]
pub(crate) fn counter_get(m: &CounterMap, k: &String) -> (r: Option<u64>)
    ensures
        r == lookup(counter_entries(*m), k@),
{
    m.get(k).map(|v| *v)
}

/// Relies on `DashMap::insert`: the key maps to the value afterwards, and
/// no other entry changes.
#[verifier::external_body]
pub(crate) fn counter_insert(m: &mut CounterMap, k: String, v: u64)
    ensures
        counter_entries(*final(m)) == counter_entries(*old(m)).insert(k@, v),
{
    m.insert(k, v);
}

/// Relies on `DashMap::new`: a new map is empty.
#[verifier::external_body]
pub(crate) fn new_health_map() -> (r: HealthMap)
    ensures
        health_entries(r) =~= Map::empty(),
{
    DashMap::new()
}

/// Relies on `DashMap::get`: it finds the value stored under the key.
#[verifier::external_body]
pub(crate) fn health_get(m: &HealthMap, k: &String) -> (r: Option<HealthStatus>)
    ensures
        r == lookup(health_entries(*m), k@),
{
    m.get(k).map(|v| *v)
}

/// Relies on `DashMap::insert`: the key maps to the value afterwards, and
/// no other entry changes.
#[verifier::external_body]
pub(crate) fn health_insert(m: &mut HealthMap, k: String, v: HealthStatus)
    ensures
        health_entries(*final(m)) == health_entries(*old(m)).insert(k@, v),
{
    m.insert(k, v);
}

/// Relies on `DashMap::new`: a new map is empty.
#[verifier::external_body]
pub(crate) fn new_session_map() -> (r: SessionMap)
    ensures
        session_entries(r) =~= Map::empty(),
{
    DashMap::new()
}

/// Relies on `DashMap::get`: it finds the value stored under the key; the
/// value is handed out as a copy.
#[verifier::external_body]
pub(crate) fn session_get(m: &SessionMap, k: &String) -> (r: Option<StickySession>)
    ensures
        r == lookup(session_entries(*m), k@),
{
    m.get(k).map(|v| v.duplicate())
}

/// Relies on `DashMap::insert`: the key maps to the value afterwards, and
/// no other entry changes.
#[verifier::external_body]
pub(crate) fn session_insert(m: &mut SessionMap, k: String, v: StickySession)
    ensures
        session_entries(*final(m)) == session_entries(*old(m)).insert(k@, v),
{
    m.insert(k, v);
}

/// Relies on `DashMap::remove`: the key has no entry afterwards, and no
/// other entry changes.
#[verifier::external_body]
pub(crate) fn session_remove(m: &mut SessionMap, k: &String)
    ensures
        session_entries(*final(m)) == session_entries(*old(m)).remove(k@),
{
    m.remove(k);
}

/// Relies on `DashMap::retain`: exactly the entries on which the predicate
/// holds stay, unchanged.
#[verifier::external_body]
pub(crate) fn session_retain_live(m: &mut SessionMap, now: u64, ttl: u64)
    ensures
        session_entries(*final(m)) == session_entries(*old(m)).restrict(
            session_entries(*old(m)).dom().filter(
                |k: Seq<char>| crate::load_balancer::session_live(session_entries(*old(m))[k], now, ttl),
            ),
        ),
{
    m.retain(|_, s| s.is_live(now, ttl));
}


/// Relies on `DashMap::len`: the number of entries.
#[verifier::external_body]
pub(crate) fn health_len(m: &HealthMap) -> (r: usize)
    ensures
        r == health_entries(*m).dom().len(),
{
    m.len()
}

/// Relies on `DashMap::len`: the number of entries.
#[verifier::external_body]
pub(crate) fn session_len(m: &SessionMap) -> (r: usize)
    ensures
        r == session_entries(*m).dom().len(),
{
    m.len()
}

/// Relies on `DashMap::new`: a new map is empty.
#[verifier::external_body]
pub(crate) fn new_profile_map() -> (r: ProfileMap)
    ensures
        profile_entries(r) =~= Map::empty(),
{
    DashMap::new()
}

/// Relies on `DashMap::insert`: the key maps to the value afterwards, and
/// no other entry changes.
#[verifier::external_body]
pub(crate) fn profile_insert(m: &mut ProfileMap, k: String, v: CachedNfProfile)
    ensures
        profile_entries(*final(m)) == profile_entries(*old(m)).insert(k@, v),
{
    m.insert(k, v);
}

/// Relies on `DashMap::remove`: the key has no entry afterwards, and no
/// other entry changes.
#[verifier::external_body]
pub(crate) fn profile_remove(m: &mut ProfileMap, k: &String)
    ensures
        profile_entries(*final(m)) == profile_entries(*old(m)).remove(k@),
{
    m.remove(k);
}

/// Relies on `DashMap::len`: the number of entries.
#[verifier::external_body]
pub(crate) fn profile_len(m: &ProfileMap) -> (r: usize)
    ensures
        r == profile_entries(*m).dom().len(),
{
    m.len()
}

} // verus!
