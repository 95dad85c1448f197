//! The profile cache and its reaction to NRF status notifications.

use vstd::prelude::*;
use crate::path::{extract_nf_instance_id, last_segment};
use crate::types::{NfProfile, NotificationEventType, NrfNotification};
use crate::registry::{ProfileMap, profile_entries, new_profile_map, profile_insert, profile_remove, profile_len};

verus! {

/// A change to the profile cache, keyed by NF instance id.
#[derive(Debug)]
pub enum CacheUpdate {
    /// Store the profile under the key.
    Upsert(String, NfProfile),
    /// Drop the key.
    Remove(String),
    /// Leave the cache as it is.
    Ignore,
}

/// The cache change a notification calls for: registration, profile and
/// status changes store the carried profile under the instance id at the end
/// of the instance URI (nothing when no profile came); deregistration drops
/// that key.
pub fn cache_update_for(notification: NrfNotification) -> (r: CacheUpdate)
    ensures
        notification.event == NotificationEventType::NfDeregistered ==> (r matches CacheUpdate::Remove(k) && k@
            == last_segment(notification.nf_instance_uri@)),
        notification.event != NotificationEventType::NfDeregistered && notification.nf_profile is None ==> r
            is Ignore,
        notification.event != NotificationEventType::NfDeregistered && notification.nf_profile is Some ==> (
        r matches CacheUpdate::Upsert(k, p) && k@ == last_segment(notification.nf_instance_uri@) && Some(p)
            == notification.nf_profile),
{
    let id = extract_nf_instance_id(notification.nf_instance_uri.as_str());
    match notification.event {
        NotificationEventType::NfDeregistered => CacheUpdate::Remove(id),
        _ => match notification.nf_profile {
            Some(p) => CacheUpdate::Upsert(id, p),
            None => CacheUpdate::Ignore,
        },
    }
}


/// A profile as cached, with the time it was stored (ms since the epoch).
#[derive(Debug)]
pub struct CachedNfProfile {
    pub profile: NfProfile,
    pub cached_at: i64,
}

/// Profiles known from NRF notifications, keyed by NF instance id.
pub struct ProfileCache {
    entries: ProfileMap,
}

impl ProfileCache {
    /// The cached profiles by instance id.
    pub closed spec fn view(&self) -> Map<Seq<char>, CachedNfProfile> {
        profile_entries(self.entries)
    }

    /// An empty cache.
    pub fn new() -> (r: ProfileCache)
        ensures
            r@ =~= Map::empty(),
    {
        ProfileCache { entries: new_profile_map() }
    }

    /// The number of cached profiles.
    pub fn len(&self) -> (r: usize)
        ensures
            r == self@.dom().len(),
    {
        profile_len(&self.entries)
    }

    /// Applies a notification received at `now` (ms since the epoch): a
    /// carried profile is stored under the instance id, a deregistration
    /// drops it, and an upsert event without a profile changes nothing.
    pub fn apply_notification(&mut self, notification: NrfNotification, now: i64)
        ensures
            notification.event == NotificationEventType::NfDeregistered ==> final(self)@ == old(self)@.remove(
                last_segment(notification.nf_instance_uri@),
            ),
            notification.event != NotificationEventType::NfDeregistered && notification.nf_profile is None
                ==> final(self)@ == old(self)@,
            notification.event != NotificationEventType::NfDeregistered && notification.nf_profile is Some
                ==> final(self)@ == old(self)@.insert(
                last_segment(notification.nf_instance_uri@),
                CachedNfProfile { profile: notification.nf_profile.unwrap(), cached_at: now },
            ),
    {
        match cache_update_for(notification) {
            CacheUpdate::Upsert(key, profile) => {
                profile_insert(&mut self.entries, key, CachedNfProfile { profile, cached_at: now });
            },
            CacheUpdate::Remove(key) => {
                profile_remove(&mut self.entries, &key);
            },
            CacheUpdate::Ignore => {},
        }
    }
}

} // verus!
