use scp::notification::{cache_update_for, CacheUpdate, ProfileCache};
use scp::path::{extract_nf_instance_id, extract_nf_type_from_path, nf_type_token};
use scp::types::{NfProfile, NotificationEventType, NrfNotification};

fn profile(id: &str) -> NfProfile {
    NfProfile {
        nf_instance_id: id.to_string(),
        nf_type: "AMF".to_string(),
        nf_status: "REGISTERED".to_string(),
        ipv4_addresses: vec!["10.0.0.1".to_string()],
        fqdn: None,
        capacity: None,
        priority: None,
    }
}

#[test]
fn path_parsing_failures() {
    assert_eq!(extract_nf_type_from_path("/"), None);
    assert_eq!(extract_nf_type_from_path("/foo/bar"), None);
    assert_eq!(extract_nf_type_from_path("/namf-comm/v1/x"), Some("AMF".to_string()));
}

#[test]
fn path_without_slash_names_no_type() {
    assert_eq!(extract_nf_type_from_path(""), None);
    assert_eq!(extract_nf_type_from_path("namf-comm"), None);
}

#[test]
fn path_types_of_other_services() {
    assert_eq!(extract_nf_type_from_path("/nsmf-pdusession/v1/sm-contexts"), Some("SMF".to_string()));
    assert_eq!(extract_nf_type_from_path("/nudm-sdm/v2/imsi-1/am-data"), Some("UDM".to_string()));
    assert_eq!(extract_nf_type_from_path("/nausf"), Some("AUSF".to_string()));
    assert_eq!(extract_nf_type_from_path("/n/v1"), Some("".to_string()));
}

#[test]
fn token_keeps_case_and_upper_cases_after() {
    assert_eq!(nf_type_token("/namf-comm/v1"), Some("amf".to_string()));
    assert_eq!(nf_type_token("/nAmF-comm"), Some("AmF".to_string()));
    assert_eq!(extract_nf_type_from_path("/nAmF-comm"), Some("AMF".to_string()));
    assert_eq!(nf_type_token("/Namf-comm"), None);
}

#[test]
fn instance_id_is_last_segment() {
    assert_eq!(extract_nf_instance_id("http://nrf/nnrf-nfm/v1/nf-instances/abc-123"), "abc-123");
    assert_eq!(extract_nf_instance_id("plain-id"), "plain-id");
    assert_eq!(extract_nf_instance_id("ends/with/"), "");
    assert_eq!(extract_nf_instance_id(""), "");
}

#[test]
fn registration_notice_upserts_profile() {
    let n = NrfNotification {
        event: NotificationEventType::NfRegistered,
        nf_instance_uri: "http://nrf/nnrf-nfm/v1/nf-instances/A".to_string(),
        nf_profile: Some(profile("A")),
    };
    match cache_update_for(n) {
        CacheUpdate::Upsert(k, p) => {
            assert_eq!(k, "A");
            assert_eq!(p.nf_instance_id, "A");
        }
        other => panic!("unexpected update {:?}", other),
    }
}

#[test]
fn status_change_without_profile_is_ignored() {
    let n = NrfNotification {
        event: NotificationEventType::NfStatusChanged,
        nf_instance_uri: "/nf-instances/B".to_string(),
        nf_profile: None,
    };
    assert!(matches!(cache_update_for(n), CacheUpdate::Ignore));
}

#[test]
fn deregistration_removes_key() {
    let n = NrfNotification {
        event: NotificationEventType::NfDeregistered,
        nf_instance_uri: "/nf-instances/C".to_string(),
        nf_profile: Some(profile("C")),
    };
    match cache_update_for(n) {
        CacheUpdate::Remove(k) => assert_eq!(k, "C"),
        other => panic!("unexpected update {:?}", other),
    }
}

#[test]
fn profile_cache_follows_notifications() {
    let mut cache = ProfileCache::new();
    assert_eq!(cache.len(), 0);
    cache.apply_notification(
        NrfNotification {
            event: NotificationEventType::NfRegistered,
            nf_instance_uri: "/nf-instances/A".to_string(),
            nf_profile: Some(profile("A")),
        },
        1,
    );
    cache.apply_notification(
        NrfNotification {
            event: NotificationEventType::NfProfileChanged,
            nf_instance_uri: "/nf-instances/B".to_string(),
            nf_profile: Some(profile("B")),
        },
        2,
    );
    assert_eq!(cache.len(), 2);
    cache.apply_notification(
        NrfNotification {
            event: NotificationEventType::NfStatusChanged,
            nf_instance_uri: "/nf-instances/C".to_string(),
            nf_profile: None,
        },
        3,
    );
    assert_eq!(cache.len(), 2);
    cache.apply_notification(
        NrfNotification {
            event: NotificationEventType::NfDeregistered,
            nf_instance_uri: "/nf-instances/A".to_string(),
            nf_profile: None,
        },
        4,
    );
    assert_eq!(cache.len(), 1);
}
