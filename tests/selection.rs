use scp::load_balancer::{HealthStatus, LoadBalancer};
use scp::types::NfProfile;

fn profile(id: &str, capacity: Option<u32>) -> NfProfile {
    NfProfile {
        nf_instance_id: id.to_string(),
        nf_type: "AMF".to_string(),
        nf_status: "REGISTERED".to_string(),
        ipv4_addresses: vec![format!("10.0.0.{}", id.len())],
        fqdn: None,
        capacity,
        priority: None,
    }
}

fn three() -> Vec<NfProfile> {
    vec![profile("A", None), profile("B", None), profile("C", None)]
}

#[test]
fn connection_counts_follow_reservations() {
    let mut lb = LoadBalancer::new();
    assert_eq!(lb.connection_count("A"), 0);
    let g1 = lb.acquire_connection("A".to_string());
    let g2 = lb.acquire_connection("A".to_string());
    let g3 = lb.acquire_connection("B".to_string());
    assert_eq!(lb.connection_count("A"), 2);
    assert_eq!(lb.connection_count("B"), 1);
    assert_eq!(g1.instance_id(), "A");
    lb.release_connection(g2);
    assert_eq!(lb.connection_count("A"), 1);
    lb.release_connection(g1);
    lb.release_connection(g3);
    assert_eq!(lb.connection_count("A"), 0);
    assert_eq!(lb.connection_count("B"), 0);
}

#[test]
fn threshold_failures_open_circuit() {
    let mut lb = LoadBalancer::new();
    lb.mark_failure("A", 1000);
    lb.mark_failure("A", 1001);
    assert!(lb.get_health_status("A", 1002));
    lb.mark_failure("A", 1002);
    let h = lb.health_record("A").unwrap();
    assert!(!h.is_healthy);
    assert_eq!(h.failure_count, 3);
    assert_eq!(h.last_failure, Some(1002));
    assert_eq!(h.circuit_open_until, Some(31002));
    assert!(!lb.get_health_status("A", 1002));
    assert!(!lb.get_health_status("A", 31001));
    assert!(lb.get_health_status("A", 31002));
}

#[test]
fn success_after_failures_restores_selection() {
    let mut lb = LoadBalancer::new();
    for t in 0..5 {
        lb.mark_failure("A", t);
    }
    assert!(!lb.get_health_status("A", 10));
    lb.mark_success("A");
    assert!(lb.get_health_status("A", 10));
    let h = lb.health_record("A").unwrap();
    assert_eq!(h.failure_count, 0);
    assert!(h.is_healthy);
    assert_eq!(h.circuit_open_until, None);
}

#[test]
fn success_on_unknown_instance_creates_healthy_record() {
    let mut lb = LoadBalancer::new();
    lb.mark_success("Z");
    let h = lb.health_record("Z").unwrap();
    assert!(h.is_healthy);
    assert_eq!(h.failure_count, 0);
    assert_eq!(h.circuit_open_until, None);
    assert!(lb.get_health_status("Z", 0));
}

#[test]
fn default_health_is_healthy() {
    let h = HealthStatus::default();
    assert!(h.is_healthy);
    assert_eq!(h.failure_count, 0);
    assert_eq!(h.last_failure, None);
    assert_eq!(h.circuit_open_until, None);
}

#[test]
fn round_robin_visits_each_instance_equally() {
    let mut lb = LoadBalancer::new();
    let inst = three();
    let mut seen = Vec::new();
    for _ in 0..6 {
        seen.push(lb.select_round_robin("AMF", &inst, 0).nf_instance_id.clone());
    }
    assert_eq!(seen, vec!["A", "B", "C", "A", "B", "C"]);
}

#[test]
fn round_robin_cursors_are_per_type() {
    let mut lb = LoadBalancer::new();
    let inst = three();
    assert_eq!(lb.select_round_robin("AMF", &inst, 0).nf_instance_id, "A");
    assert_eq!(lb.select_round_robin("SMF", &inst, 0).nf_instance_id, "A");
    assert_eq!(lb.select_round_robin("AMF", &inst, 0).nf_instance_id, "B");
}

#[test]
fn least_connections_picks_first_minimum() {
    let mut lb = LoadBalancer::new();
    let inst = three();
    assert_eq!(lb.select_least_connections(&inst, 0).nf_instance_id, "A");
    let _a = lb.acquire_connection("A".to_string());
    assert_eq!(lb.select_least_connections(&inst, 0).nf_instance_id, "B");
    let _b = lb.acquire_connection("B".to_string());
    let _c = lb.acquire_connection("C".to_string());
    let _c2 = lb.acquire_connection("C".to_string());
    assert_eq!(lb.select_least_connections(&inst, 0).nf_instance_id, "A");
}

#[test]
fn weighted_draws_map_to_capacity_ranges() {
    let lb = LoadBalancer::new();
    let inst = vec![profile("A", Some(1)), profile("B", Some(3)), profile("C", None)];
    let picks: Vec<String> = (0..104u128)
        .map(|d| lb.select_weighted_with_draw(&inst, 0, d).nf_instance_id.clone())
        .collect();
    assert_eq!(picks.iter().filter(|p| *p == "A").count(), 1);
    assert_eq!(picks.iter().filter(|p| *p == "B").count(), 3);
    assert_eq!(picks.iter().filter(|p| *p == "C").count(), 100);
    assert_eq!(picks[0], "A");
    assert_eq!(picks[1], "B");
    assert_eq!(picks[3], "B");
    assert_eq!(picks[4], "C");
}

#[test]
fn weighted_with_zero_capacities_takes_first() {
    let lb = LoadBalancer::new();
    let inst = vec![profile("A", Some(0)), profile("B", Some(0))];
    assert_eq!(lb.select_weighted_with_draw(&inst, 0, 5).nf_instance_id, "A");
    assert_eq!(lb.select_weighted(&inst, 0).nf_instance_id, "A");
}

#[test]
fn weighted_random_pick_is_a_candidate() {
    let mut lb = LoadBalancer::new();
    for t in 0..3 {
        lb.mark_failure("A", t);
    }
    let inst = vec![profile("A", Some(50)), profile("B", Some(50)), profile("C", Some(50))];
    for _ in 0..50 {
        let id = lb.select_weighted(&inst, 10).nf_instance_id.clone();
        assert!(id == "B" || id == "C");
    }
}

#[test]
fn circuit_open_instance_is_skipped() {
    let mut lb = LoadBalancer::new();
    for _ in 0..3 {
        lb.mark_failure("A", 0);
    }
    let both = vec![profile("A", None), profile("B", None)];
    assert_eq!(lb.select_least_connections(&both, 1000).nf_instance_id, "B");
    assert_eq!(lb.select_with_sticky_session("s", "AMF", &both, 1000).nf_instance_id, "B");
    let only_a = vec![profile("A", None)];
    assert_eq!(lb.select_least_connections(&only_a, 1000).nf_instance_id, "A");
    assert_eq!(lb.select_round_robin("AMF", &only_a, 1000).nf_instance_id, "A");
}

#[test]
fn filter_healthy_keeps_order() {
    let mut lb = LoadBalancer::new();
    for _ in 0..3 {
        lb.mark_failure("B", 0);
    }
    let inst = three();
    let ids: Vec<&str> = lb.filter_healthy(&inst, 5).iter().map(|p| p.nf_instance_id.as_str()).collect();
    assert_eq!(ids, vec!["A", "C"]);
    let later: Vec<&str> = lb.filter_healthy(&inst, 30_000).iter().map(|p| p.nf_instance_id.as_str()).collect();
    assert_eq!(later, vec!["A", "B", "C"]);
}

#[test]
fn sticky_continuity() {
    let mut lb = LoadBalancer::new();
    let inst = three();
    let first = lb.select_with_sticky_session("sess-1", "AMF", &inst, 0).nf_instance_id.clone();
    for t in [2_000u64, 4_000, 6_000, 10_000] {
        assert_eq!(lb.select_with_sticky_session("sess-1", "AMF", &inst, t).nf_instance_id, first);
    }
    assert_eq!(lb.get_sticky_session("sess-1", "AMF", 10_000), Some(first.clone()));
}

#[test]
fn sticky_session_rebalances_after_ttl() {
    let mut lb = LoadBalancer::new();
    let inst = three();
    let first = lb.select_with_sticky_session("s", "AMF", &inst, 0).nf_instance_id.clone();
    assert_eq!(first, "A");
    let _g = lb.acquire_connection("A".to_string());
    assert_eq!(lb.select_with_sticky_session("s", "AMF", &inst, 299_999).nf_instance_id, "A");
    assert_eq!(lb.select_with_sticky_session("s", "AMF", &inst, 300_000).nf_instance_id, "B");
}

#[test]
fn sticky_session_drops_unhealthy_or_absent_instance() {
    let mut lb = LoadBalancer::new();
    let inst = three();
    assert_eq!(lb.select_with_sticky_session("s", "AMF", &inst, 0).nf_instance_id, "A");
    let without_a = vec![profile("B", None), profile("C", None)];
    assert_eq!(lb.select_with_sticky_session("s", "AMF", &without_a, 1).nf_instance_id, "B");
    for _ in 0..3 {
        lb.mark_failure("B", 2);
    }
    assert_eq!(lb.get_sticky_session("s", "AMF", 3), None);
    assert_eq!(lb.select_with_sticky_session("s", "AMF", &inst, 3).nf_instance_id, "A");
}

#[test]
fn sticky_session_is_per_nf_type() {
    let mut lb = LoadBalancer::new();
    lb.set_sticky_session("s", "C", "SMF", 0);
    assert_eq!(lb.get_sticky_session("s", "AMF", 1), None);
    assert_eq!(lb.get_sticky_session("s", "SMF", 1), Some("C".to_string()));
}

#[test]
fn cleanup_drops_expired_sessions() {
    let mut lb = LoadBalancer::with_limits(3, 30_000, 1_000);
    lb.set_sticky_session("old", "A", "AMF", 0);
    lb.set_sticky_session("new", "B", "AMF", 900);
    lb.cleanup_expired_sessions(1_500);
    assert_eq!(lb.get_sticky_session("old", "AMF", 0), None);
    assert_eq!(lb.get_sticky_session("new", "AMF", 1_500), Some("B".to_string()));
}

#[test]
fn round_robin_cursor_keeps_counting_across_set_changes() {
    let mut lb = LoadBalancer::new();
    let two = vec![profile("A", None), profile("B", None)];
    let three = three();
    assert_eq!(lb.select_round_robin("AMF", &two, 0).nf_instance_id, "A");
    assert_eq!(lb.select_round_robin("AMF", &two, 0).nf_instance_id, "B");
    // The cursor now reads 2, not 0: the next pick among three is the third.
    assert_eq!(lb.select_round_robin("AMF", &three, 0).nf_instance_id, "C");
    assert_eq!(lb.select_round_robin("AMF", &three, 0).nf_instance_id, "A");
}

#[test]
fn statistics_count_records_and_sessions() {
    let mut lb = LoadBalancer::new();
    let s = lb.get_statistics();
    assert_eq!((s.tracked_instances, s.sticky_sessions), (0, 0));
    lb.mark_failure("A", 0);
    lb.mark_failure("B", 0);
    lb.mark_failure("A", 1);
    lb.set_sticky_session("s1", "A", "AMF", 0);
    let s = lb.get_statistics();
    assert_eq!((s.tracked_instances, s.sticky_sessions), (2, 1));
}
