use scp::failover::{
    after_producer, all_producers_failed, available_instances, FailoverStep, check_discovered, discovery_params, finish_attempt, record_attempt,
    select_next_producer,
};
use scp::forward::target_url;
use scp::load_balancer::LoadBalancer;
use scp::path::extract_nf_type_from_path;
use scp::retry::{RetryConfig, RetryDecision};
use scp::types::{AppError, NfProfile};

fn profile(id: &str, ip: &str) -> NfProfile {
    NfProfile {
        nf_instance_id: id.to_string(),
        nf_type: "AMF".to_string(),
        nf_status: "REGISTERED".to_string(),
        ipv4_addresses: vec![ip.to_string()],
        fqdn: None,
        capacity: None,
        priority: None,
    }
}

/// Serves one request against `instances`, where `upstream(id, attempt)`
/// says whether that attempt succeeds. Returns the instance that served it
/// and the upstream URLs called.
fn serve(
    lb: &mut LoadBalancer,
    cfg: &RetryConfig,
    path: &str,
    instances: &[NfProfile],
    upstream: &dyn Fn(&str, u32) -> bool,
) -> Result<(String, Vec<String>), AppError> {
    let nf_type = extract_nf_type_from_path(path).unwrap();
    let mut excluded = Vec::new();
    let mut calls = Vec::new();
    let mut tried = 0;
    loop {
        let (uri, id, guard) = select_next_producer(lb, &nf_type, "10.1.1.1", instances, &excluded, 0)?;
        let url = target_url(&uri, path, None);
        let mut attempt = 0;
        let ok = loop {
            calls.push(url.clone());
            let ok = upstream(&id, attempt);
            record_attempt(lb, &id, ok, 0);
            match cfg.next_step(attempt, ok) {
                RetryDecision::Finish => break true,
                RetryDecision::GiveUp => break false,
                RetryDecision::Backoff(_) => attempt += 1,
            }
        };
        finish_attempt(lb, guard, ok, &mut excluded);
        tried += 1;
        match after_producer(ok, tried, instances.len()) {
            FailoverStep::Relay => return Ok((id, calls)),
            FailoverStep::TryNext => {}
            FailoverStep::Exhausted => return Err(all_producers_failed()),
        }
    }
}

#[test]
fn happy_path() {
    let mut lb = LoadBalancer::new();
    let cfg = RetryConfig::default_config();
    let inst = vec![profile("A", "10.0.0.1")];
    let (id, calls) = serve(&mut lb, &cfg, "/namf-comm/v1/ue-contexts/123", &inst, &|_, _| true).unwrap();
    assert_eq!(id, "A");
    assert_eq!(calls, vec!["http://10.0.0.1/namf-comm/v1/ue-contexts/123".to_string()]);
    assert_eq!(lb.connection_count("A"), 0);
}

#[test]
fn retry_then_success_clears_failures() {
    let mut lb = LoadBalancer::new();
    let cfg = RetryConfig { max_attempts: 3, initial_backoff_ms: 10, max_backoff_ms: 5000, backoff_multiplier_milli: 2000 };
    let inst = vec![profile("A", "10.0.0.1")];
    let (id, calls) = serve(&mut lb, &cfg, "/namf-comm/v1/x", &inst, &|_, a| a >= 1).unwrap();
    assert_eq!(id, "A");
    assert_eq!(calls.len(), 2);
    assert_eq!(cfg.next_step(0, false), RetryDecision::Backoff(10));
    assert_eq!(lb.health_record("A").unwrap().failure_count, 0);
    assert_eq!(lb.connection_count("A"), 0);
}

#[test]
fn failover_to_second_instance() {
    let mut lb = LoadBalancer::new();
    let cfg = RetryConfig::default_config();
    let inst = vec![profile("A", "10.0.0.1"), profile("B", "10.0.0.2")];
    let (id, calls) = serve(&mut lb, &cfg, "/namf-comm/v1/x", &inst, &|id, _| id == "B").unwrap();
    assert_eq!(id, "B");
    assert_eq!(calls.len(), 4);
    let a = lb.health_record("A").unwrap();
    assert_eq!(a.failure_count, 3);
    assert!(!a.is_healthy);
    assert!(!lb.get_health_status("A", 0));
    let b = lb.health_record("B").unwrap();
    assert!(b.is_healthy);
    assert_eq!(b.failure_count, 0);
    assert_eq!(lb.connection_count("A"), 0);
    assert_eq!(lb.connection_count("B"), 0);
}

#[test]
fn all_producers_failing_is_unavailable() {
    let mut lb = LoadBalancer::new();
    let cfg = RetryConfig::default_config();
    let inst = vec![profile("A", "10.0.0.1"), profile("B", "10.0.0.2")];
    match serve(&mut lb, &cfg, "/namf-comm/v1/x", &inst, &|_, _| false) {
        Err(AppError::ServiceUnavailable(m)) => {
            assert_eq!(m, "All available producers failed to handle the request")
        }
        other => panic!("unexpected {:?}", other),
    }
}

#[test]
fn everything_excluded_is_unavailable() {
    let mut lb = LoadBalancer::new();
    let inst = vec![profile("A", "10.0.0.1")];
    let excluded = vec!["A".to_string()];
    match select_next_producer(&mut lb, "AMF", "s", &inst, &excluded, 0) {
        Err(AppError::ServiceUnavailable(m)) => assert_eq!(m, "No more available producer instances to try"),
        other => panic!("unexpected {:?}", other.map(|t| t.1)),
    }
}

#[test]
fn selection_reserves_a_connection() {
    let mut lb = LoadBalancer::new();
    let inst = vec![profile("A", "10.0.0.1")];
    let (uri, id, guard) = select_next_producer(&mut lb, "AMF", "s", &inst, &Vec::new(), 0).unwrap();
    assert_eq!(uri, "http://10.0.0.1");
    assert_eq!(id, "A");
    assert_eq!(lb.connection_count("A"), 1);
    let mut excluded = Vec::new();
    finish_attempt(&mut lb, guard, false, &mut excluded);
    assert_eq!(excluded, vec!["A".to_string()]);
    assert_eq!(lb.connection_count("A"), 0);
}

#[test]
fn available_instances_skip_excluded() {
    let inst = vec![profile("A", "1"), profile("B", "2"), profile("C", "3")];
    let ids: Vec<String> = available_instances(&inst, &vec!["B".to_string()])
        .into_iter()
        .map(|p| p.nf_instance_id)
        .collect();
    assert_eq!(ids, vec!["A".to_string(), "C".to_string()]);
}

#[test]
fn empty_discovery_is_unavailable() {
    match check_discovered(Vec::new(), "AMF") {
        Err(AppError::ServiceUnavailable(m)) => assert_eq!(m, "No available instances found for NF type: AMF"),
        other => panic!("unexpected {:?}", other),
    }
    assert_eq!(check_discovered(vec![profile("A", "1")], "AMF").unwrap().len(), 1);
}

#[test]
fn discovery_query_names_type_and_requester() {
    let p = discovery_params("SMF");
    assert_eq!(p.target_nf_type, "SMF");
    assert_eq!(p.requester_nf_type, Some("SCP".to_string()));
    assert!(p.service_names.is_none());
}

#[test]
fn failover_steps() {
    assert_eq!(after_producer(true, 1, 3), FailoverStep::Relay);
    assert_eq!(after_producer(true, 3, 3), FailoverStep::Relay);
    assert_eq!(after_producer(false, 1, 3), FailoverStep::TryNext);
    assert_eq!(after_producer(false, 3, 3), FailoverStep::Exhausted);
}

#[test]
fn chosen_producer_without_address_is_internal_error() {
    let mut lb = LoadBalancer::new();
    let mut bare = profile("A", "x");
    bare.ipv4_addresses.clear();
    let inst = vec![bare, profile("B", "10.0.0.2")];
    match select_next_producer(&mut lb, "AMF", "s", &inst, &Vec::new(), 0) {
        Err(AppError::InternalError(m)) => assert_eq!(m, "No valid address found for NF instance A"),
        other => panic!("unexpected {:?}", other.map(|t| t.1)),
    }
    assert_eq!(lb.connection_count("A"), 0);
}

#[test]
fn another_producer_without_address_does_not_matter() {
    let mut lb = LoadBalancer::new();
    let mut bare = profile("B", "x");
    bare.ipv4_addresses.clear();
    let inst = vec![profile("A", "10.0.0.1"), bare];
    let (uri, id, _guard) = select_next_producer(&mut lb, "AMF", "s", &inst, &Vec::new(), 0).unwrap();
    assert_eq!(uri, "http://10.0.0.1");
    assert_eq!(id, "A");
}

#[test]
fn recorded_failures_open_the_circuit() {
    let mut lb = LoadBalancer::new();
    for _ in 0..3 {
        record_attempt(&mut lb, "A", false, 100);
    }
    let h = lb.health_record("A").unwrap();
    assert_eq!(h.failure_count, 3);
    assert!(!h.is_healthy);
    assert!(!lb.get_health_status("A", 30_099));
    record_attempt(&mut lb, "A", true, 200);
    assert!(lb.get_health_status("A", 200));
}
