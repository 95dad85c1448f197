use scp::types::{AppError, ProblemDetails};

#[test]
fn problem_details_builders() {
    let p = ProblemDetails::new(503, "Service Unavailable", "down")
        .with_type("about:blank")
        .with_instance("req-1")
        .with_cause("NF_FAILOVER");
    assert_eq!(p.status, Some(503));
    assert_eq!(p.title.as_deref(), Some("Service Unavailable"));
    assert_eq!(p.detail.as_deref(), Some("down"));
    assert_eq!(p.problem_type.as_deref(), Some("about:blank"));
    assert_eq!(p.instance.as_deref(), Some("req-1"));
    assert_eq!(p.cause.as_deref(), Some("NF_FAILOVER"));
    assert!(p.invalid_params.is_none());
}

#[test]
fn error_statuses_and_titles() {
    let cases = vec![
        (AppError::InternalError("x".to_string()), 500, "Internal Server Error"),
        (AppError::ConfigError("x".to_string()), 500, "Configuration Error"),
        (AppError::NotFound("x".to_string()), 404, "Not Found"),
        (AppError::BadRequest("x".to_string()), 400, "Bad Request"),
        (AppError::Unauthorized("x".to_string()), 401, "Unauthorized"),
        (AppError::Forbidden("x".to_string()), 403, "Forbidden"),
        (AppError::ServiceUnavailable("x".to_string()), 503, "Service Unavailable"),
        (AppError::GatewayTimeout("x".to_string()), 504, "Gateway Timeout"),
        (AppError::BadGateway("x".to_string()), 502, "Bad Gateway"),
    ];
    for (e, status, title) in cases {
        assert_eq!(e.status_code(), status);
        assert_eq!(e.title(), title);
        let p = e.to_problem_details();
        assert_eq!(p.status, Some(status));
        assert_eq!(p.title.as_deref(), Some(title));
        assert_eq!(p.detail.as_deref(), Some("x"));
    }
}

#[test]
fn transport_failures_classified() {
    assert!(matches!(AppError::from_transport_failure(true, true, "t"), AppError::GatewayTimeout(m) if m == "t"));
    match AppError::from_transport_failure(false, true, "refused") {
        AppError::ServiceUnavailable(m) => assert_eq!(m, "Failed to connect to upstream service: refused"),
        other => panic!("unexpected {:?}", other),
    }
    assert!(matches!(AppError::from_transport_failure(false, false, "b"), AppError::BadGateway(m) if m == "b"));
}

#[test]
fn health_and_status_reports() {
    assert_eq!(scp::types::HealthResponse::healthy().status, "healthy");
    let stats = scp::load_balancer::LoadBalancerStats { tracked_instances: 2, sticky_sessions: 5 };
    let s = scp::types::StatusResponse::new("1.2.3", "id-1", 42, true, 7, stats);
    assert_eq!(s.service, "SCP");
    assert_eq!(s.version, "1.2.3");
    assert_eq!(s.nf_instance_id, "id-1");
    assert_eq!(s.uptime_seconds, 42);
    assert_eq!(s.nrf_status, "connected");
    assert_eq!(s.cache.cached_nf_profiles, 7);
    assert_eq!(s.load_balancer.tracked_instances, 2);
    assert_eq!(s.load_balancer.sticky_sessions, 5);
    assert_eq!(scp::types::StatusResponse::new("v", "i", 0, false, 0, stats).nrf_status, "not_configured");
}
