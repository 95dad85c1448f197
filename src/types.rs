//! Data exchanged with the NRF and with downstream clients.

use vstd::prelude::*;
use vstd::string::*;
use crate::load_balancer::LoadBalancerStats;

verus! {

/// An NF profile as the NRF publishes it.
#[derive(Debug)]
pub struct NfProfile {
    pub nf_instance_id: String,
    pub nf_type: String,
    pub nf_status: String,
    pub ipv4_addresses: Vec<String>,
    pub fqdn: Option<String>,
    pub capacity: Option<u32>,
    pub priority: Option<u32>,
}

/// A copy of a list of strings, element for element.
pub fn copy_strings(v: &Vec<String>) -> (r: Vec<String>)
    ensures
        r@ == v@,
{
    let mut r: Vec<String> = Vec::new();
    let mut i: usize = 0;
    while i < v.len()
        invariant
            i <= v@.len(),
            r@ == v@.subrange(0, i as int),
        decreases v@.len() - i,
    {
        r.push(v[i].clone());
        i = i + 1;
        proof {
            assert(r@ =~= v@.subrange(0, i as int));
        }
    }
    proof {
        assert(v@.subrange(0, v@.len() as int) =~= v@);
    }
    r
}

/// A copy of an optional string.
pub fn copy_opt_string(s: &Option<String>) -> (r: Option<String>)
    ensures
        r == *s,
{
    match s {
        Some(x) => Some(x.clone()),
        None => None,
    }
}

/// Two profiles that hold the same values, field for field.
pub open spec fn same_profile(a: NfProfile, b: NfProfile) -> bool {
    &&& a.nf_instance_id == b.nf_instance_id
    &&& a.nf_type == b.nf_type
    &&& a.nf_status == b.nf_status
    &&& a.ipv4_addresses@ == b.ipv4_addresses@
    &&& a.fqdn == b.fqdn
    &&& a.capacity == b.capacity
    &&& a.priority == b.priority
}

impl NfProfile {
    /// A field-for-field copy of this profile.
    pub fn duplicate(&self) -> (r: NfProfile)
        ensures
            same_profile(r, *self),
    {
        let addrs = copy_strings(&self.ipv4_addresses);
        proof {
            assert(addrs@ == self.ipv4_addresses@);
        }
        let r = NfProfile {
            nf_instance_id: self.nf_instance_id.clone(),
            nf_type: self.nf_type.clone(),
            nf_status: self.nf_status.clone(),
            ipv4_addresses: addrs,
            fqdn: copy_opt_string(&self.fqdn),
            capacity: self.capacity,
            priority: self.priority,
        };
        r
    }
}


/// Parameters of an NRF discovery query.
#[derive(Debug)]
pub struct NfDiscoveryParams {
    pub target_nf_type: String,
    pub requester_nf_type: Option<String>,
    pub service_names: Option<Vec<String>>,
}

/// The body of an NRF discovery answer.
#[derive(Debug)]
pub struct SearchResult {
    pub nf_instances: Vec<NfProfile>,
}

/// The kinds of NRF status notification.
#[derive(Clone, Copy, Debug, PartialEq, Eq, Structural)]
pub enum NotificationEventType {
    NfRegistered,
    NfDeregistered,
    NfProfileChanged,
    NfStatusChanged,
}

/// A status notification pushed by the NRF.
#[derive(Debug)]
pub struct NrfNotification {
    pub event: NotificationEventType,
    pub nf_instance_uri: String,
    pub nf_profile: Option<NfProfile>,
}

/// One offending parameter of a rejected request.
#[derive(Debug)]
pub struct InvalidParam {
    pub param: String,
    pub reason: Option<String>,
}

/// An RFC 7807 problem report. `problem_type` is the report's `type` member.
#[derive(Debug)]
pub struct ProblemDetails {
    pub problem_type: Option<String>,
    pub title: Option<String>,
    pub status: Option<u16>,
    pub detail: Option<String>,
    pub instance: Option<String>,
    pub cause: Option<String>,
    pub invalid_params: Option<Vec<InvalidParam>>,
}

/// An optional string, seen as characters.
pub open spec fn opt_view(s: Option<String>) -> Option<Seq<char>> {
    match s {
        Some(x) => Some(x@),
        None => None,
    }
}

impl ProblemDetails {
    /// A report with a status, a title and a detail, and nothing else.
    pub fn new(status: u16, title: &str, detail: &str) -> (r: ProblemDetails)
        ensures
            r.status == Some(status),
            opt_view(r.title) == Some(title@),
            opt_view(r.detail) == Some(detail@),
            r.problem_type is None,
            r.instance is None,
            r.cause is None,
            r.invalid_params is None,
    {
        ProblemDetails {
            problem_type: None,
            title: Some(title.to_owned()),
            status: Some(status),
            detail: Some(detail.to_owned()),
            instance: None,
            cause: None,
            invalid_params: None,
        }
    }

    /// The same report with its type set.
    pub fn with_type(self, problem_type: &str) -> (r: ProblemDetails)
        ensures
            opt_view(r.problem_type) == Some(problem_type@),
            r.title == self.title,
            r.status == self.status,
            r.detail == self.detail,
            r.instance == self.instance,
            r.cause == self.cause,
            r.invalid_params == self.invalid_params,
    {
        ProblemDetails { problem_type: Some(problem_type.to_owned()), ..self }
    }

    /// The same report with its instance set.
    pub fn with_instance(self, instance: &str) -> (r: ProblemDetails)
        ensures
            opt_view(r.instance) == Some(instance@),
            r.problem_type == self.problem_type,
            r.title == self.title,
            r.status == self.status,
            r.detail == self.detail,
            r.cause == self.cause,
            r.invalid_params == self.invalid_params,
    {
        ProblemDetails { instance: Some(instance.to_owned()), ..self }
    }

    /// The same report with its cause set.
    pub fn with_cause(self, cause: &str) -> (r: ProblemDetails)
        ensures
            opt_view(r.cause) == Some(cause@),
            r.problem_type == self.problem_type,
            r.title == self.title,
            r.status == self.status,
            r.detail == self.detail,
            r.instance == self.instance,
            r.invalid_params == self.invalid_params,
    {
        ProblemDetails { cause: Some(cause.to_owned()), ..self }
    }
}

/// The errors the proxy reports to its clients.
#[derive(Debug)]
pub enum AppError {
    InternalError(String),
    ConfigError(String),
    NotFound(String),
    BadRequest(String),
    Unauthorized(String),
    Forbidden(String),
    ServiceUnavailable(String),
    GatewayTimeout(String),
    BadGateway(String),
}

/// The HTTP status each kind of error is reported with.
pub open spec fn status_of(e: AppError) -> u16 {
    match e {
        AppError::InternalError(_) => 500,
        AppError::ConfigError(_) => 500,
        AppError::NotFound(_) => 404,
        AppError::BadRequest(_) => 400,
        AppError::Unauthorized(_) => 401,
        AppError::Forbidden(_) => 403,
        AppError::ServiceUnavailable(_) => 503,
        AppError::GatewayTimeout(_) => 504,
        AppError::BadGateway(_) => 502,
    }
}

/// The title each kind of error is reported with.
pub open spec fn title_of(e: AppError) -> Seq<char> {
    match e {
        AppError::InternalError(_) => "Internal Server Error"@,
        AppError::ConfigError(_) => "Configuration Error"@,
        AppError::NotFound(_) => "Not Found"@,
        AppError::BadRequest(_) => "Bad Request"@,
        AppError::Unauthorized(_) => "Unauthorized"@,
        AppError::Forbidden(_) => "Forbidden"@,
        AppError::ServiceUnavailable(_) => "Service Unavailable"@,
        AppError::GatewayTimeout(_) => "Gateway Timeout"@,
        AppError::BadGateway(_) => "Bad Gateway"@,
    }
}

/// The message an error carries.
pub open spec fn message_of(e: AppError) -> Seq<char> {
    match e {
        AppError::InternalError(m) => m@,
        AppError::ConfigError(m) => m@,
        AppError::NotFound(m) => m@,
        AppError::BadRequest(m) => m@,
        AppError::Unauthorized(m) => m@,
        AppError::Forbidden(m) => m@,
        AppError::ServiceUnavailable(m) => m@,
        AppError::GatewayTimeout(m) => m@,
        AppError::BadGateway(m) => m@,
    }
}

impl AppError {
    /// The HTTP status of this error.
    pub fn status_code(&self) -> (r: u16)
        ensures
            r == status_of(*self),
    {
        match self {
            AppError::InternalError(_) => 500,
            AppError::ConfigError(_) => 500,
            AppError::NotFound(_) => 404,
            AppError::BadRequest(_) => 400,
            AppError::Unauthorized(_) => 401,
            AppError::Forbidden(_) => 403,
            AppError::ServiceUnavailable(_) => 503,
            AppError::GatewayTimeout(_) => 504,
            AppError::BadGateway(_) => 502,
        }
    }

    /// The title of this error's problem report.
    pub fn title(&self) -> (r: &'static str)
        ensures
            r@ == title_of(*self),
    {
        match self {
            AppError::InternalError(_) => "Internal Server Error",
            AppError::ConfigError(_) => "Configuration Error",
            AppError::NotFound(_) => "Not Found",
            AppError::BadRequest(_) => "Bad Request",
            AppError::Unauthorized(_) => "Unauthorized",
            AppError::Forbidden(_) => "Forbidden",
            AppError::ServiceUnavailable(_) => "Service Unavailable",
            AppError::GatewayTimeout(_) => "Gateway Timeout",
            AppError::BadGateway(_) => "Bad Gateway",
        }
    }

    /// The message this error carries.
    pub fn message(&self) -> (r: &String)
        ensures
            r@ == message_of(*self),
    {
        match self {
            AppError::InternalError(m) => m,
            AppError::ConfigError(m) => m,
            AppError::NotFound(m) => m,
            AppError::BadRequest(m) => m,
            AppError::Unauthorized(m) => m,
            AppError::Forbidden(m) => m,
            AppError::ServiceUnavailable(m) => m,
            AppError::GatewayTimeout(m) => m,
            AppError::BadGateway(m) => m,
        }
    }

    /// The problem report a client receives for this error.
    pub fn to_problem_details(&self) -> (r: ProblemDetails)
        ensures
            r.status == Some(status_of(*self)),
            opt_view(r.title) == Some(title_of(*self)),
            opt_view(r.detail) == Some(message_of(*self)),
            r.problem_type is None,
            r.instance is None,
            r.cause is None,
            r.invalid_params is None,
    {
        ProblemDetails::new(self.status_code(), self.title(), self.message().as_str())
    }

    /// The error for an upstream transport failure: a timeout is a gateway
    /// timeout, a failed connection makes the service unavailable, anything
    /// else is a bad gateway.
    pub fn from_transport_failure(timed_out: bool, connect_failed: bool, detail: &str) -> (r: AppError)
        ensures
            timed_out ==> (r matches AppError::GatewayTimeout(m) && m@ == detail@),
            !timed_out && connect_failed ==> (r matches AppError::ServiceUnavailable(m) && m@
                == "Failed to connect to upstream service: "@ + detail@),
            !timed_out && !connect_failed ==> (r matches AppError::BadGateway(m) && m@ == detail@),
    {
        if timed_out {
            AppError::GatewayTimeout(detail.to_owned())
        } else if connect_failed {
            let mut m = String::from_str("Failed to connect to upstream service: ");
            m.append(detail);
            AppError::ServiceUnavailable(m)
        } else {
            AppError::BadGateway(detail.to_owned())
        }
    }
}


/// Answer of the liveness endpoint.
#[derive(Debug)]
pub struct HealthResponse {
    pub status: String,
}

impl HealthResponse {
    /// The answer of a live proxy: status `healthy`.
    pub fn healthy() -> (r: HealthResponse)
        ensures
            r.status@ == "healthy"@,
    {
        HealthResponse { status: String::from_str("healthy") }
    }
}

/// Profile cache figures reported by the status endpoint.
#[derive(Debug)]
pub struct CacheStats {
    pub cached_nf_profiles: usize,
}

/// Answer of the status endpoint.
#[derive(Debug)]
pub struct StatusResponse {
    pub service: String,
    pub version: String,
    pub nf_instance_id: String,
    pub uptime_seconds: u64,
    pub nrf_status: String,
    pub cache: CacheStats,
    pub load_balancer: LoadBalancerStats,
}

impl StatusResponse {
    /// The status of this proxy; the NRF status reads `connected` when an
    /// NRF is configured and `not_configured` otherwise.
    pub fn new(
        version: &str,
        nf_instance_id: &str,
        uptime_seconds: u64,
        nrf_configured: bool,
        cached_nf_profiles: usize,
        load_balancer: LoadBalancerStats,
    ) -> (r: StatusResponse)
        ensures
            r.service@ == "SCP"@,
            r.version@ == version@,
            r.nf_instance_id@ == nf_instance_id@,
            r.uptime_seconds == uptime_seconds,
            nrf_configured ==> r.nrf_status@ == "connected"@,
            !nrf_configured ==> r.nrf_status@ == "not_configured"@,
            r.cache.cached_nf_profiles == cached_nf_profiles,
            r.load_balancer == load_balancer,
    {
        let nrf_status = if nrf_configured {
            String::from_str("connected")
        } else {
            String::from_str("not_configured")
        };
        StatusResponse {
            service: String::from_str("SCP"),
            version: version.to_owned(),
            nf_instance_id: nf_instance_id.to_owned(),
            uptime_seconds,
            nrf_status,
            cache: CacheStats { cached_nf_profiles },
            load_balancer,
        }
    }
}

} // verus!
