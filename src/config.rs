//! Process settings.

use vstd::prelude::*;
use crate::retry::RetryConfig;

verus! {

/// OAuth2 token validation settings (applied by the server layer).
#[derive(Debug)]
pub struct OAuth2Config {
    pub enabled: bool,
    pub issuer: String,
    pub audience: Vec<String>,
    pub required_scope: Option<String>,
    pub secret_key: String,
}

impl Default for OAuth2Config {
    fn default() -> (r: Self)
        ensures
            !r.enabled,
            r.issuer@.len() == 0,
            r.audience@.len() == 0,
            r.required_scope is None,
            r.secret_key@.len() == 0,
    {
        OAuth2Config {
            enabled: false,
            issuer: String::new(),
            audience: Vec::new(),
            required_scope: None,
            secret_key: String::new(),
        }
    }
}

/// TLS termination settings (applied by the server layer).
#[derive(Debug)]
pub struct TlsConfig {
    pub enabled: bool,
    pub cert_path: Option<String>,
    pub key_path: Option<String>,
}

/// Everything the proxy is configured with.
#[derive(Debug)]
pub struct Config {
    pub host: String,
    pub port: u16,
    pub nrf_uri: Option<String>,
    pub nf_instance_id: String,
    pub scp_host: String,
    pub oauth2: OAuth2Config,
    pub tls: TlsConfig,
    pub cache_ttl_seconds: u64,
    pub heartbeat_interval_seconds: u64,
    pub retry: RetryConfig,
}

} // verus!
