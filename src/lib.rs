//! Request routing core of a service communication proxy: producer
//! selection, per-instance circuit breaking, retry with backoff and the
//! failover decisions that tie them together.

pub mod path;
pub mod types;
pub mod registry;
pub mod load_balancer;
pub mod retry;
pub mod forward;
pub mod notification;
pub mod failover;
pub mod config;
pub mod fairness;
pub mod decimal;
