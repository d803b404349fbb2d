//! Verified building blocks for wasmCloud utility components.
use vstd::prelude::*;

pub mod auth;
pub mod batch;
pub mod cache;
pub mod circuit_breaker;
pub mod config_loader;
pub mod cron;
pub mod distributed_lock;
pub mod event_trigger;
pub mod feature_flags;
pub mod health_check;
pub mod idempotency;
pub mod job_queue;
pub mod jwt;
pub mod oauth;
pub mod observability;
pub mod ratelimit;
pub mod ratelimit_http;
pub mod retry;
pub mod secret_store;
pub mod secrets;
pub mod store;
pub mod strings;
pub mod tenant_context;
pub mod text;
pub mod tracing;
pub mod workflow;
pub mod workflow_api;
pub mod workflow_engine;
pub mod workflow_keys;
pub mod workflow_replies;
pub mod workflow_route;
pub mod workflow_run;

verus! {

} // verus!
