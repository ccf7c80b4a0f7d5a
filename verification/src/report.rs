//! The answers of the service's informational endpoints, as typed values.

use crate::clock::now;
use crate::registry::{Metrics, Registry, RegistryView};
use crate::session::SessionSummary;
use crate::supervisor::elapsed;
use vstd::prelude::*;

verus! {

/// The name under which the service reports itself.
pub open spec fn service_name() -> Seq<char> {
    "terminal-service"@
}

/// The version that the service reports.
pub open spec fn service_version() -> Seq<char> {
    "1.0.0"@
}

/// Session counts and uptime as the health check reports them.
#[derive(Clone, Copy, Debug, PartialEq, Eq, Structural)]
pub struct TerminalStatus {
    pub active_sessions: usize,
    pub max_sessions: usize,
    pub uptime_seconds: u64,
}

/// The answer of the health check.
#[derive(Debug)]
pub struct HealthResponse {
    pub status: String,
    pub timestamp: u64,
    pub service: String,
    pub version: String,
    pub terminal: TerminalStatus,
}

/// One endpoint of the service: its name and its path.
#[derive(Debug)]
pub struct Endpoint {
    pub name: String,
    pub path: String,
}

/// The service's description of itself.
#[derive(Debug)]
pub struct ServiceInfo {
    pub service: String,
    pub description: String,
    pub version: String,
    pub status: String,
    pub endpoints: Vec<Endpoint>,
    pub timestamp: u64,
}

/// The answer of the session listing.
#[derive(Debug)]
pub struct SessionsResponse {
    pub sessions: Vec<SessionSummary>,
    pub total: usize,
    pub active: usize,
    pub timestamp: u64,
}

/// The answer of the metrics query.
#[derive(Debug)]
pub struct MetricsResponse {
    pub service: String,
    pub metrics: Metrics,
    pub timestamp: u64,
}

/// `r` is the health report of `registry` at `now`.
pub open spec fn is_health_report(r: HealthResponse, registry: RegistryView, now: u64) -> bool {
    &&& r.status@ == "healthy"@
    &&& r.timestamp == now
    &&& r.service@ == service_name()
    &&& r.version@ == service_version()
    &&& r.terminal == TerminalStatus {
        active_sessions: registry.active() as usize,
        max_sessions: registry.config.max_sessions(),
        uptime_seconds: elapsed(registry.started_at, now),
    }
}

/// `e` is the endpoint `name` at `path`.
pub open spec fn is_endpoint(e: Endpoint, name: Seq<char>, path: Seq<char>) -> bool {
    e.name@ == name && e.path@ == path
}

/// `r` is the service's description of itself at `now`.
pub open spec fn is_service_info(r: ServiceInfo, now: u64) -> bool {
    &&& r.service@ == "NovaShield Terminal Service"@
    &&& r.description@ == "Secure terminal emulation and command execution service"@
    &&& r.version@ == service_version()
    &&& r.status@ == "operational"@
    &&& r.timestamp == now
    &&& r.endpoints@.len() == 4
    &&& is_endpoint(r.endpoints@[0], "health"@, "/health"@)
    &&& is_endpoint(r.endpoints@[1], "sessions"@, "/api/sessions"@)
    &&& is_endpoint(r.endpoints@[2], "execute"@, "/api/execute"@)
    &&& is_endpoint(r.endpoints@[3], "terminals"@, "/api/terminals"@)
}

/// `r` is the session listing of `registry` at `now`.
pub open spec fn is_sessions_report(r: SessionsResponse, registry: RegistryView, now: u64) -> bool {
    &&& r.sessions@ == registry.listing()
    &&& r.total == registry.sessions.len()
    &&& r.active == registry.active()
    &&& r.timestamp == now
}

/// `r` is the metrics report of `registry` at `now`.
pub open spec fn is_metrics_report(r: MetricsResponse, registry: RegistryView, now: u64) -> bool {
    &&& r.service@ == service_name()
    &&& r.metrics == registry.metrics(now)
    &&& r.timestamp == now
}

/// The health report at `now`.
pub fn health_at(registry: &Registry, now: u64) -> (r: HealthResponse)
    requires
        registry.wf(),
    ensures
        is_health_report(r, registry@, now),
{
    let config = registry.config();
    HealthResponse {
        status: "healthy".to_owned(),
        timestamp: now,
        service: "terminal-service".to_owned(),
        version: "1.0.0".to_owned(),
        terminal: TerminalStatus {
            active_sessions: registry.active_sessions(),
            max_sessions: config.max_sessions(),
            uptime_seconds: registry.metrics(now).uptime_seconds,
        },
    }
}

/// The health report at the time the clock shows, which the report carries.
pub fn health(registry: &Registry) -> (r: HealthResponse)
    requires
        registry.wf(),
    ensures
        is_health_report(r, registry@, r.timestamp),
{
    health_at(registry, now())
}

fn endpoint(name: &str, path: &str) -> (e: Endpoint)
    ensures
        is_endpoint(e, name@, path@),
{
    Endpoint { name: name.to_owned(), path: path.to_owned() }
}

/// The service's description of itself at `now`.
pub fn root_at(now: u64) -> (r: ServiceInfo)
    ensures
        is_service_info(r, now),
{
    let mut endpoints: Vec<Endpoint> = Vec::new();
    endpoints.push(endpoint("health", "/health"));
    endpoints.push(endpoint("sessions", "/api/sessions"));
    endpoints.push(endpoint("execute", "/api/execute"));
    endpoints.push(endpoint("terminals", "/api/terminals"));
    ServiceInfo {
        service: "NovaShield Terminal Service".to_owned(),
        description: "Secure terminal emulation and command execution service".to_owned(),
        version: "1.0.0".to_owned(),
        status: "operational".to_owned(),
        endpoints,
        timestamp: now,
    }
}

/// The service's description of itself at the time the clock shows, which
/// the description carries.
pub fn root() -> (r: ServiceInfo)
    ensures
        is_service_info(r, r.timestamp),
{
    root_at(now())
}

/// The session listing at `now`.
pub fn get_sessions_at(registry: &Registry, now: u64) -> (r: SessionsResponse)
    requires
        registry.wf(),
    ensures
        is_sessions_report(r, registry@, now),
{
    SessionsResponse {
        sessions: registry.list(),
        total: registry.len(),
        active: registry.active_sessions(),
        timestamp: now,
    }
}

/// The session listing at the time the clock shows, which the listing
/// carries.
pub fn get_sessions(registry: &Registry) -> (r: SessionsResponse)
    requires
        registry.wf(),
    ensures
        is_sessions_report(r, registry@, r.timestamp),
{
    get_sessions_at(registry, now())
}

/// The metrics report at `now`.
pub fn get_metrics_at(registry: &Registry, now: u64) -> (r: MetricsResponse)
    requires
        registry.wf(),
    ensures
        is_metrics_report(r, registry@, now),
{
    MetricsResponse {
        service: "terminal-service".to_owned(),
        metrics: registry.metrics(now),
        timestamp: now,
    }
}

/// The metrics report at the time the clock shows, which the report carries.
pub fn get_metrics(registry: &Registry) -> (r: MetricsResponse)
    requires
        registry.wf(),
    ensures
        is_metrics_report(r, registry@, r.timestamp),
{
    get_metrics_at(registry, now())
}

} // verus!
