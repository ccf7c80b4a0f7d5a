use terminal_service::clock::{now, seconds_since_epoch};
use terminal_service::config::Config;
use terminal_service::launcher::LaunchParams;
use terminal_service::registry::Registry;
use terminal_service::report::{
    get_metrics, get_metrics_at, get_sessions, get_sessions_at, health, health_at, root, root_at,
};
use terminal_service::session::SessionState;

fn params(command: &str) -> LaunchParams {
    LaunchParams {
        command: command.to_string(),
        args: Vec::new(),
        working_directory: "/".to_string(),
        environment: Vec::new(),
        rows: 24,
        cols: 80,
    }
}

fn populated() -> Registry {
    let mut registry = Registry::new(Config::standard(), 1_000);
    let a = registry.create(params("one"), "alice".to_string(), 1_000).unwrap();
    registry.launch_succeeded(a, 1_001).unwrap();
    let b = registry.create(params("two"), "bob".to_string(), 1_002).unwrap();
    registry.launch_succeeded(b, 1_003).unwrap();
    registry.io_failed(b, 1_004).unwrap();
    registry
}

#[test]
fn timestamps_before_the_epoch_count_as_the_epoch() {
    assert_eq!(seconds_since_epoch(-5), 0);
    assert_eq!(seconds_since_epoch(0), 0);
    assert_eq!(seconds_since_epoch(1_700_000_000), 1_700_000_000);
    assert_eq!(seconds_since_epoch(i64::MAX), i64::MAX as u64);
    assert_eq!(seconds_since_epoch(i64::MIN), 0);
}

#[test]
fn the_clock_shows_a_present_day_time() {
    let t = now();
    assert!(t > 1_600_000_000);
    assert!(t <= i64::MAX as u64);
}

#[test]
fn health_reports_counts_and_uptime() {
    let registry = populated();
    let r = health_at(&registry, 1_060);
    assert_eq!(r.status, "healthy");
    assert_eq!(r.timestamp, 1_060);
    assert_eq!(r.service, "terminal-service");
    assert_eq!(r.version, "1.0.0");
    assert_eq!(r.terminal.active_sessions, 1);
    assert_eq!(r.terminal.max_sessions, 100);
    assert_eq!(r.terminal.uptime_seconds, 60);
}

#[test]
fn health_carries_the_time_of_the_clock() {
    let registry = Registry::new(Config::standard(), 1_000);
    let r = health(&registry);
    assert_eq!(r.status, "healthy");
    assert!(r.timestamp > 1_600_000_000);
    assert_eq!(r.terminal.uptime_seconds, r.timestamp - 1_000);
    assert_eq!(r.terminal.active_sessions, 0);
}

#[test]
fn root_describes_the_service() {
    let r = root_at(42);
    assert_eq!(r.service, "NovaShield Terminal Service");
    assert_eq!(r.description, "Secure terminal emulation and command execution service");
    assert_eq!(r.version, "1.0.0");
    assert_eq!(r.status, "operational");
    assert_eq!(r.timestamp, 42);
    let listed: Vec<(&str, &str)> =
        r.endpoints.iter().map(|e| (e.name.as_str(), e.path.as_str())).collect();
    assert_eq!(
        listed,
        vec![
            ("health", "/health"),
            ("sessions", "/api/sessions"),
            ("execute", "/api/execute"),
            ("terminals", "/api/terminals"),
        ]
    );
    assert!(root().timestamp > 1_600_000_000);
}

#[test]
fn sessions_report_lists_all_and_counts_the_active() {
    let registry = populated();
    let r = get_sessions_at(&registry, 1_010);
    assert_eq!(r.total, 2);
    assert_eq!(r.active, 1);
    assert_eq!(r.timestamp, 1_010);
    assert_eq!(r.sessions.len(), 2);
    assert_eq!(r.sessions[0].command, "one");
    assert_eq!(r.sessions[0].state, SessionState::Running);
    assert_eq!(r.sessions[1].command, "two");
    assert_eq!(r.sessions[1].state, SessionState::Failed);
    let live = get_sessions(&registry);
    assert_eq!(live.total, 2);
    assert!(live.timestamp > 1_600_000_000);
}

#[test]
fn metrics_report_names_the_service() {
    let registry = populated();
    let r = get_metrics_at(&registry, 1_500);
    assert_eq!(r.service, "terminal-service");
    assert_eq!(r.timestamp, 1_500);
    assert_eq!(r.metrics.active_sessions, 1);
    assert_eq!(r.metrics.max_sessions, 100);
    assert_eq!(r.metrics.total_commands_executed, 2);
    assert_eq!(r.metrics.uptime_seconds, 500);
    let live = get_metrics(&registry);
    assert_eq!(live.metrics, registry.metrics(live.timestamp));
}
