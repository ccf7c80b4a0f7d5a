use terminal_service::config::Config;
use terminal_service::error::ServiceError;
use terminal_service::launcher::LaunchParams;
use terminal_service::registry::Registry;
use terminal_service::session::SessionState;
use terminal_service::signal::Signal;
use terminal_service::supervisor::{judge, seconds_between, Action, Verdict};

fn params(command: &str) -> LaunchParams {
    LaunchParams {
        command: command.to_string(),
        args: Vec::new(),
        working_directory: "/tmp".to_string(),
        environment: Vec::new(),
        rows: 24,
        cols: 80,
    }
}

fn registry(idle: u64, grace: u64, retention: u64) -> Registry {
    Registry::new(Config::new(4, idle, 16, grace, retention, 8).unwrap(), 1_000)
}

fn running(registry: &mut Registry, now: u64) -> u64 {
    let id = registry.create(params("sh"), "alice".to_string(), now).unwrap();
    registry.launch_succeeded(id, now).unwrap();
    id
}

#[test]
fn echo_hello_runs_to_termination() {
    let mut registry = registry(1800, 5, 60);
    let mut p = params("echo");
    p.args = vec!["hello".to_string()];
    let id = registry.create(p, "alice".to_string(), 1_000).unwrap();
    assert_eq!(registry.launch_succeeded(id, 1_000), Ok(()));
    assert_eq!(registry.status(id).unwrap().state, SessionState::Running);
    assert_eq!(registry.attach(id, 1), Ok(()));
    assert_eq!(registry.output(id, b"hello\n", 1_001), Ok(()));
    assert_eq!(registry.poll(id, 1, 1024), Ok(b"hello\n".to_vec()));
    assert_eq!(registry.process_exited(id, 0, 1_001), Ok(false));
    assert_eq!(registry.status(id).unwrap().state, SessionState::Exiting);
    assert_eq!(registry.status(id).unwrap().exit_code, None);
    assert_eq!(registry.output_closed(id, 1_002), Ok(true));
    let status = registry.status(id).unwrap();
    assert_eq!(status.state, SessionState::Terminated);
    assert_eq!(status.exit_code, Some(0));
    assert_eq!(status.failure, None);
    assert_eq!(registry.active_sessions(), 0);
    assert_eq!(registry.poll(id, 1, 1024), Ok(Vec::new()));
}

#[test]
fn output_may_close_before_the_process_exits() {
    let mut registry = registry(1800, 5, 60);
    let id = running(&mut registry, 1_000);
    assert_eq!(registry.output_closed(id, 1_001), Ok(false));
    assert_eq!(registry.status(id).unwrap().state, SessionState::Exiting);
    assert_eq!(registry.output(id, b"late", 1_002), Err(ServiceError::SessionNotRunning));
    assert_eq!(registry.output_closed(id, 1_002), Err(ServiceError::SessionNotRunning));
    assert_eq!(registry.process_exited(id, 3, 1_003), Ok(true));
    let status = registry.status(id).unwrap();
    assert_eq!(status.state, SessionState::Terminated);
    assert_eq!(status.exit_code, Some(3));
    assert_eq!(registry.process_exited(id, 4, 1_004), Err(ServiceError::SessionNotRunning));
    assert_eq!(registry.status(id).unwrap().exit_code, Some(3));
}

#[test]
fn output_still_drains_while_exiting() {
    let mut registry = registry(1800, 5, 60);
    let id = running(&mut registry, 1_000);
    registry.attach(id, 1).unwrap();
    assert_eq!(registry.process_exited(id, 0, 1_001), Ok(false));
    assert_eq!(registry.output(id, b"bye", 1_001), Ok(()));
    assert_eq!(registry.output_closed(id, 1_001), Ok(true));
    assert_eq!(registry.poll(id, 1, 10), Ok(b"bye".to_vec()));
}

#[test]
fn terminating_an_unresponsive_process_escalates_after_the_grace_period() {
    let mut registry = registry(1800, 5, 60);
    let id = running(&mut registry, 1_000);
    assert_eq!(registry.terminate(id, Signal::Graceful, 1_010), Ok(Some(Signal::Graceful)));
    assert_eq!(registry.status(id).unwrap().state, SessionState::Exiting);
    assert_eq!(registry.tick(1_014), Vec::new());
    assert_eq!(registry.status(id).unwrap().state, SessionState::Exiting);
    assert_eq!(registry.tick(1_015), vec![Action::Deliver { id, signal: Signal::Forced }]);
    assert_eq!(registry.tick(1_016), Vec::new());
    assert_eq!(registry.process_exited(id, 137, 1_016), Ok(false));
    assert_eq!(registry.output_closed(id, 1_016), Ok(true));
    let status = registry.status(id).unwrap();
    assert_eq!(status.state, SessionState::Terminated);
    assert_eq!(status.exit_code, Some(137));
}

#[test]
fn a_forced_termination_is_not_escalated_again() {
    let mut registry = registry(1800, 5, 60);
    let id = running(&mut registry, 1_000);
    assert_eq!(registry.terminate(id, Signal::Forced, 1_010), Ok(Some(Signal::Forced)));
    assert_eq!(registry.status(id).unwrap().state, SessionState::Exiting);
    assert_eq!(registry.tick(1_100), Vec::new());
}

#[test]
fn terminate_is_refused_outside_running_and_exiting() {
    let mut registry = registry(1800, 5, 60);
    let id = registry.create(params("sh"), "alice".to_string(), 1_000).unwrap();
    assert_eq!(
        registry.terminate(id, Signal::Graceful, 1_000),
        Err(ServiceError::SessionNotRunning)
    );
    registry.launch_succeeded(id, 1_000).unwrap();
    assert_eq!(registry.terminate(id, Signal::Graceful, 1_001), Ok(Some(Signal::Graceful)));
    assert_eq!(registry.terminate(id, Signal::Forced, 1_002), Ok(Some(Signal::Forced)));
    assert_eq!(registry.process_exited(id, 9, 1_003), Ok(false));
    assert_eq!(registry.terminate(id, Signal::Graceful, 1_004), Ok(None));
    assert_eq!(registry.output_closed(id, 1_005), Ok(true));
    assert_eq!(
        registry.terminate(id, Signal::Graceful, 1_006),
        Err(ServiceError::SessionNotRunning)
    );
}

#[test]
fn a_repeated_request_does_not_postpone_the_kill() {
    let mut registry = registry(1800, 5, 60);
    let id = running(&mut registry, 1_000);
    registry.terminate(id, Signal::Graceful, 1_010).unwrap();
    registry.terminate(id, Signal::Graceful, 1_014).unwrap();
    assert_eq!(registry.get(id).unwrap().terminate_requested_at(), Some(1_010));
    assert_eq!(registry.tick(1_015), vec![Action::Deliver { id, signal: Signal::Forced }]);
    assert!(registry.get(id).unwrap().kill_sent());
}

#[test]
fn an_idle_session_is_asked_to_terminate() {
    let mut registry = registry(30, 5, 60);
    let id = running(&mut registry, 1_000);
    assert_eq!(registry.tick(1_030), Vec::new());
    assert_eq!(registry.status(id).unwrap().state, SessionState::Running);
    assert_eq!(registry.tick(1_031), vec![Action::Deliver { id, signal: Signal::Graceful }]);
    assert_eq!(registry.status(id).unwrap().state, SessionState::Exiting);
    assert_eq!(registry.get(id).unwrap().terminate_requested_at(), Some(1_031));
    assert_eq!(registry.tick(1_036), vec![Action::Deliver { id, signal: Signal::Forced }]);
}

#[test]
fn traffic_in_either_direction_postpones_the_idle_timeout() {
    let mut registry = registry(30, 5, 60);
    let id = running(&mut registry, 1_000);
    registry.write(id, b"ls\n", 1_020).unwrap();
    assert_eq!(registry.status(id).unwrap().last_activity_at, 1_020);
    assert_eq!(registry.tick(1_050), Vec::new());
    registry.output(id, b"file\n", 1_040).unwrap();
    assert_eq!(registry.status(id).unwrap().last_activity_at, 1_040);
    assert_eq!(registry.tick(1_070), Vec::new());
    assert_eq!(registry.tick(1_071), vec![Action::Deliver { id, signal: Signal::Graceful }]);
}

#[test]
fn empty_transfers_and_stale_clocks_do_not_count_as_activity() {
    let mut registry = registry(30, 5, 60);
    let id = running(&mut registry, 1_000);
    registry.write(id, b"", 1_020).unwrap();
    registry.output(id, b"", 1_020).unwrap();
    assert_eq!(registry.status(id).unwrap().last_activity_at, 1_000);
    registry.write(id, b"x", 900).unwrap();
    assert_eq!(registry.status(id).unwrap().last_activity_at, 1_000);
}

#[test]
fn starting_sessions_are_left_alone_by_the_supervisor() {
    let mut registry = registry(30, 5, 60);
    let id = registry.create(params("sh"), "alice".to_string(), 1_000).unwrap();
    assert_eq!(registry.tick(9_999), Vec::new());
    assert_eq!(registry.status(id).unwrap().state, SessionState::Starting);
}

#[test]
fn finished_sessions_are_purged_after_the_retention_period() {
    let mut registry = registry(1800, 5, 60);
    let a = running(&mut registry, 1_000);
    let b = running(&mut registry, 1_000);
    registry.process_exited(a, 0, 1_010).unwrap();
    registry.output_closed(a, 1_010).unwrap();
    assert_eq!(registry.tick(1_069), Vec::new());
    assert_eq!(registry.status(a).unwrap().state, SessionState::Terminated);
    assert_eq!(registry.tick(1_070), vec![Action::Forget { id: a }]);
    assert_eq!(registry.status(a), Err(ServiceError::NotFound));
    assert_eq!(registry.status(b).unwrap().state, SessionState::Running);
    assert_eq!(registry.len(), 1);
    assert_eq!(registry.active_sessions(), 1);
}

#[test]
fn one_round_handles_every_session_on_its_own() {
    let mut registry = registry(30, 5, 60);
    let idle = running(&mut registry, 1_000);
    let busy = running(&mut registry, 1_000);
    let done = running(&mut registry, 1_000);
    let stuck = running(&mut registry, 1_000);
    registry.write(busy, b"x", 1_090).unwrap();
    registry.io_failed(done, 1_001).unwrap();
    registry.write(stuck, b"x", 1_090).unwrap();
    registry.terminate(stuck, Signal::Graceful, 1_090).unwrap();
    let actions = registry.tick(1_100);
    assert_eq!(
        actions,
        vec![
            Action::Deliver { id: idle, signal: Signal::Graceful },
            Action::Forget { id: done },
            Action::Deliver { id: stuck, signal: Signal::Forced },
        ]
    );
    assert_eq!(registry.status(idle).unwrap().state, SessionState::Exiting);
    assert_eq!(registry.status(busy).unwrap().state, SessionState::Running);
    assert_eq!(registry.status(done), Err(ServiceError::NotFound));
    assert_eq!(registry.status(stuck).unwrap().state, SessionState::Exiting);
    assert_eq!(registry.len(), 3);
}

#[test]
fn an_io_failure_fails_one_session_only() {
    let mut registry = registry(1800, 5, 60);
    let a = running(&mut registry, 1_000);
    let b = running(&mut registry, 1_000);
    registry.attach(b, 5).unwrap();
    assert_eq!(registry.io_failed(a, 1_005), Ok(()));
    let status = registry.status(a).unwrap();
    assert_eq!(status.state, SessionState::Failed);
    assert_eq!(status.failure, Some(ServiceError::InternalIoError));
    assert_eq!(status.exit_code, None);
    assert_eq!(registry.get(a).unwrap().finished_at(), Some(1_005));
    assert_eq!(registry.io_failed(a, 1_006), Err(ServiceError::SessionNotRunning));
    assert_eq!(registry.status(b).unwrap().state, SessionState::Running);
    assert!(registry.get(b).unwrap().is_attached(5));
    assert_eq!(registry.active_sessions(), 1);
}

#[test]
fn finished_sessions_refuse_every_request() {
    let mut registry = registry(1800, 5, 60);
    let id = running(&mut registry, 1_000);
    registry.process_exited(id, 0, 1_001).unwrap();
    registry.output_closed(id, 1_001).unwrap();
    let before = registry.status(id).unwrap();
    assert_eq!(registry.attach(id, 1), Err(ServiceError::SessionNotRunning));
    assert_eq!(registry.write(id, b"x", 1_002), Err(ServiceError::SessionNotRunning));
    assert_eq!(registry.resize(id, 10, 10), Err(ServiceError::SessionNotRunning));
    assert_eq!(registry.output(id, b"x", 1_002), Err(ServiceError::SessionNotRunning));
    assert_eq!(registry.launch_succeeded(id, 1_002), Err(ServiceError::SessionNotRunning));
    assert_eq!(registry.status(id).unwrap(), before);
}

#[test]
fn resize_checks_dimensions_first_and_is_idempotent() {
    let mut registry = registry(1800, 5, 60);
    let id = registry.create(params("sh"), "alice".to_string(), 1_000).unwrap();
    assert_eq!(registry.resize(id, 0, 80), Err(ServiceError::InvalidDimensions));
    assert_eq!(registry.resize(id, 40, 120), Err(ServiceError::SessionNotRunning));
    registry.launch_succeeded(id, 1_000).unwrap();
    assert_eq!(registry.resize(id, 40, 10001), Err(ServiceError::InvalidDimensions));
    assert_eq!(registry.status(id).unwrap().rows, 24);
    assert_eq!(registry.resize(id, 40, 120), Ok(()));
    let once = registry.status(id).unwrap();
    assert_eq!((once.rows, once.cols), (40, 120));
    assert_eq!(registry.resize(id, 40, 120), Ok(()));
    assert_eq!(registry.status(id).unwrap(), once);
}

#[test]
fn verdicts_follow_the_three_rules() {
    let config = Config::new(4, 30, 16, 5, 60, 8).unwrap();
    let mut registry = Registry::new(config, 1_000);
    let id = running(&mut registry, 1_000);
    assert_eq!(judge(registry.get(id).unwrap(), 1_030, &config), Verdict::Keep);
    assert_eq!(
        judge(registry.get(id).unwrap(), 1_031, &config),
        Verdict::Signal(Signal::Graceful)
    );
    registry.terminate(id, Signal::Graceful, 1_031).unwrap();
    assert_eq!(judge(registry.get(id).unwrap(), 1_035, &config), Verdict::Keep);
    assert_eq!(
        judge(registry.get(id).unwrap(), 1_036, &config),
        Verdict::Signal(Signal::Forced)
    );
    registry.process_exited(id, 0, 1_036).unwrap();
    assert_eq!(judge(registry.get(id).unwrap(), 9_000, &config), Verdict::Keep);
    registry.output_closed(id, 1_040).unwrap();
    assert_eq!(judge(registry.get(id).unwrap(), 1_099, &config), Verdict::Keep);
    assert_eq!(judge(registry.get(id).unwrap(), 1_100, &config), Verdict::Purge);
    assert_eq!(seconds_between(10, 25), 15);
    assert_eq!(seconds_between(25, 10), 0);
}
