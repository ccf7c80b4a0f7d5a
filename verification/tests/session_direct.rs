use terminal_service::error::{LaunchError, ServiceError};
use terminal_service::launcher::LaunchParams;
use terminal_service::session::{Session, SessionState};
use terminal_service::signal::Signal;

fn session() -> Session {
    let params = LaunchParams {
        command: "cat".to_string(),
        args: vec!["-n".to_string()],
        working_directory: "/home".to_string(),
        environment: vec![("LANG".to_string(), "C".to_string())],
        rows: 24,
        cols: 80,
    };
    Session::new(7, params, "carol".to_string(), 100, 4, 3).unwrap()
}

#[test]
fn states_are_classified() {
    for s in [SessionState::Starting, SessionState::Running, SessionState::Exiting] {
        assert!(s.is_active());
        assert!(!s.is_finished());
    }
    for s in [SessionState::Terminated, SessionState::Failed] {
        assert!(!s.is_active());
        assert!(s.is_finished());
        assert!(!s.holds_pty());
    }
    assert!(!SessionState::Starting.holds_pty());
    assert!(SessionState::Running.holds_pty());
    assert!(SessionState::Exiting.holds_pty());
}

#[test]
fn a_session_walks_through_its_lifecycle() {
    let mut s = session();
    assert_eq!(s.write(b"x", 101), Err(ServiceError::SessionNotRunning));
    assert_eq!(s.output(b"x", 101), Err(ServiceError::SessionNotRunning));
    assert_eq!(s.process_exited(0, 101), Err(ServiceError::SessionNotRunning));
    assert_eq!(s.io_failed(101), Err(ServiceError::SessionNotRunning));
    assert!(!s.process_alive());
    assert_eq!(s.launch_succeeded(105), Ok(()));
    assert_eq!(s.launch_succeeded(106), Err(ServiceError::SessionNotRunning));
    assert_eq!(
        s.launch_failed(LaunchError::CommandNotFound, 106),
        Err(ServiceError::SessionNotRunning)
    );
    assert_eq!(s.state(), SessionState::Running);
    assert_eq!(s.last_activity_at(), 105);
    assert!(s.process_alive());
    assert_eq!(s.attach(1), Ok(()));
    assert_eq!(s.write(b"ab", 110), Ok(()));
    assert_eq!(s.write(b"cd", 109), Ok(()));
    assert_eq!(s.last_activity_at(), 110);
    assert_eq!(s.take_input(), b"abcd".to_vec());
    assert_eq!(s.output(b"12345", 120), Ok(()));
    assert_eq!(s.backlog(), b"2345".to_vec());
    assert_eq!(s.poll(1, 2), b"34".to_vec());
    assert_eq!(s.poll(1, 2), b"5".to_vec());
    assert_eq!(s.resize(50, 132), Ok(()));
    assert_eq!((s.rows(), s.cols()), (50, 132));
    assert_eq!(s.terminate(Signal::Graceful, 130), Ok(Some(Signal::Graceful)));
    assert_eq!(s.state(), SessionState::Exiting);
    assert_eq!(s.terminate_requested_at(), Some(130));
    assert!(!s.kill_sent());
    assert_eq!(s.resize(24, 80), Err(ServiceError::SessionNotRunning));
    assert_eq!(s.attach(2), Err(ServiceError::SessionNotRunning));
    assert_eq!(s.process_exited(143, 131), Ok(false));
    assert_eq!(s.exit_code(), None);
    assert_eq!(s.output_closed(132), Ok(true));
    assert_eq!(s.state(), SessionState::Terminated);
    assert_eq!(s.exit_code(), Some(143));
    assert_eq!(s.finished_at(), Some(132));
    assert_eq!(s.failure(), None);
    assert!(s.is_attached(1));
    s.detach(1);
    assert!(!s.is_attached(1));
    assert_eq!(s.state(), SessionState::Terminated);
}

#[test]
fn a_failed_launch_is_recorded() {
    let mut s = session();
    assert_eq!(s.launch_failed(LaunchError::PermissionDenied, 103), Ok(()));
    assert_eq!(s.state(), SessionState::Failed);
    assert_eq!(s.failure(), Some(ServiceError::Launch(LaunchError::PermissionDenied)));
    assert_eq!(s.finished_at(), Some(103));
    assert_eq!(s.exit_code(), None);
    let status = s.status();
    assert_eq!(status.state, SessionState::Failed);
    assert_eq!(status.created_at, 100);
    assert_eq!(status.last_activity_at, 100);
}

#[test]
fn an_io_failure_after_exit_keeps_the_exit_code() {
    let mut s = session();
    s.launch_succeeded(101).unwrap();
    assert_eq!(s.process_exited(2, 102), Ok(false));
    assert_eq!(s.io_failed(103), Ok(()));
    assert_eq!(s.state(), SessionState::Failed);
    assert_eq!(s.failure(), Some(ServiceError::InternalIoError));
    assert_eq!(s.exit_code(), Some(2));
}

#[test]
fn a_summary_names_the_command_and_the_requester() {
    let mut s = session();
    s.attach(1).unwrap();
    s.attach(2).unwrap();
    let summary = s.summary();
    assert_eq!(summary.id, 7);
    assert_eq!(summary.command, "cat");
    assert_eq!(summary.requested_by, "carol");
    assert_eq!(summary.state, SessionState::Starting);
    assert_eq!(summary.created_at, 100);
    assert_eq!(summary.last_activity_at, 100);
    assert_eq!(summary.attached_clients, 2);
    assert_eq!(s.params().args, vec!["-n".to_string()]);
    assert_eq!(s.params().working_directory, "/home");
    assert_eq!(s.params().environment, vec![("LANG".to_string(), "C".to_string())]);
}
