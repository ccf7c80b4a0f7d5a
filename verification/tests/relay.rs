use terminal_service::buffer::{append_bytes, BoundedBuffer};
use terminal_service::clients::ClientSet;
use terminal_service::config::Config;
use terminal_service::error::ServiceError;
use terminal_service::launcher::LaunchParams;
use terminal_service::registry::Registry;
use terminal_service::session::SessionState;

fn params() -> LaunchParams {
    LaunchParams {
        command: "sh".to_string(),
        args: Vec::new(),
        working_directory: "/".to_string(),
        environment: Vec::new(),
        rows: 24,
        cols: 80,
    }
}

fn running(registry: &mut Registry) -> u64 {
    let id = registry.create(params(), "alice".to_string(), 1_000).unwrap();
    registry.launch_succeeded(id, 1_000).unwrap();
    id
}

fn registry() -> Registry {
    Registry::new(Config::new(4, 1800, 16, 5, 60, 8).unwrap(), 1_000)
}

#[test]
fn buffer_keeps_the_newest_bytes() {
    let mut b = BoundedBuffer::new(4);
    assert_eq!(b.capacity(), 4);
    assert!(b.is_empty());
    b.push_slice(b"ab");
    assert_eq!(b.to_vec(), b"ab".to_vec());
    b.push_slice(b"cde");
    assert_eq!(b.to_vec(), b"bcde".to_vec());
    assert_eq!(b.len(), 4);
    b.push_slice(b"0123456789");
    assert_eq!(b.to_vec(), b"6789".to_vec());
    b.push_slice(b"");
    assert_eq!(b.to_vec(), b"6789".to_vec());
}

#[test]
fn buffer_take_hands_out_the_oldest_bytes() {
    let mut b = BoundedBuffer::new(8);
    b.push_slice(b"abcdef");
    assert_eq!(b.take(2), b"ab".to_vec());
    assert_eq!(b.to_vec(), b"cdef".to_vec());
    assert_eq!(b.take(0), Vec::<u8>::new());
    assert_eq!(b.take(100), b"cdef".to_vec());
    assert!(b.is_empty());
    assert_eq!(b.take(1), Vec::<u8>::new());
}

#[test]
fn buffer_without_room_holds_nothing() {
    let mut b = BoundedBuffer::new(0);
    b.push_slice(b"abc");
    assert!(b.is_empty());
    assert_eq!(b.len(), 0);
}

#[test]
fn append_bytes_appends_in_order() {
    let mut v = b"ab".to_vec();
    append_bytes(&mut v, b"cd");
    append_bytes(&mut v, b"");
    assert_eq!(v, b"abcd".to_vec());
}

#[test]
fn client_set_attaches_detaches_and_broadcasts() {
    let mut history = BoundedBuffer::new(16);
    history.push_slice(b"0123456789");
    let mut set = ClientSet::new(4);
    assert_eq!(set.count(), 0);
    set.attach(1, &history);
    assert!(set.contains(1));
    assert!(!set.contains(2));
    set.broadcast(b"ab");
    set.attach(2, &history);
    set.attach(1, &history);
    assert_eq!(set.count(), 2);
    assert_eq!(set.poll(1, 10), b"89ab".to_vec());
    assert_eq!(set.poll(2, 2), b"67".to_vec());
    assert_eq!(set.poll(2, 10), b"89".to_vec());
    assert_eq!(set.poll(3, 10), Vec::<u8>::new());
    set.detach(1);
    set.detach(1);
    assert!(!set.contains(1));
    assert_eq!(set.count(), 1);
    set.broadcast(b"xy");
    assert_eq!(set.poll(2, 10), b"xy".to_vec());
    assert_eq!(set.poll(1, 10), Vec::<u8>::new());
}

#[test]
fn two_clients_receive_identical_output() {
    let mut registry = registry();
    let id = running(&mut registry);
    registry.attach(id, 1).unwrap();
    registry.attach(id, 2).unwrap();
    registry.output(id, b"abc", 1_001).unwrap();
    registry.output(id, b"de", 1_002).unwrap();
    let first = registry.poll(id, 1, 100).unwrap();
    let second = registry.poll(id, 2, 100).unwrap();
    assert_eq!(first, b"abcde".to_vec());
    assert_eq!(second, first);
}

#[test]
fn a_slow_client_loses_only_its_own_oldest_output() {
    let mut registry = registry();
    let id = running(&mut registry);
    registry.attach(id, 1).unwrap();
    registry.attach(id, 2).unwrap();
    registry.output(id, b"012345", 1_001).unwrap();
    assert_eq!(registry.poll(id, 1, 100), Ok(b"012345".to_vec()));
    registry.output(id, b"6789", 1_002).unwrap();
    assert_eq!(registry.poll(id, 1, 100), Ok(b"6789".to_vec()));
    assert_eq!(registry.poll(id, 2, 100), Ok(b"23456789".to_vec()));
}

#[test]
fn a_late_client_starts_with_the_recent_history() {
    let mut registry = registry();
    let id = running(&mut registry);
    registry.output(id, b"0123456789abcdefXYZ", 1_001).unwrap();
    assert_eq!(registry.get(id).unwrap().backlog(), b"3456789abcdefXYZ".to_vec());
    registry.attach(id, 1).unwrap();
    registry.output(id, b"!", 1_002).unwrap();
    assert_eq!(registry.poll(id, 1, 100), Ok(b"cdefXYZ!".to_vec()));
}

#[test]
fn attaching_twice_keeps_the_queue() {
    let mut registry = registry();
    let id = running(&mut registry);
    registry.attach(id, 1).unwrap();
    registry.output(id, b"abc", 1_001).unwrap();
    assert_eq!(registry.poll(id, 1, 1), Ok(b"a".to_vec()));
    assert_eq!(registry.attach(id, 1), Ok(()));
    assert_eq!(registry.get(id).unwrap().attached_clients(), 1);
    assert_eq!(registry.poll(id, 1, 100), Ok(b"bc".to_vec()));
}

#[test]
fn attach_is_allowed_while_starting_and_refused_while_exiting() {
    let mut registry = registry();
    let id = registry.create(params(), "alice".to_string(), 1_000).unwrap();
    assert_eq!(registry.attach(id, 1), Ok(()));
    registry.launch_succeeded(id, 1_000).unwrap();
    registry.output_closed(id, 1_001).unwrap();
    assert_eq!(registry.status(id).unwrap().state, SessionState::Exiting);
    assert_eq!(registry.attach(id, 2), Err(ServiceError::SessionNotRunning));
    assert!(registry.get(id).unwrap().is_attached(1));
    assert!(!registry.get(id).unwrap().is_attached(2));
}

#[test]
fn detaching_one_client_leaves_the_other_and_the_session_alone() {
    let mut registry = registry();
    let id = running(&mut registry);
    registry.attach(id, 1).unwrap();
    registry.attach(id, 2).unwrap();
    registry.output(id, b"abc", 1_001).unwrap();
    assert_eq!(registry.detach(id, 1), Ok(()));
    assert_eq!(registry.detach(id, 1), Ok(()));
    assert_eq!(registry.status(id).unwrap().state, SessionState::Running);
    assert!(!registry.get(id).unwrap().is_attached(1));
    registry.output(id, b"de", 1_002).unwrap();
    assert_eq!(registry.poll(id, 2, 100), Ok(b"abcde".to_vec()));
    assert_eq!(registry.poll(id, 1, 100), Ok(Vec::new()));
    assert_eq!(registry.detach(id, 2), Ok(()));
    assert_eq!(registry.status(id).unwrap().state, SessionState::Running);
    assert_eq!(registry.get(id).unwrap().attached_clients(), 0);
}

#[test]
fn a_client_is_attached_to_one_session_at_a_time() {
    let mut registry = registry();
    let a = running(&mut registry);
    let b = running(&mut registry);
    registry.attach(a, 1).unwrap();
    registry.attach(a, 2).unwrap();
    registry.attach(b, 1).unwrap();
    assert!(!registry.get(a).unwrap().is_attached(1));
    assert!(registry.get(a).unwrap().is_attached(2));
    assert!(registry.get(b).unwrap().is_attached(1));
    registry.output(a, b"for-a", 1_001).unwrap();
    registry.output(b, b"for-b", 1_001).unwrap();
    assert_eq!(registry.poll(b, 1, 100), Ok(b"for-b".to_vec()));
    assert_eq!(registry.poll(a, 1, 100), Ok(Vec::new()));
    assert_eq!(registry.poll(a, 2, 100), Ok(b"for-a".to_vec()));
}

#[test]
fn a_refused_attach_leaves_the_client_where_it_was() {
    let mut registry = registry();
    let a = running(&mut registry);
    let b = running(&mut registry);
    registry.attach(a, 1).unwrap();
    registry.output_closed(b, 1_001).unwrap();
    assert_eq!(registry.attach(b, 1), Err(ServiceError::SessionNotRunning));
    assert_eq!(registry.attach(99, 1), Err(ServiceError::NotFound));
    assert!(registry.get(a).unwrap().is_attached(1));
}

#[test]
fn input_is_queued_whole_and_in_arrival_order() {
    let mut registry = registry();
    let id = registry.create(params(), "alice".to_string(), 1_000).unwrap();
    assert_eq!(registry.write(id, b"early", 1_000), Err(ServiceError::SessionNotRunning));
    registry.launch_succeeded(id, 1_000).unwrap();
    registry.write(id, b"echo ", 1_001).unwrap();
    registry.write(id, b"hi", 1_001).unwrap();
    registry.write(id, b"\n", 1_002).unwrap();
    assert_eq!(registry.take_input(id), Ok(b"echo hi\n".to_vec()));
    assert_eq!(registry.take_input(id), Ok(Vec::new()));
    registry.write(id, b"x", 1_003).unwrap();
    assert_eq!(registry.take_input(id), Ok(b"x".to_vec()));
    registry.terminate(id, terminal_service::signal::Signal::Graceful, 1_004).unwrap();
    assert_eq!(registry.write(id, b"late", 1_005), Err(ServiceError::SessionNotRunning));
}
