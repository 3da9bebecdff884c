use progenitor::state::cells::State;
use progenitor::state::errors::StateError;
use progenitor::state::lock::{lock_poll, LockPoll};

#[test]
fn state_get_missing_key_is_empty() {
    let state = State::new();
    assert_eq!(state.get::<i32>("x").err(), Some(StateError::Empty("x".into())));
}

#[test]
fn state_set_then_get() {
    let mut state = State::new();
    assert_eq!(state.set::<String>("name", "ada".to_string()), Ok(()));
    assert_eq!(state.get::<String>("name").unwrap(), "ada");
    assert_eq!(state.get::<i32>("name").err(), Some(StateError::InvalidType("name".into())));
}

#[test]
fn state_set_may_change_the_type() {
    let mut state = State::new();
    state.set::<i32>("k", 1).unwrap();
    state.set::<String>("k", "one".to_string()).unwrap();
    assert_eq!(state.get::<String>("k").unwrap(), "one");
    assert_eq!(state.get::<i32>("k").err(), Some(StateError::InvalidType("k".into())));
}

#[test]
fn state_clone_is_copy_on_write() {
    let mut state = State::new();
    state.set::<i32>("k", 1).unwrap();
    let mut copy = state.clone();
    copy.set::<i32>("k", 2).unwrap();
    assert_eq!(*state.get::<i32>("k").unwrap(), 1);
    assert_eq!(*copy.get::<i32>("k").unwrap(), 2);
}

#[test]
fn lock_poll_decides_from_the_attempt_and_the_acquisition() {
    assert_eq!(lock_poll(Err(StateError::Empty("l".into())), None), LockPoll::Failed(StateError::Empty("l".into())));
    assert_eq!(lock_poll(Ok(false), None), LockPoll::Pending);
    assert_eq!(lock_poll(Ok(true), Some(false)), LockPoll::Pending);
    assert_eq!(lock_poll(Ok(true), Some(true)), LockPoll::Ready);
}
