use progenitor::logic::state::{State, StateError};

#[derive(Debug, Clone)]
struct Bar(String);

#[test]
fn get_and_set() {
    let mut state = State::new();

    assert_eq!(state.get::<Bar>("bar").err(), Some(StateError::Empty("bar".into())));

    assert_eq!(state.get::<i32>("other").err(), Some(StateError::Empty("other".into())));

    assert!(state.set::<Bar>("bar", Bar("bar!".into())).is_ok());

    assert_eq!(state.get::<Bar>("bar").expect("failed to read valid state").0, "bar!".to_string());

    assert_eq!(state.get::<i32>("bar").err(), Some(StateError::InvalidType("bar".into())));
}

#[test]
fn logic_set_keeps_the_type_of_a_key() {
    let mut state = State::new();
    assert!(state.set::<i32>("n", 1).is_ok());
    assert!(state.set::<i32>("n", 2).is_ok());
    assert_eq!(*state.get::<i32>("n").unwrap(), 2);
    assert_eq!(state.set::<u32>("n", 3), Err(StateError::InvalidType("n".into())));
    assert_eq!(*state.get::<i32>("n").unwrap(), 2);
}

#[test]
fn logic_take_removes_the_key() {
    let mut state = State::new();
    assert_eq!(state.take::<i32>("n"), Err(StateError::Empty("n".into())));
    state.set::<Bar>("b", Bar("x".into())).unwrap();
    assert_eq!(state.take::<Bar>("b").unwrap().0, "x".to_string());
    assert_eq!(state.get::<Bar>("b").err(), Some(StateError::Empty("b".into())));
}

#[test]
fn logic_take_of_another_type_still_removes() {
    let mut state = State::new();
    state.set::<i32>("n", 7).unwrap();
    assert_eq!(state.take::<u32>("n"), Err(StateError::InvalidType("n".into())));
    assert_eq!(state.get::<i32>("n").err(), Some(StateError::Empty("n".into())));
}

#[test]
fn logic_keys_are_independent() {
    let mut state = State::new();
    state.set::<i32>("a", 1).unwrap();
    state.set::<Bar>("b", Bar("two".into())).unwrap();
    state.set::<i32>("c", 3).unwrap();
    assert_eq!(*state.get::<i32>("a").unwrap(), 1);
    assert_eq!(state.get::<Bar>("b").unwrap().0, "two".to_string());
    assert_eq!(*state.get::<i32>("c").unwrap(), 3);
}
