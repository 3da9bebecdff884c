use std::sync::Arc;

use progenitor::effects::context::Context;
use progenitor::effects::errors::EffectError;
use progenitor::schema::primitives::Value;
use progenitor::state::errors::StateError;

#[test]
fn context_writes_reach_the_parent_through_rectify() {
    let mut root: Context<()> = Context::new(Arc::new(()));
    root.set::<i32>("a", 1).unwrap();
    let mut child = root.derive("effect", Some(Value::Uint32(3)));
    assert_eq!(*child.get::<i32>("a").unwrap(), 1);
    child.set::<i32>("b", 2).unwrap();
    assert_eq!(root.get::<i32>("b").err(), Some(StateError::Empty("b".into())));
    assert_eq!(child.stack(), &vec!["effect".to_string()]);
    assert_eq!(child.archetype(), Ok(&Value::Uint32(3)));
    root.rectify(child);
    assert_eq!(*root.get::<i32>("b").unwrap(), 2);
}

#[test]
fn context_clean_child_leaves_the_parent() {
    let mut root: Context<()> = Context::new(Arc::new(()));
    root.set::<i32>("a", 1).unwrap();
    let child = root.derive("read_only", None);
    assert_eq!(child.archetype(), Err(EffectError::Internal("missing archetype".into())));
    root.rectify(child);
    assert_eq!(*root.get::<i32>("a").unwrap(), 1);
    assert!(root.stack().is_empty());
}

use progenitor::registry::Registry;
use progenitor::serial::errors::SerialError;
use progenitor::store::errors::StoreError;

#[test]
fn registry_lookups() {
    let registry: Registry<u32, &str, char, ()> = Registry::new(
        vec![("b", 2), ("a", 1), ("b", 3)],
        vec![("mem", "memory driver")],
        vec![("json", 'j')],
        (),
    );
    assert_eq!(registry.get_effect("a"), Ok(&1));
    assert_eq!(registry.get_effect("b"), Ok(&3));
    assert_eq!(registry.get_effect("c"), Err(EffectError::Missing("c".into())));
    assert_eq!(registry.store_driver("mem"), Ok(&"memory driver"));
    assert_eq!(registry.store_driver("disk"), Err(StoreError::Backend("invalid driver".into())));
    assert_eq!(registry.get_serial_format("json"), Ok(&'j'));
    assert_eq!(registry.get_serial_format("xml"), Err(SerialError::Format("invalid format".into())));
}
