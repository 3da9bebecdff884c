use progenitor::component::new_component_id;

#[test]
fn component_ids_are_random_v4_uuids() {
    let a = new_component_id();
    let b = new_component_id();
    assert_eq!(a.len(), 36);
    assert_eq!(a.as_bytes()[14], b'4');
    assert_eq!(a.as_bytes()[8], b'-');
    assert!(a.chars().all(|c| c == '-' || c.is_ascii_hexdigit() && !c.is_ascii_uppercase()));
    assert_ne!(a, b);
}
