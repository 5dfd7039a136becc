use janus_actor::VERSION;

#[test]
fn test_version() {
    assert!(!VERSION.is_empty());
}
