use janus_actor::{make_method_name, ActorId, ActorPath, ChromeAdapter};

#[test]
fn path_derivation_joins_segments() {
    let p = ActorPath::root("sys").child("a").child("b");
    assert_eq!(p.as_str(), "/sys/a/b");
    assert_eq!(p.depth(), 3);
}

#[test]
fn equal_segments_compare_equal() {
    let a = ActorPath::root("sys").child("a").child("b");
    let b = ActorPath::root("sys").child("a").child("b");
    let c = ActorPath::root("sys").child("a");
    let d = ActorPath::root("sys").child("b").child("a");
    assert!(a == b);
    assert!(a != c);
    assert!(a != d);
    assert!(a.same_segments(&b));
}

#[test]
fn path_copy_keeps_text() {
    let a = ActorPath::root("janus").child("parent");
    let b = a.copy();
    assert!(a == b);
    assert_eq!(b.as_str(), "/janus/parent");
}

#[test]
fn actor_id_decimal_text() {
    assert_eq!(ActorId(0).to_string(), "0");
    assert_eq!(ActorId(42).to_string(), "42");
    assert_eq!(ActorId(18446744073709551615).to_string(), "18446744073709551615");
    assert_eq!(ActorId(7).value(), 7);
}

#[test]
fn method_name_joins_with_dot() {
    assert_eq!(make_method_name("CSS", "getComputedStyleForNode"), "CSS.getComputedStyleForNode");
    assert_eq!(make_method_name("", ""), ".");
}

#[test]
fn command_ids_count_from_zero() {
    let mut adapter = ChromeAdapter::new();
    assert_eq!(adapter.next_command_id(), 0);
    assert_eq!(adapter.next_command_id(), 1);
    assert_eq!(adapter.next_command_id(), 2);
}
