use relay::registry::Registry;

#[test]
fn register_then_unregister() {
    let mut r = Registry::new();
    assert!(!r.is_registered(7));
    r.register(7);
    assert!(r.is_registered(7));
    assert_eq!(r.count(), 1);
    r.unregister(7);
    assert!(!r.is_registered(7));
    assert_eq!(r.count(), 0);
}

#[test]
fn register_is_idempotent() {
    let mut r = Registry::new();
    r.register(3);
    r.register(3);
    assert_eq!(r.count(), 1);
    r.unregister(3);
    assert!(!r.is_registered(3));
    assert_eq!(r.count(), 0);
}

#[test]
fn unregister_absent_is_a_no_op() {
    let mut r = Registry::new();
    r.register(1);
    r.unregister(2);
    assert!(r.is_registered(1));
    assert_eq!(r.count(), 1);
}
