use relay::bus::{Bus, Recv};

#[test]
fn empty_bus_has_nothing_pending() {
    let bus = Bus::new(4);
    let mut c = bus.subscribe();
    assert!(matches!(bus.recv(&mut c), Recv::Empty));
}

#[test]
fn messages_arrive_in_publication_order() {
    let mut bus = Bus::new(8);
    let mut c = bus.subscribe();
    bus.publish(String::from("a"));
    bus.publish(String::from("b"));
    let msgs = bus.drain(&mut c);
    assert_eq!(msgs, vec![String::from("a"), String::from("b")]);
    assert!(matches!(bus.recv(&mut c), Recv::Empty));
}

#[test]
fn subscription_never_sees_earlier_messages() {
    let mut bus = Bus::new(8);
    bus.publish(String::from("before"));
    let mut c = bus.subscribe();
    bus.publish(String::from("after"));
    let msgs = bus.drain(&mut c);
    assert_eq!(msgs, vec![String::from("after")]);
}

#[test]
fn lagging_subscriber_resumes_at_oldest_retained() {
    let mut bus = Bus::new(2);
    let mut slow = bus.subscribe();
    bus.publish(String::from("m1"));
    bus.publish(String::from("m2"));
    bus.publish(String::from("m3"));
    match bus.recv(&mut slow) {
        Recv::Lagged(n) => assert_eq!(n, 1),
        _ => panic!("expected a lag report"),
    }
    let msgs = bus.drain(&mut slow);
    assert_eq!(msgs, vec![String::from("m2"), String::from("m3")]);
}

#[test]
fn lag_does_not_disturb_other_subscribers() {
    let mut bus = Bus::new(2);
    let mut slow = bus.subscribe();
    bus.publish(String::from("m1"));
    let mut fast = bus.subscribe();
    bus.publish(String::from("m2"));
    bus.publish(String::from("m3"));
    assert!(matches!(bus.recv(&mut slow), Recv::Lagged(1)));
    assert_eq!(
        bus.drain(&mut fast),
        vec![String::from("m2"), String::from("m3")]
    );
    assert_eq!(
        bus.drain(&mut slow),
        vec![String::from("m2"), String::from("m3")]
    );
}

#[test]
fn published_counts_all_messages_ever() {
    let mut bus = Bus::new(2);
    assert_eq!(bus.published(), 0);
    for word in ["v", "w", "x", "y", "z"] {
        bus.publish(String::from(word));
    }
    assert_eq!(bus.published(), 5);
}
