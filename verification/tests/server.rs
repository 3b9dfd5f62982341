use relay::bus::Recv;
use relay::server::Server;

#[test]
fn scenario_two_clients_hello_then_disconnect() {
    let mut s = Server::new(100);
    let alice = s.accept(1);
    let bob = s.accept(2);

    let closed = s.on_read(alice, b"alice: hello\n");
    assert!(!closed);
    assert_eq!(s.drain_conn(alice), vec![String::from("alice: hello\n")]);
    assert_eq!(s.drain_conn(bob), vec![String::from("alice: hello\n")]);

    let closed = s.on_read(bob, b"");
    assert!(closed);
    assert!(!s.conn_is_active(bob));

    let closed = s.on_read(alice, b"alice: still here\n");
    assert!(!closed);
    assert_eq!(s.drain_conn(alice), vec![String::from("alice: still here\n")]);

    let carol = s.accept(3);
    assert!(s.conn_is_active(carol));
    let closed = s.on_read(carol, b"carol: hi\n");
    assert!(!closed);
    assert_eq!(s.drain_conn(alice), vec![String::from("carol: hi\n")]);
    assert_eq!(s.drain_conn(carol), vec![String::from("carol: hi\n")]);
}

#[test]
fn fan_out_reaches_every_client_including_sender() {
    let mut s = Server::new(16);
    let mut conns = Vec::new();
    for a in 1u64..=4 {
        conns.push(s.accept(a));
    }
    s.on_read(conns[2], b"hello all\n");
    for &c in &conns {
        assert_eq!(s.drain_conn(c), vec![String::from("hello all\n")]);
    }
}

#[test]
fn closing_one_client_never_blocks_the_others() {
    let mut s = Server::new(16);
    let a = s.accept(10);
    let k = s.accept(20);
    let b = s.accept(30);
    s.disconnect(k);
    s.on_read(a, b"a to b\n");
    assert_eq!(s.drain_conn(b), vec![String::from("a to b\n")]);
    s.on_read(b, b"b to a\n");
    assert_eq!(
        s.drain_conn(a),
        vec![String::from("a to b\n"), String::from("b to a\n")]
    );
}

#[test]
fn registry_tracks_exactly_the_live_connections() {
    let mut s = Server::new(4);
    assert_eq!(s.live_count(), 0);
    let a = s.accept(1);
    let b = s.accept(2);
    assert_eq!(s.live_count(), 2);
    assert!(s.is_live_addr(1));
    assert!(s.is_live_addr(2));
    s.disconnect(a);
    assert_eq!(s.live_count(), 1);
    assert!(!s.is_live_addr(1));
    assert!(s.is_live_addr(2));
    s.on_read(b, b"");
    assert_eq!(s.live_count(), 0);
    assert!(!s.is_live_addr(2));
}

#[test]
fn per_sender_order_is_preserved() {
    let mut s = Server::new(8);
    let i = s.accept(1);
    let j = s.accept(2);
    s.on_read(i, b"A");
    s.on_read(i, b"B");
    assert_eq!(
        s.drain_conn(j),
        vec![String::from("A"), String::from("B")]
    );
}

#[test]
fn stalled_connection_skips_dropped_messages_and_goes_on() {
    let mut s = Server::new(2);
    let talker = s.accept(1);
    let stalled = s.accept(2);
    s.on_read(talker, b"one");
    s.on_read(talker, b"two");
    s.on_read(talker, b"three");
    match s.poll(stalled) {
        Recv::Lagged(n) => assert_eq!(n, 1),
        _ => panic!("expected a lag report"),
    }
    assert_eq!(
        s.drain_conn(stalled),
        vec![String::from("two"), String::from("three")]
    );
    match s.poll(talker) {
        Recv::Lagged(n) => assert_eq!(n, 1),
        _ => panic!("expected a lag report"),
    }
}

#[test]
fn invalid_bytes_are_replaced_not_fatal() {
    let mut s = Server::new(4);
    let a = s.accept(1);
    let closed = s.on_read(a, &[0xFF, b'h', b'i']);
    assert!(!closed);
    assert_eq!(s.drain_conn(a), vec![String::from("\u{FFFD}hi")]);
}

#[test]
fn poll_on_quiet_connection_reports_empty() {
    let mut s = Server::new(4);
    let a = s.accept(1);
    assert!(matches!(s.poll(a), Recv::Empty));
    s.on_read(a, b"x");
    match s.poll(a) {
        Recv::Message(m) => assert_eq!(m, "x"),
        _ => panic!("expected the pending message"),
    }
    assert!(matches!(s.poll(a), Recv::Empty));
}

#[test]
fn conn_count_counts_accepted_connections() {
    let mut s = Server::new(4);
    assert_eq!(s.conn_count(), 0);
    assert_eq!(s.published(), 0);
    let a = s.accept(5);
    let _b = s.accept(6);
    assert_eq!(s.conn_count(), 2);
    s.disconnect(a);
    assert_eq!(s.conn_count(), 2);
    assert_eq!(s.published(), 0);
}
