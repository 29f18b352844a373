use ovos_bus::registry::{dispatch, Registry};
use tokio::sync::mpsc::unbounded_channel;

#[test]
fn three_clients_ping_then_pong_after_one_leaves() {
    let mut reg = Registry::new();
    let (tx1, mut rx1) = unbounded_channel::<String>();
    let (tx2, mut rx2) = unbounded_channel::<String>();
    let (tx3, mut rx3) = unbounded_channel::<String>();
    let id1 = reg.register(tx1);
    let id2 = reg.register(tx2);
    let id3 = reg.register(tx3);
    assert_eq!(reg.len(), 3);

    let outcomes = dispatch(&mut reg, &"ping".to_string());
    assert_eq!(outcomes, vec![true, true, true]);
    assert_eq!(rx1.try_recv().unwrap(), "ping");
    assert_eq!(rx2.try_recv().unwrap(), "ping");
    assert_eq!(rx3.try_recv().unwrap(), "ping");

    reg.deregister(id2);
    drop(rx2);
    assert_eq!(reg.len(), 2);

    dispatch(&mut reg, &"pong".to_string());
    assert_eq!(rx1.try_recv().unwrap(), "pong");
    assert_eq!(rx3.try_recv().unwrap(), "pong");
    assert!(rx1.try_recv().is_err());
    assert!(rx3.try_recv().is_err());
    assert_eq!(reg.len(), 2);
    assert!(reg.contains(id1));
    assert!(!reg.contains(id2));
    assert!(reg.contains(id3));
}

#[test]
fn broadcast_prunes_a_closed_channel() {
    let mut reg = Registry::new();
    let (tx1, mut rx1) = unbounded_channel::<String>();
    let (tx2, rx2) = unbounded_channel::<String>();
    let id1 = reg.register(tx1);
    let id2 = reg.register(tx2);
    drop(rx2);
    let outcomes = reg.broadcast(&"hello".to_string());
    assert_eq!(outcomes, vec![true, false]);
    assert_eq!(reg.len(), 1);
    assert!(reg.contains(id1));
    assert!(!reg.contains(id2));
    assert_eq!(rx1.try_recv().unwrap(), "hello");
}

#[test]
fn broadcast_on_empty_registry_reaches_nobody() {
    let mut reg = Registry::new();
    let outcomes = reg.broadcast(&"x".to_string());
    assert!(outcomes.is_empty());
    assert_eq!(reg.len(), 0);
}

#[test]
fn later_registration_gets_nothing_from_earlier_broadcast() {
    let mut reg = Registry::new();
    let (tx1, mut rx1) = unbounded_channel::<String>();
    reg.register(tx1);
    reg.broadcast(&"early".to_string());
    let (tx2, mut rx2) = unbounded_channel::<String>();
    reg.register(tx2);
    assert_eq!(rx1.try_recv().unwrap(), "early");
    assert!(rx2.try_recv().is_err());
}

#[test]
fn deregister_twice_same_as_once() {
    let mut reg = Registry::new();
    let (tx1, _rx1) = unbounded_channel::<String>();
    let (tx2, _rx2) = unbounded_channel::<String>();
    let a = reg.register(tx1);
    let b = reg.register(tx2);
    reg.deregister(a);
    assert_eq!(reg.len(), 1);
    reg.deregister(a);
    assert_eq!(reg.len(), 1);
    assert!(reg.contains(b));
    reg.deregister(99);
    assert_eq!(reg.len(), 1);
}

#[test]
fn ids_are_fresh_and_ascending() {
    let mut reg = Registry::new();
    let (tx1, _rx1) = unbounded_channel::<String>();
    let (tx2, _rx2) = unbounded_channel::<String>();
    assert!(reg.can_register());
    let a = reg.register(tx1);
    let b = reg.register(tx2);
    assert_eq!(a, 0);
    assert_eq!(b, 1);
}

#[test]
fn messages_arrive_in_enqueue_order() {
    let mut reg = Registry::new();
    let (tx, mut rx) = unbounded_channel::<String>();
    reg.register(tx);
    for m in ["one", "two", "three"] {
        reg.broadcast(&m.to_string());
    }
    assert_eq!(rx.try_recv().unwrap(), "one");
    assert_eq!(rx.try_recv().unwrap(), "two");
    assert_eq!(rx.try_recv().unwrap(), "three");
}

#[test]
fn failure_on_one_connection_leaves_others_working() {
    let mut reg = Registry::new();
    let (tx_a, rx_a) = unbounded_channel::<String>();
    let (tx_b, mut rx_b) = unbounded_channel::<String>();
    let a = reg.register(tx_a);
    let b = reg.register(tx_b);
    drop(rx_a);
    reg.deregister(a);
    reg.broadcast(&"still here".to_string());
    assert!(reg.contains(b));
    assert_eq!(rx_b.try_recv().unwrap(), "still here");
}
