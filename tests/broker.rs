use orbital::broker::Broker;

fn s(t: &str) -> String {
    t.to_string()
}

#[test]
fn publish_reaches_exactly_the_subscribers() {
    let mut b: Broker<u32> = Broker::new();
    b.register_channel(1, s("camera"), 10);
    b.register_channel(2, s("view"), 20);
    b.register_channel(3, s("tensor"), 30);
    b.subscribe(1, s("/frames"));
    b.subscribe(3, s("/frames"));
    b.subscribe(2, s("/view"));
    assert_eq!(b.publish(&s("/frames")), vec![1, 3]);
    assert_eq!(b.publish(&s("/view")), vec![2]);
    assert_eq!(b.publish(&s("/nobody")), Vec::<u64>::new());
}

#[test]
fn publish_to_empty_registry_is_dropped() {
    let b: Broker<u32> = Broker::new();
    assert!(b.publish(&s("/x")).is_empty());
    assert_eq!(b.publish_exclusive(), None);
}

#[test]
fn reregistration_keeps_subscriptions() {
    let mut b: Broker<u32> = Broker::new();
    b.register_channel(7, s("svc"), 1);
    b.subscribe(7, s("/x"));
    b.register_channel(7, s("svc2"), 2);
    assert_eq!(b.publish(&s("/x")), vec![7]);
    assert_eq!(b.channel_of(7), Some(&2));
    assert_eq!(b.services.len(), 1);
    assert_eq!(b.services[0].name, "svc2");
}

#[test]
fn subscribe_before_register_creates_placeholder() {
    let mut b: Broker<u32> = Broker::new();
    assert!(b.subscribe(5, s("/x")));
    assert!(!b.subscribe(5, s("/y")));
    assert_eq!(b.services.len(), 1);
    assert_eq!(b.services[0].name, "no name yet");
    assert_eq!(b.channel_of(5), None);
    assert_eq!(b.publish(&s("/x")), vec![5]);
    b.register_channel(5, s("late"), 9);
    assert_eq!(b.channel_of(5), Some(&9));
    assert_eq!(b.publish(&s("/x")), vec![5]);
    assert_eq!(b.services.len(), 1);
}

#[test]
fn subscribing_twice_delivers_once() {
    let mut b: Broker<u32> = Broker::new();
    b.register_channel(1, s("a"), 1);
    b.subscribe(1, s("/x"));
    b.subscribe(1, s("/x"));
    assert_eq!(b.publish(&s("/x")), vec![1]);
}

#[test]
fn unsubscribe_stops_delivery() {
    let mut b: Broker<u32> = Broker::new();
    b.register_channel(1, s("a"), 1);
    b.register_channel(2, s("b"), 2);
    b.subscribe(1, s("/x"));
    b.subscribe(2, s("/x"));
    b.subscribe(1, s("/y"));
    b.unsubscribe(1, &s("/x"));
    assert_eq!(b.publish(&s("/x")), vec![2]);
    assert_eq!(b.publish(&s("/y")), vec![1]);
}

#[test]
fn unsubscribe_of_unknown_service_is_ignored() {
    let mut b: Broker<u32> = Broker::new();
    b.register_channel(1, s("a"), 1);
    b.unsubscribe(42, &s("/x"));
    assert_eq!(b.services.len(), 1);
}

#[test]
fn exclusive_broadcast_goes_to_first_display_subscriber() {
    let mut b: Broker<u32> = Broker::new();
    b.register_channel(1, s("a"), 1);
    b.register_channel(2, s("b"), 2);
    b.register_channel(3, s("c"), 3);
    assert_eq!(b.publish_exclusive(), None);
    b.subscribe(3, s("/display"));
    b.subscribe(2, s("/display"));
    assert_eq!(b.publish_exclusive(), Some(2));
    b.unsubscribe(2, &s("/display"));
    assert_eq!(b.publish_exclusive(), Some(3));
}

#[test]
fn channel_of_unknown_service_is_none() {
    let b: Broker<u32> = Broker::new();
    assert_eq!(b.channel_of(3), None);
}
