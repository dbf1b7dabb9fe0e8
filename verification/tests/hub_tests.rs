use feeder_service::hub::{
    handle_incoming, DistributionHub, InboundFrame, SessionAction,
};

#[test]
fn publish_with_no_subscribers_is_a_no_op() {
    let mut hub = DistributionHub::new(4);
    hub.publish("nobody hears this");
    assert_eq!(hub.subscriber_count(), 0);
    // A subscriber registered afterwards is not offered earlier messages.
    let id = hub.subscribe();
    assert!(hub.pop_next(id).is_none());
}

#[test]
fn fast_subscriber_receives_every_message_in_order() {
    let mut hub = DistributionHub::new(2);
    let fast = hub.subscribe();
    let slow = hub.subscribe();

    let mut fast_received: Vec<String> = Vec::new();
    for msg in ["m1", "m2", "m3", "m4"] {
        hub.publish(msg);
        // The fast subscriber drains its queue after every publish.
        while let Some(line) = hub.pop_next(fast) {
            fast_received.push(line);
        }
    }
    assert_eq!(fast_received, vec!["m1", "m2", "m3", "m4"]);

    // The slow subscriber never drained: with capacity 2 it kept the two
    // newest messages — a subset, still in publish order.
    assert_eq!(hub.pop_next(slow), Some("m3".to_string()));
    assert_eq!(hub.pop_next(slow), Some("m4".to_string()));
    assert_eq!(hub.pop_next(slow), None);
}

#[test]
fn slow_subscriber_failure_is_local() {
    // Dropping one subscriber's session leaves the other's delivery intact.
    let mut hub = DistributionHub::new(8);
    let a = hub.subscribe();
    let b = hub.subscribe();
    hub.publish("x");
    assert!(hub.unsubscribe(b));
    assert!(!hub.unsubscribe(b));
    hub.publish("y");
    assert_eq!(hub.pop_next(a), Some("x".to_string()));
    assert_eq!(hub.pop_next(a), Some("y".to_string()));
    assert_eq!(hub.pop_next(b), None);
}

#[test]
fn unsubscribe_removes_only_the_named_session() {
    let mut hub = DistributionHub::new(4);
    let a = hub.subscribe();
    let b = hub.subscribe();
    let c = hub.subscribe();
    assert_eq!(hub.subscriber_count(), 3);
    assert!(hub.unsubscribe(b));
    assert_eq!(hub.subscriber_count(), 2);
    hub.publish("hello");
    assert_eq!(hub.pop_next(a), Some("hello".to_string()));
    assert_eq!(hub.pop_next(c), Some("hello".to_string()));
}

#[test]
fn ping_frames_are_answered_with_pongs() {
    let (action, go_on) = handle_incoming(InboundFrame::Ping(vec![1, 2, 3]));
    assert!(matches!(action, SessionAction::SendPong(p) if p == vec![1, 2, 3]));
    assert!(go_on);
}

#[test]
fn close_frames_end_the_session() {
    let (action, go_on) = handle_incoming(InboundFrame::Close);
    assert!(matches!(action, SessionAction::SendClose));
    assert!(!go_on);
}

#[test]
fn other_frames_are_ignored() {
    let (action, go_on) = handle_incoming(InboundFrame::Text("chatter".to_string()));
    assert!(matches!(action, SessionAction::Ignore));
    assert!(go_on);
    let (action, go_on) = handle_incoming(InboundFrame::Other);
    assert!(matches!(action, SessionAction::Ignore));
    assert!(go_on);
}
