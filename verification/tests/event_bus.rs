use node_core::event_bus::{EventBus, SubscriptionId, SubscriptionOptions};
use node_core::value::Value;

const PLAIN: SubscriptionOptions = SubscriptionOptions { once: false };
const ONCE: SubscriptionOptions = SubscriptionOptions { once: true };

fn handlers(bus: &mut EventBus, topic: &str) -> Vec<String> {
    bus.publish(topic, &Value::Null).into_iter().map(|d| d.handler).collect()
}

#[test]
fn ids_count_up_from_zero() {
    let mut bus = EventBus::new();
    assert_eq!(bus.subscribe("t", None, "a", PLAIN), Some(SubscriptionId(0)));
    assert_eq!(bus.subscribe("u", Some("svc"), "b", PLAIN), Some(SubscriptionId(1)));
    assert_eq!(bus.subscribe("t", None, "a", PLAIN), Some(SubscriptionId(2)));
    assert_eq!(bus.len(), 3);
    assert!(bus.has_room());
}

#[test]
fn ids_are_not_given_out_twice() {
    let mut bus = EventBus::new();
    let first = bus.subscribe("t", None, "a", PLAIN).unwrap();
    assert!(bus.unsubscribe("t", first));
    let second = bus.subscribe("t", None, "a", PLAIN).unwrap();
    assert_ne!(first, second);
    bus.clear();
    let third = bus.subscribe("t", None, "a", PLAIN).unwrap();
    assert_eq!(third, SubscriptionId(2));
}

#[test]
fn subscription_keeps_what_it_was_made_with() {
    let mut bus = EventBus::new();
    bus.subscribe("created", Some("events"), "on_created", ONCE).unwrap();
    let s = bus.get(0).expect("a subscription");
    assert_eq!(s.id(), SubscriptionId(0));
    assert_eq!(s.topic(), "created");
    assert_eq!(s.owner(), Some("events"));
    assert_eq!(s.handler(), "on_created");
    assert!(s.once());
    assert!(s.is_owned_by("events"));
    assert!(!s.is_owned_by("event"));
    assert!(bus.get(1).is_none());
}

#[test]
fn publish_serves_the_subscribers_of_the_topic_in_order() {
    let mut bus = EventBus::new();
    bus.subscribe("t", None, "h1", PLAIN);
    bus.subscribe("other", None, "x", PLAIN);
    bus.subscribe("t", Some("a"), "h2", PLAIN);
    bus.subscribe("t", None, "h3", PLAIN);
    assert_eq!(handlers(&mut bus, "t"), vec!["h1", "h2", "h3"]);
    assert_eq!(handlers(&mut bus, "other"), vec!["x"]);
    assert!(handlers(&mut bus, "none").is_empty());
}

#[test]
fn same_handler_subscribed_twice_is_served_twice() {
    let mut bus = EventBus::new();
    bus.subscribe("t", None, "h", PLAIN);
    bus.subscribe("t", None, "h", PLAIN);
    let deliveries = bus.publish("t", &Value::Number(1));
    assert_eq!(deliveries.len(), 2);
    assert_eq!(deliveries[0].subscription, SubscriptionId(0));
    assert_eq!(deliveries[1].subscription, SubscriptionId(1));
}

#[test]
fn delivery_carries_topic_and_payload() {
    let mut bus = EventBus::new();
    bus.subscribe("created", Some("events"), "h", PLAIN);
    let d = bus.publish("events/created", &Value::text("p")).remove(0);
    assert_eq!(d.topic, "events/created");
    assert_eq!(d.payload, Value::text("p"));
    assert_eq!(d.owner.as_deref(), Some("events"));
    assert_eq!(d.handler, "h");
}

#[test]
fn short_form_is_reached_by_the_qualified_topic_of_its_owner() {
    let mut bus = EventBus::new();
    bus.subscribe("text_events", Some("events"), "short", PLAIN);
    bus.subscribe("text_events", Some("other"), "elsewhere", PLAIN);
    bus.subscribe("text_events", None, "outside", PLAIN);
    bus.subscribe("events/text_events", Some("other"), "full", PLAIN);
    assert_eq!(handlers(&mut bus, "events/text_events"), vec!["short", "full"]);
    assert_eq!(handlers(&mut bus, "text_events"), vec!["short", "elsewhere", "outside"]);
    assert_eq!(handlers(&mut bus, "other/text_events"), vec!["elsewhere"]);
    assert!(handlers(&mut bus, "events/text_event").is_empty());
    assert!(handlers(&mut bus, "eventstext_events").is_empty());
}

#[test]
fn owner_with_a_slash_in_its_path_qualifies_its_topics() {
    let mut bus = EventBus::new();
    bus.subscribe("done", Some("services/data"), "h", PLAIN);
    assert_eq!(handlers(&mut bus, "services/data/done"), vec!["h"]);
    assert!(handlers(&mut bus, "data/done").is_empty());
}

#[test]
fn subscription_matches_its_topic_and_its_qualified_form() {
    let mut bus = EventBus::new();
    bus.subscribe("created", Some("events"), "h", PLAIN);
    let s = bus.get(0).unwrap();
    assert!(s.matches("created"));
    assert!(s.matches("events/created"));
    assert!(!s.matches("events/"));
    assert!(!s.matches("other/created"));
}

#[test]
fn unsubscribe_takes_exactly_one_subscription_away() {
    let mut bus = EventBus::new();
    let a = bus.subscribe("t", None, "a", PLAIN).unwrap();
    let b = bus.subscribe("t", None, "b", PLAIN).unwrap();
    let c = bus.subscribe("t", None, "c", PLAIN).unwrap();
    assert!(bus.unsubscribe("t", b));
    assert_eq!(handlers(&mut bus, "t"), vec!["a", "c"]);
    assert!(!bus.unsubscribe("t", b));
    assert_eq!(handlers(&mut bus, "t"), vec!["a", "c"]);
    assert!(bus.unsubscribe("t", a));
    assert!(bus.unsubscribe("t", c));
    assert_eq!(bus.len(), 0);
}

#[test]
fn unsubscribe_needs_the_topic_of_the_subscription() {
    let mut bus = EventBus::new();
    let id = bus.subscribe("created", Some("events"), "h", PLAIN).unwrap();
    assert!(!bus.unsubscribe("events/created", id));
    assert!(!bus.unsubscribe("other", id));
    assert_eq!(bus.len(), 1);
    assert!(bus.unsubscribe("created", id));
}

#[test]
fn unsubscribe_of_an_unknown_id_changes_nothing() {
    let mut bus = EventBus::new();
    bus.subscribe("t", None, "a", PLAIN);
    assert!(!bus.unsubscribe("t", SubscriptionId(99)));
    assert_eq!(bus.len(), 1);
    let mut empty = EventBus::new();
    assert!(!empty.unsubscribe("t", SubscriptionId(0)));
}

#[test]
fn subscription_that_ends_with_its_first_event_is_cancelled_by_it() {
    let mut bus = EventBus::new();
    bus.subscribe("t", None, "once", ONCE);
    bus.subscribe("t", None, "always", PLAIN);
    bus.subscribe("u", None, "untouched", ONCE);
    assert_eq!(handlers(&mut bus, "t"), vec!["once", "always"]);
    assert_eq!(bus.len(), 2);
    assert_eq!(handlers(&mut bus, "t"), vec!["always"]);
    assert_eq!(handlers(&mut bus, "u"), vec!["untouched"]);
    assert_eq!(bus.len(), 1);
}

#[test]
fn cancel_owner_takes_the_subscriptions_of_one_service_away() {
    let mut bus = EventBus::new();
    bus.subscribe("t", Some("a"), "a1", PLAIN);
    bus.subscribe("t", Some("b"), "b1", PLAIN);
    bus.subscribe("u", Some("a"), "a2", PLAIN);
    bus.subscribe("t", None, "outside", PLAIN);
    bus.cancel_owner("a");
    assert_eq!(bus.len(), 2);
    assert_eq!(handlers(&mut bus, "t"), vec!["b1", "outside"]);
    bus.cancel_owner("a");
    assert_eq!(bus.len(), 2);
    bus.cancel_owner("missing");
    assert_eq!(bus.len(), 2);
}

#[test]
fn clear_cancels_everything() {
    let mut bus = EventBus::new();
    bus.subscribe("t", Some("a"), "a1", PLAIN);
    bus.subscribe("t", None, "x", PLAIN);
    bus.clear();
    assert_eq!(bus.len(), 0);
    assert!(handlers(&mut bus, "t").is_empty());
}
