use node_core::event_bus::{EventBus, SubscriptionOptions};
use node_core::lifecycle::{InvalidTransition, LifecycleEvent, ServiceState};
use node_core::registry::Registry;
use node_core::service::ServiceMetadata;

fn meta(name: &str, path: &str) -> ServiceMetadata {
    ServiceMetadata::new(name, path).expect("a path")
}

#[test]
fn metadata_needs_a_path() {
    assert!(ServiceMetadata::new("n", "").is_none());
    assert!(ServiceMetadata::new("n", "///").is_none());
    assert!(ServiceMetadata::new("", "p").is_some());
}

#[test]
fn metadata_keeps_its_path_in_normal_form() {
    let m = meta("data", "/services/data/");
    assert_eq!(m.path(), "services/data");
    assert_eq!(m.name(), "data");
    assert_eq!(m.description(), "");
    assert_eq!(m.version(), "0.1.0");
    assert!(m.operations().is_empty());
    assert!(m.subscriptions().is_empty());
}

#[test]
fn metadata_is_built_step_by_step() {
    let m = meta("data", "data")
        .with_description("d")
        .with_version("1.0.0")
        .with_operation("transform", vec!["data".to_string()])
        .with_operation("combine", vec!["first".to_string(), "second".to_string()])
        .with_subscription(
            Some("events/math_events"),
            "on_math",
            SubscriptionOptions { once: false },
        )
        .with_subscription(None, "custom", SubscriptionOptions { once: true });
    assert_eq!(m.description(), "d");
    assert_eq!(m.version(), "1.0.0");
    assert_eq!(m.operations().len(), 2);
    assert_eq!(m.operations()[1].name, "combine");
    assert_eq!(m.operations()[1].params, vec!["first", "second"]);
    assert_eq!(m.operation("transform").unwrap().params, vec!["data"]);
    assert!(m.operation("missing").is_none());
    assert_eq!(m.subscriptions()[0].effective_topic(), "events/math_events");
    assert_eq!(m.subscriptions()[1].effective_topic(), "custom");
    assert!(m.subscriptions()[1].options.once);
}

#[test]
fn operation_of_a_name_is_declared_once() {
    let m = meta("data", "data")
        .with_operation("a", vec![])
        .with_operation("b", vec![])
        .with_operation("a", vec!["x".to_string()]);
    assert_eq!(m.operations().len(), 2);
    assert_eq!(m.operations()[0].name, "a");
    assert_eq!(m.operations()[0].params, vec!["x"]);
    assert_eq!(m.operations()[1].name, "b");
}

#[test]
fn second_service_under_a_path_is_refused() {
    let mut registry: Registry<u32> = Registry::new();
    assert!(registry.add(meta("first", "data"), 1).is_ok());
    let e = registry.add(meta("second", "/data/"), 2).unwrap_err();
    assert_eq!(e.path, "data");
    assert_eq!(registry.len(), 1);
    let entry = registry.get("data").unwrap();
    assert_eq!(entry.meta().name(), "first");
    assert_eq!(*entry.service(), 1);
    assert_eq!(entry.state(), ServiceState::Created);
}

#[test]
fn lookup_ignores_slashes_at_the_ends() {
    let mut registry: Registry<u32> = Registry::new();
    registry.add(meta("a", "services/a"), 1).unwrap();
    assert_eq!(registry.find("/services/a/"), Some(0));
    assert_eq!(registry.find_exact("services/a"), Some(0));
    assert_eq!(registry.find_exact("/services/a/"), None);
    assert!(registry.get("services").is_none());
    assert!(registry.entry(0).is_some());
    assert!(registry.entry(1).is_none());
}

#[test]
fn listing_is_in_the_order_of_registration() {
    let mut registry: Registry<u32> = Registry::new();
    registry.add(meta("B", "b"), 1).unwrap();
    registry.add(meta("A", "a"), 2).unwrap();
    registry.add(meta("C", "c"), 3).unwrap();
    let listing = registry.list();
    let rows: Vec<(&str, &str, ServiceState)> =
        listing.iter().map(|s| (s.path.as_str(), s.name.as_str(), s.state)).collect();
    assert_eq!(
        rows,
        vec![
            ("b", "B", ServiceState::Created),
            ("a", "A", ServiceState::Created),
            ("c", "C", ServiceState::Created)
        ]
    );
}

#[test]
fn listing_is_a_copy() {
    let mut registry: Registry<u32> = Registry::new();
    registry.add(meta("a", "a"), 1).unwrap();
    let before = registry.list();
    registry.add(meta("b", "b"), 2).unwrap();
    registry.advance(0, LifecycleEvent::Init).unwrap();
    assert_eq!(before.len(), 1);
    assert_eq!(before[0].state, ServiceState::Created);
    assert_eq!(registry.list()[0].state, ServiceState::Initialized);
}

#[test]
fn remove_hands_the_service_out_and_cancels_its_subscriptions() {
    let mut registry: Registry<u32> = Registry::new();
    let mut bus = EventBus::new();
    registry.add(meta("a", "a"), 1).unwrap();
    registry.add(meta("b", "b"), 2).unwrap();
    bus.subscribe("t", Some("a"), "h", SubscriptionOptions { once: false });
    bus.subscribe("t", Some("b"), "h", SubscriptionOptions { once: false });
    assert_eq!(registry.remove("/a/", &mut bus), Some(1));
    assert_eq!(registry.len(), 1);
    assert_eq!(registry.find("b"), Some(0));
    assert_eq!(bus.len(), 1);
    assert_eq!(bus.get(0).unwrap().owner(), Some("b"));
    assert_eq!(registry.remove("a", &mut bus), None);
    assert_eq!(bus.len(), 1);
    // The path is free again.
    assert!(registry.add(meta("again", "a"), 3).is_ok());
}

#[test]
fn advance_follows_the_lifecycle() {
    let mut registry: Registry<u32> = Registry::new();
    registry.add(meta("a", "a"), 1).unwrap();
    assert_eq!(
        registry.advance(0, LifecycleEvent::Start),
        Err(InvalidTransition { from: ServiceState::Created, event: LifecycleEvent::Start })
    );
    assert_eq!(registry.entry(0).unwrap().state(), ServiceState::Created);
    assert_eq!(registry.advance(0, LifecycleEvent::Init), Ok(ServiceState::Initialized));
    assert_eq!(registry.advance(0, LifecycleEvent::Start), Ok(ServiceState::Running));
    assert_eq!(registry.advance(0, LifecycleEvent::Stop), Ok(ServiceState::Stopped));
    assert_eq!(registry.advance(0, LifecycleEvent::Stop), Ok(ServiceState::Stopped));
    assert_eq!(registry.entry(0).unwrap().state(), ServiceState::Stopped);
}

#[test]
fn clear_empties_the_registry() {
    let mut registry: Registry<u32> = Registry::new();
    registry.add(meta("a", "a"), 1).unwrap();
    registry.clear();
    assert_eq!(registry.len(), 0);
    assert!(registry.list().is_empty());
}
