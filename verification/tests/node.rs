use node_core::demo::actions::{DataProcessorService, EventHandlerService};
use node_core::error::{DispatchError, LifecycleError};
use node_core::event_bus::SubscriptionOptions;
use node_core::lifecycle::{LifecycleEvent, ServiceState};
use node_core::node::{DeliveryOutcome, Node, RegistrationError};
use node_core::service::{
    AbstractService, Command, HandlerError, RequestContext, ResponseStatus, ServiceMetadata,
    ServiceRequest, ServiceResponse,
};
use node_core::value::Value;

/// A service for the tests: it records what it is asked and can be told to
/// fail.
struct Probe {
    name: String,
    path: String,
    operations: Vec<(String, Vec<String>)>,
    subscriptions: Vec<(Option<String>, String)>,
    fail_init: bool,
    fail_start: bool,
    fail_stop: bool,
    fail_events: bool,
    publish_on_request: Option<String>,
    publish_on_event: Option<String>,
    log: Vec<String>,
}

impl Probe {
    fn new(path: &str) -> Probe {
        Probe {
            name: path.to_string(),
            path: path.to_string(),
            operations: Vec::new(),
            subscriptions: Vec::new(),
            fail_init: false,
            fail_start: false,
            fail_stop: false,
            fail_events: false,
            publish_on_request: None,
            publish_on_event: None,
            log: Vec::new(),
        }
    }

    fn operation(mut self, name: &str, params: &[&str]) -> Probe {
        self.operations.push((name.to_string(), params.iter().map(|p| p.to_string()).collect()));
        self
    }

    fn subscription(mut self, topic: Option<&str>, handler: &str) -> Probe {
        self.subscriptions.push((topic.map(|t| t.to_string()), handler.to_string()));
        self
    }
}

impl AbstractService for Probe {
    fn metadata(&self) -> ServiceMetadata {
        let mut m = ServiceMetadata::new(&self.name, &self.path).expect("a path");
        for (name, params) in &self.operations {
            m = m.with_operation(name, params.clone());
        }
        for (topic, handler) in &self.subscriptions {
            m = m.with_subscription(
                topic.as_deref(),
                handler,
                SubscriptionOptions { once: false },
            );
        }
        m
    }

    fn init(&mut self, _ctx: &mut RequestContext) -> Result<(), HandlerError> {
        self.log.push("init".to_string());
        if self.fail_init {
            Err(HandlerError::new("init failed"))
        } else {
            Ok(())
        }
    }

    fn start(&mut self) -> Result<(), HandlerError> {
        self.log.push("start".to_string());
        if self.fail_start {
            Err(HandlerError::new("start failed"))
        } else {
            Ok(())
        }
    }

    fn stop(&mut self) -> Result<(), HandlerError> {
        self.log.push("stop".to_string());
        if self.fail_stop {
            Err(HandlerError::new("stop failed"))
        } else {
            Ok(())
        }
    }

    fn handle_request(
        &mut self,
        request: &ServiceRequest,
        ctx: &mut RequestContext,
    ) -> Result<ServiceResponse, HandlerError> {
        self.log.push(format!("request {} {}", request.operation, request.params.render()));
        if let Some(topic) = &self.publish_on_request {
            ctx.publish(topic, request.params.clone());
        }
        if request.operation == "fail" {
            return Err(HandlerError::new("handler failed"));
        }
        Ok(ServiceResponse::success("done", Some(request.params.clone())))
    }

    fn handle_event(
        &mut self,
        handler: &str,
        topic: &str,
        payload: &Value,
        ctx: &mut RequestContext,
    ) -> Result<(), HandlerError> {
        self.log.push(format!("event {} {} {}", handler, topic, payload.render()));
        if let Some(next) = &self.publish_on_event {
            ctx.publish(next, payload.clone());
        }
        if self.fail_events {
            Err(HandlerError::new("event failed"))
        } else {
            Ok(())
        }
    }
}

fn log_of(node: &Node<Probe>, path: &str) -> Vec<String> {
    node.registry().get(path).expect("registered").service().log.clone()
}

fn running(services: Vec<Probe>) -> Node<Probe> {
    let mut node = Node::new();
    for s in services {
        node.add_service(s).expect("registered");
    }
    node.init().expect("initialized");
    let report = node.start().expect("started");
    assert!(report.is_empty());
    node
}

#[test]
fn second_registration_under_a_path_fails() {
    let mut node: Node<Probe> = Node::new();
    assert!(node.add_service(Probe::new("data")).is_ok());
    match node.add_service(Probe::new("data")) {
        Err(RegistrationError::DuplicatePath(e)) => assert_eq!(e.path, "data"),
        other => panic!("unexpected: {:?}", other.is_ok()),
    }
    let listed = node.list_services();
    assert_eq!(listed.len(), 1);
    assert_eq!(listed[0].path, "data");
    assert_eq!(listed[0].state, ServiceState::Created);
}

#[test]
fn registration_ignores_slashes_at_the_ends_of_a_path() {
    let mut node: Node<Probe> = Node::new();
    assert!(node.add_service(Probe::new("/services/data/")).is_ok());
    assert!(matches!(
        node.add_service(Probe::new("services/data")),
        Err(RegistrationError::DuplicatePath(_))
    ));
    assert_eq!(node.list_services()[0].path, "services/data");
}

#[test]
fn request_to_an_unregistered_service_is_refused() {
    let mut node = running(vec![Probe::new("svc").operation("op", &[])]);
    let r = node.request("other/op", &Value::Null);
    assert_eq!(r.err(), Some(DispatchError::ServiceNotFound));
}

#[test]
fn request_for_an_unknown_operation_is_refused() {
    let mut node = running(vec![Probe::new("svc").operation("op", &[])]);
    let r = node.request("svc/nope", &Value::Null);
    assert_eq!(r.err(), Some(DispatchError::OperationNotFound));
}

#[test]
fn address_without_a_slash_is_refused() {
    let mut node = running(vec![Probe::new("svc").operation("op", &[])]);
    assert_eq!(node.request("svc", &Value::Null).err(), Some(DispatchError::AddressFormatError));
    assert_eq!(node.request("/svc/", &Value::Null).err(), Some(DispatchError::AddressFormatError));
    assert_eq!(node.request("", &Value::Null).err(), Some(DispatchError::AddressFormatError));
}

#[test]
fn request_before_start_is_refused() {
    let mut node: Node<Probe> = Node::new();
    node.add_service(Probe::new("svc").operation("op", &[])).unwrap();
    assert_eq!(node.request("svc/op", &Value::Null).err(), Some(DispatchError::ServiceNotRunning));
    node.init().unwrap();
    assert_eq!(node.request("svc/op", &Value::Null).err(), Some(DispatchError::ServiceNotRunning));
    node.start().unwrap();
    assert!(node.request("svc/op", &Value::Null).is_ok());
}

#[test]
fn request_reaches_the_handler_and_returns_its_response() {
    let mut node = running(vec![Probe::new("svc").operation("op", &["a", "b"])]);
    let body = Value::single("a", Value::Number(1));
    let response = node.request("/svc/op/", &body).unwrap();
    assert_eq!(response.status, ResponseStatus::Success);
    assert_eq!(response.message, "done");
    assert_eq!(response.data, Some(Value::single("a", Value::Number(1))));
    assert_eq!(log_of(&node, "svc"), vec!["init", "start", "request op {a: 1}"]);
}

#[test]
fn operation_is_the_last_segment_of_the_address() {
    let mut node = running(vec![Probe::new("internal/registry").operation("list_services", &[])]);
    assert!(node.request("internal/registry/list_services", &Value::Null).is_ok());
    assert_eq!(
        node.request("internal/list_services", &Value::Null).err(),
        Some(DispatchError::ServiceNotFound)
    );
}

#[test]
fn bare_scalar_is_wrapped_for_an_operation_of_one_parameter() {
    let mut node = running(vec![Probe::new("data").operation("transform", &["data"])]);
    let bare = node.request("data/transform", &Value::text("hello")).unwrap();
    let wrapped =
        node.request("data/transform", &Value::single("data", Value::text("hello"))).unwrap();
    assert_eq!(bare.data, wrapped.data);
    assert_eq!(bare.data, Some(Value::single("data", Value::text("hello"))));
    let log = log_of(&node, "data");
    assert_eq!(log[2], log[3]);
}

#[test]
fn bare_scalar_is_not_wrapped_for_an_operation_of_two_parameters() {
    let mut node = running(vec![Probe::new("data").operation("combine", &["a", "b"])]);
    let r = node.request("data/combine", &Value::text("hello")).unwrap();
    assert_eq!(r.data, Some(Value::text("hello")));
}

#[test]
fn null_and_arrays_are_not_wrapped() {
    let mut node = running(vec![Probe::new("data").operation("one", &["x"])]);
    assert_eq!(node.request("data/one", &Value::Null).unwrap().data, Some(Value::Null));
    let list = Value::Array(vec![Value::Number(1)]);
    assert_eq!(node.request("data/one", &list).unwrap().data, Some(list));
}

#[test]
fn failure_of_a_handler_becomes_an_error_response() {
    let mut node = running(vec![Probe::new("svc").operation("fail", &[])]);
    let response = node.request("svc/fail", &Value::Null).unwrap();
    assert_eq!(response.status, ResponseStatus::Error);
    assert_eq!(response.message, "handler failed");
    assert!(response.data.is_none());
    assert!(response.result().is_none());
}

#[test]
fn increment_returns_one_then_two() {
    let mut node: Node<DataProcessorService> = Node::new();
    node.add_service(DataProcessorService::new()).unwrap();
    node.init().unwrap();
    node.start().unwrap();
    let body = Value::single("value", Value::Number(0));
    let first = node.request("data/increment", &body).unwrap();
    assert_eq!(first.status, ResponseStatus::Success);
    assert_eq!(first.data, Some(Value::Number(1)));
    let second = node.request("data/increment", &body).unwrap();
    assert_eq!(second.data, Some(Value::Number(2)));
    assert_eq!(node.registry().get("data").unwrap().service().counter(), 2);
}

#[test]
fn transform_takes_a_bare_text() {
    let mut node: Node<DataProcessorService> = Node::new();
    node.add_service(DataProcessorService::new()).unwrap();
    node.init().unwrap();
    node.start().unwrap();
    let wrapped =
        node.request("data/transform", &Value::single("data", Value::text("hello world"))).unwrap();
    let bare = node.request("data/transform", &Value::text("hello world")).unwrap();
    assert_eq!(wrapped.data, Some(Value::text("HELLO WORLD")));
    assert_eq!(bare.data, wrapped.data);
    assert_eq!(bare.status, wrapped.status);
    assert_eq!(bare.message, wrapped.message);
    // Each request announced its result once, to no subscriber.
    assert_eq!(node.pending_len(), 0);
}

#[test]
fn publish_serves_subscribers_in_the_order_of_subscription() {
    let mut node = running(vec![
        Probe::new("a").subscription(Some("t"), "h1").subscription(Some("t"), "h2"),
        Probe::new("b").subscription(Some("t"), "h3"),
    ]);
    assert_eq!(node.publish("t", &Value::Number(7)), 3);
    let report = node.deliver_pending(10);
    assert_eq!(report.len(), 3);
    assert!(report.iter().all(|o| matches!(o, DeliveryOutcome::Handled { .. })));
    assert_eq!(log_of(&node, "a")[2..], ["event h1 t 7", "event h2 t 7"]);
    assert_eq!(log_of(&node, "b")[2..], ["event h3 t 7"]);
    assert_eq!(node.pending_len(), 0);
    // Nothing is delivered twice.
    assert!(node.deliver_pending(10).is_empty());
}

#[test]
fn short_form_reaches_only_the_service_of_the_prefix() {
    let mut node = running(vec![
        Probe::new("a").operation("emit", &[]),
        Probe::new("b").subscription(Some("events/created"), "full").subscription(
            Some("created"),
            "short_in_b",
        ),
        Probe::new("events").subscription(Some("created"), "short").subscription(
            Some("events/created"),
            "full",
        ),
    ]);
    assert_eq!(node.publish("events/created", &Value::Null), 3);
    node.deliver_pending(10);
    assert_eq!(log_of(&node, "b")[2..], ["event full events/created null"]);
    assert_eq!(
        log_of(&node, "events")[2..],
        ["event short events/created null", "event full events/created null"]
    );
}

#[test]
fn service_publishes_through_its_context() {
    let mut a = Probe::new("a").operation("emit", &[]);
    a.publish_on_request = Some("events/created".to_string());
    let mut node = running(vec![
        a,
        Probe::new("b").subscription(Some("events/created"), "on_created"),
        Probe::new("events").subscription(Some("created"), "on_created"),
        Probe::new("other").subscription(Some("created"), "on_created"),
    ]);
    node.request("a/emit", &Value::text("x")).unwrap();
    assert_eq!(node.pending_len(), 2);
    node.deliver_pending(10);
    assert_eq!(log_of(&node, "b")[2..], ["event on_created events/created \"x\""]);
    assert_eq!(log_of(&node, "events")[2..], ["event on_created events/created \"x\""]);
    assert_eq!(log_of(&node, "other").len(), 2);
}

#[test]
fn failure_of_a_subscriber_stays_with_its_delivery() {
    let mut failing = Probe::new("a").subscription(Some("t"), "h");
    failing.fail_events = true;
    let mut node = running(vec![failing, Probe::new("b").subscription(Some("t"), "h")]);
    assert_eq!(node.publish("t", &Value::Null), 2);
    let report = node.deliver_pending(10);
    assert_eq!(report.len(), 2);
    match &report[0] {
        DeliveryOutcome::Failed { path, message, .. } => {
            assert_eq!(path, "a");
            assert_eq!(message, "event failed");
        }
        _ => panic!("expected a failure"),
    }
    assert!(matches!(report[1], DeliveryOutcome::Handled { .. }));
    assert_eq!(log_of(&node, "b")[2..], ["event h t null"]);
}

#[test]
fn unsubscribe_is_idempotent() {
    let mut node: Node<Probe> = Node::new();
    let first = node.subscribe("t", "h", SubscriptionOptions { once: false }).unwrap();
    let second = node.subscribe("t", "h", SubscriptionOptions { once: false }).unwrap();
    assert_ne!(first, second);
    assert!(node.unsubscribe("t", first));
    assert_eq!(node.bus().len(), 1);
    assert!(!node.unsubscribe("t", first));
    assert_eq!(node.bus().len(), 1);
    assert!(!node.unsubscribe("other", second));
    assert_eq!(node.bus().len(), 1);
    assert_eq!(node.publish("t", &Value::Null), 1);
}

#[test]
fn event_for_an_outside_subscriber_is_handed_out() {
    let mut node: Node<Probe> = Node::new();
    let id = node.subscribe("t", "outside", SubscriptionOptions { once: false }).unwrap();
    assert_eq!(node.publish("t", &Value::Number(3)), 1);
    match node.deliver_next() {
        Some(DeliveryOutcome::Unowned(d)) => {
            assert_eq!(d.subscription, id);
            assert_eq!(d.handler, "outside");
            assert_eq!(d.topic, "t");
            assert_eq!(d.payload, Value::Number(3));
            assert!(d.owner.is_none());
        }
        _ => panic!("expected an unowned delivery"),
    }
    assert!(node.deliver_next().is_none());
}

#[test]
fn subscription_that_ends_with_its_first_event_is_served_once() {
    let mut node: Node<Probe> = Node::new();
    node.subscribe("t", "once", SubscriptionOptions { once: true }).unwrap();
    node.subscribe("t", "always", SubscriptionOptions { once: false }).unwrap();
    assert_eq!(node.publish("t", &Value::Null), 2);
    assert_eq!(node.publish("t", &Value::Null), 1);
    assert_eq!(node.bus().len(), 1);
}

#[test]
fn declared_subscriptions_become_active_with_init() {
    let mut node: Node<Probe> = Node::new();
    node.add_service(Probe::new("a").subscription(Some("t"), "h")).unwrap();
    assert_eq!(node.publish("t", &Value::Null), 0);
    node.init().unwrap();
    assert_eq!(node.publish("t", &Value::Null), 1);
}

#[test]
fn subscription_without_a_topic_listens_on_the_channel_of_its_handler() {
    let mut node: Node<EventHandlerService> = Node::new();
    node.add_service(EventHandlerService::new()).unwrap();
    node.init().unwrap();
    node.start().unwrap();
    let mut event = Value::mapping();
    event.set("message", Value::text("direct publish"));
    event.set("data", Value::text("custom event data"));
    assert_eq!(node.publish("events/custom", &event), 1);
    assert_eq!(node.publish("events/text_events", &Value::single("data", Value::text("t"))), 1);
    assert_eq!(node.publish("events/math_events", &Value::single("data", Value::text("m"))), 1);
    node.deliver_pending(10);
    let response = node.request("events/get_events", &Value::Null).unwrap();
    assert_eq!(
        response.data,
        Some(Value::Array(vec![
            Value::text(
                "Custom event: direct publish at no timestamp with data: custom event data"
            ),
            Value::text("t"),
            Value::text("m"),
        ]))
    );
}

#[test]
fn removing_a_service_cancels_its_subscriptions() {
    let mut node = running(vec![
        Probe::new("a").subscription(Some("t"), "h"),
        Probe::new("b").subscription(Some("t"), "h"),
    ]);
    let removed = node.remove_service("/a/").expect("registered");
    assert_eq!(removed.path, "a");
    assert_eq!(node.list_services().len(), 1);
    assert_eq!(node.bus().len(), 1);
    assert_eq!(node.publish("t", &Value::Null), 1);
    assert!(node.remove_service("a").is_none());
}

#[test]
fn event_for_a_removed_service_is_dropped() {
    let mut node = running(vec![Probe::new("a").subscription(Some("t"), "h")]);
    assert_eq!(node.publish("t", &Value::Null), 1);
    node.remove_service("a");
    assert!(matches!(node.deliver_next(), Some(DeliveryOutcome::Dropped { .. })));
}

#[test]
fn lifecycle_is_linear() {
    let mut node: Node<Probe> = Node::new();
    assert_eq!(node.state(), ServiceState::Created);
    match node.start() {
        Err(LifecycleError::InvalidTransition(t)) => {
            assert_eq!(t.from, ServiceState::Created);
            assert_eq!(t.event, LifecycleEvent::Start);
        }
        _ => panic!("start before init must be refused"),
    }
    node.init().unwrap();
    assert_eq!(node.state(), ServiceState::Initialized);
    assert!(matches!(node.init(), Err(LifecycleError::InvalidTransition(_))));
    node.start().unwrap();
    assert_eq!(node.state(), ServiceState::Running);
    assert!(matches!(node.start(), Err(LifecycleError::InvalidTransition(_))));
    assert!(node.stop().failures.is_empty());
    assert_eq!(node.state(), ServiceState::Stopped);
    let again = node.stop();
    assert!(again.failures.is_empty());
    assert!(again.deliveries.is_empty());
    assert_eq!(again.discarded, 0);
    assert_eq!(node.state(), ServiceState::Stopped);
    assert!(matches!(node.init(), Err(LifecycleError::InvalidTransition(_))));
}

#[test]
fn init_fails_fast_and_names_the_service() {
    let mut bad = Probe::new("b");
    bad.fail_init = true;
    let mut node: Node<Probe> = Node::new();
    node.add_service(Probe::new("a")).unwrap();
    node.add_service(bad).unwrap();
    node.add_service(Probe::new("c")).unwrap();
    match node.init() {
        Err(LifecycleError::HookFailed(f)) => {
            assert_eq!(f.path, "b");
            assert_eq!(f.event, LifecycleEvent::Init);
            assert_eq!(f.message, "init failed");
        }
        _ => panic!("init must fail"),
    }
    let states: Vec<ServiceState> = node.list_services().iter().map(|s| s.state).collect();
    assert_eq!(
        states,
        vec![ServiceState::Initialized, ServiceState::Created, ServiceState::Created]
    );
    assert_eq!(node.state(), ServiceState::Created);
    assert!(log_of(&node, "c").is_empty());
}

#[test]
fn start_goes_on_after_a_failure_and_reports_it() {
    let mut bad = Probe::new("b");
    bad.fail_start = true;
    let mut node: Node<Probe> = Node::new();
    node.add_service(Probe::new("a")).unwrap();
    node.add_service(bad).unwrap();
    node.init().unwrap();
    // A service that is registered after the initialization is initialized
    // when the host starts.
    node.add_service(Probe::new("c")).unwrap();
    let report = node.start().unwrap();
    assert_eq!(report.len(), 1);
    assert_eq!(report[0].path, "b");
    assert_eq!(report[0].event, LifecycleEvent::Start);
    let states: Vec<ServiceState> = node.list_services().iter().map(|s| s.state).collect();
    assert_eq!(
        states,
        vec![ServiceState::Running, ServiceState::Initialized, ServiceState::Running]
    );
    assert_eq!(log_of(&node, "c"), vec!["init", "start"]);
    assert_eq!(node.state(), ServiceState::Running);
}

#[test]
fn stop_goes_on_after_a_failure_and_tears_everything_down() {
    let mut bad = Probe::new("a").subscription(Some("t"), "h");
    bad.fail_stop = true;
    let mut node = running(vec![bad, Probe::new("b").subscription(Some("t"), "h")]);
    node.publish("t", &Value::Null);
    let report = node.stop();
    assert_eq!(report.failures.len(), 1);
    assert_eq!(report.failures[0].path, "a");
    assert_eq!(report.failures[0].event, LifecycleEvent::Stop);
    assert_eq!(report.failures[0].message, "stop failed");
    assert_eq!(report.deliveries.len(), 2);
    assert!(report.deliveries.iter().all(|o| matches!(o, DeliveryOutcome::Handled { .. })));
    assert_eq!(report.discarded, 0);
    assert_eq!(node.state(), ServiceState::Stopped);
    assert!(node.list_services().is_empty());
    assert_eq!(node.bus().len(), 0);
    assert_eq!(node.pending_len(), 0);
    assert_eq!(node.publish("t", &Value::Null), 0);
    assert!(matches!(node.add_service(Probe::new("z")), Err(RegistrationError::NodeStopped)));
    assert!(node.subscribe("t", "h", SubscriptionOptions { once: false }).is_none());
}

#[test]
fn late_service_whose_init_fails_is_reported_by_start() {
    let mut late = Probe::new("late");
    late.fail_init = true;
    let mut node: Node<Probe> = Node::new();
    node.add_service(Probe::new("a")).unwrap();
    node.init().unwrap();
    node.add_service(late).unwrap();
    let report = node.start().unwrap();
    assert_eq!(report.len(), 1);
    assert_eq!(report[0].path, "late");
    assert_eq!(report[0].event, LifecycleEvent::Init);
    assert_eq!(report[0].message, "init failed");
    let states: Vec<ServiceState> = node.list_services().iter().map(|s| s.state).collect();
    assert_eq!(states, vec![ServiceState::Running, ServiceState::Created]);
    assert_eq!(log_of(&node, "late"), vec!["init"]);
}

#[test]
fn init_can_be_tried_again_after_a_failure() {
    let mut node: Node<Probe> = Node::new();
    node.add_service(Probe::new("a")).unwrap();
    let mut bad = Probe::new("b");
    bad.fail_init = true;
    node.add_service(bad).unwrap();
    assert!(node.init().is_err());
    // Without the service that failed the initialization goes through, and
    // leaves out the service that is initialized.
    node.remove_service("b");
    node.init().unwrap();
    assert_eq!(node.state(), ServiceState::Initialized);
    assert_eq!(log_of(&node, "a"), vec!["init"]);
}

#[test]
fn stop_delivers_what_is_on_its_way_and_stops_active_services_only() {
    let mut node: Node<Probe> = Node::new();
    node.add_service(Probe::new("a").subscription(Some("t"), "h")).unwrap();
    node.init().unwrap();
    node.add_service(Probe::new("created")).unwrap();
    assert_eq!(node.publish("t", &Value::Number(1)), 1);
    let a = node.registry().find("a").unwrap();
    assert_eq!(a, 0);
    let report = node.stop();
    assert!(report.failures.is_empty());
    assert_eq!(report.deliveries.len(), 1);
    assert_eq!(report.discarded, 0);
    assert_eq!(node.state(), ServiceState::Stopped);
}

#[test]
fn stop_reports_the_deliveries_and_discards_what_they_publish() {
    let mut first = Probe::new("a").subscription(Some("t"), "h");
    first.publish_on_event = Some("u".to_string());
    let mut failing = Probe::new("b").subscription(Some("t"), "h").subscription(Some("u"), "g");
    failing.fail_events = true;
    let mut node = running(vec![first, failing]);
    let outside = node.subscribe("t", "outside", SubscriptionOptions { once: false }).unwrap();
    assert_eq!(node.publish("t", &Value::Number(1)), 3);
    let report = node.stop();
    // The three deliveries that were on their way were made, in order.
    assert_eq!(report.deliveries.len(), 3);
    assert!(matches!(report.deliveries[0], DeliveryOutcome::Handled { .. }));
    match &report.deliveries[1] {
        DeliveryOutcome::Failed { path, message, .. } => {
            assert_eq!(path, "b");
            assert_eq!(message, "event failed");
        }
        _ => panic!("expected a failure"),
    }
    match &report.deliveries[2] {
        DeliveryOutcome::Unowned(d) => assert_eq!(d.subscription, outside),
        _ => panic!("expected an unowned delivery"),
    }
    // The event that the first handler published on `u` was not delivered.
    assert_eq!(report.discarded, 1);
    assert!(report.failures.is_empty());
    assert_eq!(node.pending_len(), 0);
}

#[test]
fn route_finds_the_service_and_makes_the_request() {
    let node = running(vec![Probe::new("a"), Probe::new("svc/data").operation("op", &["x"])]);
    let (index, request) = node.route("/svc/data/op/", &Value::Number(5)).unwrap();
    assert_eq!(index, 1);
    assert_eq!(request.path, "svc/data");
    assert_eq!(request.operation, "op");
    assert_eq!(request.params, Value::single("x", Value::Number(5)));
    assert_eq!(node.route("svc/op", &Value::Null).err(), Some(DispatchError::ServiceNotFound));
}

#[test]
fn settle_init_activates_and_carries_out() {
    let mut node: Node<Probe> = Node::new();
    node.add_service(Probe::new("a").subscription(Some("declared"), "d")).unwrap();
    let commands = vec![
        Command::Subscribe {
            topic: "asked".to_string(),
            handler: "h".to_string(),
            options: SubscriptionOptions { once: false },
        },
        Command::Publish { topic: "a/asked".to_string(), payload: Value::Null },
        Command::Publish { topic: "declared".to_string(), payload: Value::Null },
    ];
    assert!(node.settle_init(0, Ok(()), &commands).is_ok());
    assert_eq!(node.list_services()[0].state, ServiceState::Initialized);
    assert_eq!(node.bus().len(), 2);
    assert_eq!(node.bus().get(0).unwrap().topic(), "declared");
    assert_eq!(node.bus().get(1).unwrap().topic(), "asked");
    assert_eq!(node.bus().get(1).unwrap().owner(), Some("a"));
    assert_eq!(node.pending_len(), 2);
}

#[test]
fn settle_init_reports_a_failure_and_changes_nothing() {
    let mut node: Node<Probe> = Node::new();
    node.add_service(Probe::new("a").subscription(Some("declared"), "d")).unwrap();
    let commands =
        vec![Command::Publish { topic: "declared".to_string(), payload: Value::Null }];
    let failure = match node.settle_init(0, Err(HandlerError::new("no")), &commands) {
        Err(LifecycleError::HookFailed(f)) => f,
        _ => panic!("expected the failure of the hook"),
    };
    assert_eq!(failure.path, "a");
    assert_eq!(failure.event, LifecycleEvent::Init);
    assert_eq!(failure.message, "no");
    assert_eq!(node.list_services()[0].state, ServiceState::Created);
    assert_eq!(node.bus().len(), 0);
    assert_eq!(node.pending_len(), 0);
}

#[test]
fn settle_start_and_stop_move_the_service() {
    let mut node: Node<Probe> = Node::new();
    node.add_service(Probe::new("a")).unwrap();
    node.settle_init(0, Ok(()), &vec![]).unwrap();
    let failure = match node.settle_start(0, Err(HandlerError::new("no"))) {
        Err(LifecycleError::HookFailed(f)) => f,
        _ => panic!("expected the failure of the hook"),
    };
    assert_eq!(failure.event, LifecycleEvent::Start);
    assert_eq!(node.list_services()[0].state, ServiceState::Initialized);
    node.settle_start(0, Ok(())).unwrap();
    assert_eq!(node.list_services()[0].state, ServiceState::Running);
    let failure = node.settle_stop(0, Err(HandlerError::new("no"))).unwrap_err();
    assert_eq!(failure.event, LifecycleEvent::Stop);
    assert_eq!(failure.path, "a");
    assert_eq!(node.list_services()[0].state, ServiceState::Stopped);
}

#[test]
fn settle_init_refuses_a_service_that_is_not_created() {
    let mut node: Node<Probe> = Node::new();
    node.add_service(Probe::new("a").subscription(Some("t"), "h")).unwrap();
    node.settle_init(0, Ok(()), &vec![]).unwrap();
    assert_eq!(node.bus().len(), 1);
    for outcome in [Ok(()), Err(HandlerError::new("no"))] {
        match node.settle_init(0, outcome, &vec![]) {
            Err(LifecycleError::InvalidTransition(t)) => {
                assert_eq!(t.from, ServiceState::Initialized);
                assert_eq!(t.event, LifecycleEvent::Init);
            }
            _ => panic!("expected a refused transition"),
        }
    }
    assert_eq!(node.list_services()[0].state, ServiceState::Initialized);
    assert_eq!(node.bus().len(), 1);
}

#[test]
fn settle_start_refuses_a_service_that_is_not_initialized() {
    let mut node: Node<Probe> = Node::new();
    node.add_service(Probe::new("a")).unwrap();
    for outcome in [Ok(()), Err(HandlerError::new("no"))] {
        match node.settle_start(0, outcome) {
            Err(LifecycleError::InvalidTransition(t)) => {
                assert_eq!(t.from, ServiceState::Created);
                assert_eq!(t.event, LifecycleEvent::Start);
            }
            _ => panic!("expected a refused transition"),
        }
    }
    assert_eq!(node.list_services()[0].state, ServiceState::Created);
    node.settle_init(0, Ok(()), &vec![]).unwrap();
    node.settle_start(0, Ok(())).unwrap();
    assert!(matches!(
        node.settle_start(0, Ok(())),
        Err(LifecycleError::InvalidTransition(_))
    ));
    assert_eq!(node.list_services()[0].state, ServiceState::Running);
}

#[test]
fn settle_request_turns_a_failure_into_an_error_response() {
    let mut node = running(vec![Probe::new("a").subscription(Some("t"), "h")]);
    let commands = vec![Command::Publish { topic: "t".to_string(), payload: Value::Null }];
    let response = node.settle_request(0, Err(HandlerError::new("broken")), &commands);
    assert_eq!(response.status, ResponseStatus::Error);
    assert_eq!(response.message, "broken");
    assert!(!response.is_success());
    assert_eq!(node.pending_len(), 1);
    let fine = node.settle_request(0, Ok(ServiceResponse::success("m", None)), &vec![]);
    assert!(fine.is_success());
    assert!(fine.result().is_none());
}

#[test]
fn service_cancels_a_subscription_through_its_context() {
    let mut node = running(vec![Probe::new("a").subscription(Some("t"), "h")]);
    let id = node.bus().get(0).unwrap().id();
    let commands = vec![Command::Unsubscribe { topic: "t".to_string(), id }];
    node.settle_request(0, Ok(ServiceResponse::success("m", None)), &commands);
    assert_eq!(node.bus().len(), 0);
}

#[test]
fn context_records_what_is_asked_in_order() {
    let mut ctx = RequestContext::new("svc");
    assert_eq!(ctx.path(), "svc");
    assert_eq!(ctx.data(), &Value::Null);
    ctx.publish("t", Value::Number(1));
    ctx.subscribe("u", "h");
    ctx.subscribe_with_options("v", "g", SubscriptionOptions { once: true });
    ctx.unsubscribe("u", node_core::event_bus::SubscriptionId(3));
    let commands = ctx.into_commands();
    assert_eq!(commands.len(), 4);
    assert!(matches!(&commands[0], Command::Publish { topic, payload }
        if topic == "t" && *payload == Value::Number(1)));
    assert!(matches!(&commands[1], Command::Subscribe { topic, handler, options }
        if topic == "u" && handler == "h" && !options.once));
    assert!(matches!(&commands[2], Command::Subscribe { topic, handler, options }
        if topic == "v" && handler == "g" && options.once));
    assert!(matches!(&commands[3], Command::Unsubscribe { topic, id }
        if topic == "u" && id.0 == 3));
}

#[test]
fn failures_have_messages() {
    let mut node: Node<Probe> = Node::new();
    node.add_service(Probe::new("data")).unwrap();
    let taken = node.add_service(Probe::new("data")).unwrap_err();
    assert_eq!(taken.message(), "a service is already registered at data");
    assert_eq!(node.start().unwrap_err().message(), "cannot start in state Created");
    let mut bad = Probe::new("bad");
    bad.fail_init = true;
    node.add_service(bad).unwrap();
    assert_eq!(node.init().unwrap_err().message(), "bad: init failed: init failed");
    node.stop();
    assert_eq!(node.add_service(Probe::new("x")).unwrap_err().message(), "the host has stopped");
}

#[test]
fn response_has_the_shape_of_a_mapping() {
    let ok = ServiceResponse::success("done", Some(Value::Number(1)));
    let mut expected = Value::mapping();
    expected.set("status", Value::text("Success"));
    expected.set("message", Value::text("done"));
    expected.set("data", Value::Number(1));
    assert_eq!(ok.to_value(), expected);
    let failed = ServiceResponse::error("broken");
    let mut expected = Value::mapping();
    expected.set("status", Value::text("Error"));
    expected.set("message", Value::text("broken"));
    expected.set("data", Value::Null);
    assert_eq!(failed.to_value(), expected);
    assert_eq!(ResponseStatus::Success.name(), "Success");
    assert_eq!(ResponseStatus::Error.name(), "Error");
}
