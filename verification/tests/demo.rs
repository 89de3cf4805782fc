use node_core::demo::actions;
use node_core::demo::handlers;
use node_core::lifecycle::ServiceState;
use node_core::node::{DeliveryOutcome, Node};
use node_core::service::{
    AbstractService, Command, RequestContext, ResponseStatus, ServiceRequest,
};
use node_core::value::Value;

fn asking(operation: &str, params: Value) -> ServiceRequest {
    ServiceRequest { path: "data".to_string(), operation: operation.to_string(), params }
}

fn data_event(source: &str, data: &str) -> Value {
    let mut v = Value::mapping();
    v.set("source", Value::text(source));
    v.set("data", Value::text(data));
    v
}

fn published(ctx: &RequestContext) -> Vec<(String, Value)> {
    ctx.commands()
        .iter()
        .map(|c| match c {
            Command::Publish { topic, payload } => (topic.clone(), payload.clone()),
            _ => panic!("a publication"),
        })
        .collect()
}

#[test]
fn transform_makes_upper_case_and_tells_of_it() {
    let service = actions::DataProcessorService::new();
    let mut ctx = RequestContext::new("data");
    assert_eq!(service.transform(&mut ctx, "Hello, World!"), "HELLO, WORLD!");
    assert_eq!(
        published(&ctx),
        vec![("events/data_events".to_string(), data_event("transform", "HELLO, WORLD!"))]
    );
}

#[test]
fn transform_follows_the_standard_library_outside_ascii() {
    let service = actions::DataProcessorService::new();
    let mut ctx = RequestContext::new("data");
    assert_eq!(service.transform(&mut ctx, "straße"), "STRASSE");
}

#[test]
fn increment_adds_the_value_and_one() {
    let mut service = actions::DataProcessorService::new();
    assert_eq!(service.increment(5).ok(), Some(6));
    assert_eq!(service.increment(0).ok(), Some(7));
    assert_eq!(service.increment(-8).ok(), Some(0));
    assert_eq!(service.counter(), 0);
}

#[test]
fn increment_beyond_the_range_fails_and_keeps_the_counter() {
    let mut service = actions::DataProcessorService::new();
    assert!(service.increment(i32::MAX).is_err());
    assert_eq!(service.counter(), 0);
    assert_eq!(service.increment(i32::MAX - 1).ok(), Some(i32::MAX));
    assert!(service.increment(0).is_err());
    assert_eq!(service.counter(), i32::MAX);
    assert_eq!(service.increment(-1).ok(), Some(i32::MAX));
    assert_eq!(service.increment(i32::MIN).ok(), Some(0));
}

#[test]
fn combine_puts_a_blank_between_two_texts() {
    let service = actions::DataProcessorService::new();
    let mut ctx = RequestContext::new("data");
    assert_eq!(service.combine(&mut ctx, "john", "doe"), "john doe");
    assert_eq!(
        published(&ctx),
        vec![("events/data_events".to_string(), data_event("combine", "john doe"))]
    );
}

#[test]
fn math_events_are_kept_unless_their_data_is_empty() {
    let mut service = actions::DataProcessorService::new();
    service.on_math_events(&Value::single("data", Value::text("2+2")));
    service.on_math_events(&Value::single("data", Value::text("")));
    service.on_math_events(&Value::single("other", Value::text("x")));
    service.on_math_events(&Value::text("Test event payload"));
    service.on_math_events(&Value::single("data", Value::Number(4)));
    assert_eq!(service.events_received(), &vec!["2+2".to_string()]);
    assert_eq!(service.clone().events_received(), &vec!["2+2".to_string()]);
}

#[test]
fn data_processor_declares_three_operations_and_one_subscription() {
    let m = actions::DataProcessorService::new().metadata();
    assert_eq!(m.name(), "data");
    assert_eq!(m.path(), "data");
    assert_eq!(m.description(), "Processes and transforms data");
    assert_eq!(m.version(), "1.0.0");
    let ops: Vec<(&str, Vec<&str>)> = m
        .operations()
        .iter()
        .map(|o| (o.name.as_str(), o.params.iter().map(|p| p.as_str()).collect()))
        .collect();
    assert_eq!(
        ops,
        vec![
            ("transform", vec!["data"]),
            ("increment", vec!["value"]),
            ("combine", vec!["first", "second"])
        ]
    );
    assert_eq!(m.subscriptions().len(), 1);
    assert_eq!(m.subscriptions()[0].effective_topic(), "events/math_events");
    assert_eq!(m.subscriptions()[0].handler, "on_math_events");
}

#[test]
fn data_processor_serves_its_operations() {
    let mut service = actions::DataProcessorService::new();
    let mut ctx = RequestContext::new("data");
    let r = service
        .handle_request(&asking("transform", Value::single("data", Value::text("abc"))), &mut ctx)
        .unwrap();
    assert_eq!(r.status, ResponseStatus::Success);
    assert_eq!(r.message, "OK");
    assert_eq!(r.data, Some(Value::text("ABC")));

    let r = service
        .handle_request(&asking("increment", Value::single("value", Value::Number(4))), &mut ctx)
        .unwrap();
    assert_eq!(r.data, Some(Value::Number(5)));

    let mut names = Value::mapping();
    names.set("first", Value::text("john"));
    names.set("second", Value::text("doe"));
    let r = service.handle_request(&asking("combine", names), &mut ctx).unwrap();
    assert_eq!(r.data, Some(Value::text("john doe")));
    let mut counted = Value::mapping();
    counted.set("source", Value::text("increment"));
    counted.set("counter", Value::Number(5));
    counted.set("added_value", Value::Number(4));
    assert_eq!(
        published(&ctx),
        vec![
            ("events/data_events".to_string(), data_event("transform", "ABC")),
            ("events/data_events".to_string(), counted),
            ("events/data_events".to_string(), data_event("combine", "john doe")),
        ]
    );
}

#[test]
fn increment_counter_tells_where_the_counter_stands() {
    let mut service = actions::DataProcessorService::new();
    let mut ctx = RequestContext::new("data");
    assert_eq!(service.increment_counter(&mut ctx, 5).ok(), Some(6));
    assert_eq!(service.increment_counter(&mut ctx, 0).ok(), Some(7));
    assert!(service.increment_counter(&mut ctx, i32::MAX).is_err());
    assert_eq!(service.counter(), 7);
    let told = published(&ctx);
    assert_eq!(told.len(), 2);
    assert_eq!(told[1].0, "events/data_events");
    let mut second = Value::mapping();
    second.set("source", Value::text("increment"));
    second.set("counter", Value::Number(7));
    second.set("added_value", Value::Number(0));
    assert_eq!(told[1].1, second);
}

#[test]
fn data_processor_takes_defaults_for_missing_parameters() {
    let mut service = actions::DataProcessorService::new();
    let mut ctx = RequestContext::new("data");
    let r = service.handle_request(&asking("transform", Value::Null), &mut ctx).unwrap();
    assert_eq!(r.data, Some(Value::text("")));
    let r = service.handle_request(&asking("increment", Value::Null), &mut ctx).unwrap();
    assert_eq!(r.data, Some(Value::Number(1)));
    let r = service.handle_request(&asking("combine", Value::mapping()), &mut ctx).unwrap();
    assert_eq!(r.data, Some(Value::text(" ")));
}

#[test]
fn data_processor_refuses_a_value_that_is_no_counter_step() {
    let mut service = actions::DataProcessorService::new();
    let mut ctx = RequestContext::new("data");
    let too_big = Value::single("value", Value::Number(i64::from(i32::MAX) + 1));
    assert!(service.handle_request(&asking("increment", too_big), &mut ctx).is_err());
    assert_eq!(service.counter(), 0);
}

#[test]
fn unknown_operation_gets_an_error_response() {
    let mut service = actions::DataProcessorService::new();
    let mut ctx = RequestContext::new("data");
    let r = service.handle_request(&asking("explode", Value::Null), &mut ctx).unwrap();
    assert_eq!(r.status, ResponseStatus::Error);
    assert_eq!(r.message, "Unknown operation: explode");
    assert!(r.data.is_none());
}

#[test]
fn unknown_handler_fails() {
    let mut service = actions::DataProcessorService::new();
    let mut ctx = RequestContext::new("data");
    assert!(service.handle_event("nope", "t", &Value::Null, &mut ctx).is_err());
    assert!(service
        .handle_event("on_math_events", "t", &Value::single("data", Value::text("x")), &mut ctx)
        .is_ok());
    assert_eq!(service.events_received().len(), 1);
}

#[test]
fn event_handler_keeps_text_and_math_events() {
    let mut service = actions::EventHandlerService::new();
    service.handle_text_events(&Value::single("data", Value::text("t")));
    service.handle_math_events(&Value::single("data", Value::text("m")));
    service.handle_text_events(&Value::text("Test event payload"));
    assert_eq!(service.events_received(), &vec!["t".to_string(), "m".to_string()]);
    assert_eq!(service.get_events(), vec![Value::text("t"), Value::text("m")]);
    assert_eq!(service.clone().events_received().len(), 2);
}

#[test]
fn custom_event_is_kept_with_stand_ins_for_what_is_missing() {
    let mut service = actions::EventHandlerService::new();
    service.custom(&Value::text("Test event payload"));
    let mut event = Value::mapping();
    event.set("message", Value::text("direct publish"));
    event.set("timestamp", Value::text("2024-01-01T00:00:00+00:00"));
    event.set("data", Value::text("custom event data"));
    service.custom(&event);
    assert_eq!(
        service.events_received(),
        &vec![
            "Custom event: no message at no timestamp with data: no data".to_string(),
            "Custom event: direct publish at 2024-01-01T00:00:00+00:00 with data: custom event data"
                .to_string(),
        ]
    );
}

#[test]
fn event_handler_declares_one_operation_and_three_subscriptions() {
    let m = actions::EventHandlerService::new().metadata();
    assert_eq!(m.name(), "EventHandlerService");
    assert_eq!(m.path(), "events");
    assert_eq!(m.operations().len(), 1);
    assert_eq!(m.operations()[0].name, "get_events");
    let subs: Vec<(&str, &str)> =
        m.subscriptions().iter().map(|s| (s.effective_topic(), s.handler.as_str())).collect();
    assert_eq!(
        subs,
        vec![
            ("text_events", "handle_text_events"),
            ("events/math_events", "handle_math_events"),
            ("custom", "custom")
        ]
    );
}

/// The two services of the first style in one host.
enum Either {
    Data(actions::DataProcessorService),
    Events(actions::EventHandlerService),
}

impl AbstractService for Either {
    fn metadata(&self) -> node_core::service::ServiceMetadata {
        match self {
            Either::Data(s) => s.metadata(),
            Either::Events(s) => s.metadata(),
        }
    }

    fn init(&mut self, ctx: &mut RequestContext) -> Result<(), node_core::service::HandlerError> {
        match self {
            Either::Data(s) => s.init(ctx),
            Either::Events(s) => s.init(ctx),
        }
    }

    fn start(&mut self) -> Result<(), node_core::service::HandlerError> {
        match self {
            Either::Data(s) => s.start(),
            Either::Events(s) => s.start(),
        }
    }

    fn stop(&mut self) -> Result<(), node_core::service::HandlerError> {
        match self {
            Either::Data(s) => s.stop(),
            Either::Events(s) => s.stop(),
        }
    }

    fn handle_request(
        &mut self,
        request: &ServiceRequest,
        ctx: &mut RequestContext,
    ) -> Result<node_core::service::ServiceResponse, node_core::service::HandlerError> {
        match self {
            Either::Data(s) => s.handle_request(request, ctx),
            Either::Events(s) => s.handle_request(request, ctx),
        }
    }

    fn handle_event(
        &mut self,
        handler: &str,
        topic: &str,
        payload: &Value,
        ctx: &mut RequestContext,
    ) -> Result<(), node_core::service::HandlerError> {
        match self {
            Either::Data(s) => s.handle_event(handler, topic, payload, ctx),
            Either::Events(s) => s.handle_event(handler, topic, payload, ctx),
        }
    }
}

#[test]
fn math_event_reaches_every_subscriber() {
    let mut node: Node<Either> = Node::new();
    node.init().unwrap();
    node.add_service(Either::Data(actions::DataProcessorService::new())).unwrap();
    node.add_service(Either::Events(actions::EventHandlerService::new())).unwrap();
    assert!(node.start().unwrap().is_empty());
    assert!(node.list_services().iter().all(|s| s.state == ServiceState::Running));

    assert_eq!(node.publish("events/math_events", &Value::single("data", Value::text("1+1"))), 2);
    let report = node.deliver_pending(10);
    assert!(report.iter().all(|o| matches!(o, DeliveryOutcome::Handled { .. })));
    match node.registry().get("data").unwrap().service() {
        Either::Data(s) => assert_eq!(s.events_received(), &vec!["1+1".to_string()]),
        _ => panic!("the data processor"),
    }
    let events = node.request("events/get_events", &Value::Null).unwrap();
    assert_eq!(events.data, Some(Value::Array(vec![Value::text("1+1")])));

    let combined = {
        let mut names = Value::mapping();
        names.set("first", Value::text("john"));
        names.set("second", Value::text("doe"));
        node.request("data/combine", &names).unwrap()
    };
    assert_eq!(combined.data, Some(Value::text("john doe")));
    assert!(node.stop().failures.is_empty());
}

fn with_data(data: Value) -> RequestContext {
    RequestContext::with_data("data", data)
}

#[test]
fn transform_string_hands_out_the_transformed_input() {
    let service = handlers::DataProcessorService::new();
    let mut ctx = RequestContext::new("data");
    let r = service.transform_string(&Value::single("input", Value::text("hello world")), &mut ctx);
    assert_eq!(r.status, ResponseStatus::Success);
    assert_eq!(r.message, "String transformed successfully");
    assert_eq!(r.data, Some(Value::single("result", Value::text("Transformed: HELLO WORLD"))));
    assert_eq!(
        published(&ctx),
        vec![(
            "text_event".to_string(),
            Value::single("text", Value::text("Transformed: HELLO WORLD"))
        )]
    );
}

#[test]
fn transform_string_needs_a_text_under_input() {
    let service = handlers::DataProcessorService::new();
    let mut ctx = RequestContext::new("data");
    for data in [Value::mapping(), Value::Null, Value::single("input", Value::Number(1))] {
        let r = service.transform_string(&data, &mut ctx);
        assert_eq!(r.status, ResponseStatus::Error);
        assert_eq!(r.message, "Missing input parameter");
        assert!(r.data.is_none());
    }
    assert!(ctx.commands().is_empty());
}

#[test]
fn increment_counter_adds_the_value_and_one() {
    let mut service = handlers::DataProcessorService::new();
    let mut ctx = RequestContext::new("data");
    let r = service.increment_counter(&Value::single("value", Value::Number(0)), &mut ctx);
    assert_eq!(r.status, ResponseStatus::Success);
    assert_eq!(r.message, "Counter incremented successfully");
    assert_eq!(r.data, Some(Value::single("counter", Value::Number(1))));
    let r = service.increment_counter(&Value::single("value", Value::Number(0)), &mut ctx);
    assert_eq!(r.data, Some(Value::single("counter", Value::Number(2))));
    let r = service.increment_counter(&Value::single("value", Value::Number(5)), &mut ctx);
    assert_eq!(r.data, Some(Value::single("counter", Value::Number(8))));
    let r = service.increment_counter(&Value::single("value", Value::Number(-9)), &mut ctx);
    assert_eq!(r.data, Some(Value::single("counter", Value::Number(0))));
    assert_eq!(service.counter(), 0);
    assert_eq!(
        published(&ctx),
        vec![
            ("math_event".to_string(), Value::single("value", Value::Number(1))),
            ("math_event".to_string(), Value::single("value", Value::Number(2))),
            ("math_event".to_string(), Value::single("value", Value::Number(8))),
            ("math_event".to_string(), Value::single("value", Value::Number(0))),
        ]
    );
    assert_eq!(service.clone().counter(), 0);
}

#[test]
fn increment_counter_from_five_with_value_five_is_eleven() {
    let mut service = handlers::DataProcessorService::new();
    let mut ctx = RequestContext::new("data");
    service.increment_counter(&Value::single("value", Value::Number(4)), &mut ctx);
    assert_eq!(service.counter(), 5);
    let r = service.increment_counter(&Value::single("value", Value::Number(5)), &mut ctx);
    assert_eq!(r.data, Some(Value::single("counter", Value::Number(11))));
    assert_eq!(service.counter(), 11);
}

#[test]
fn increment_counter_takes_zero_for_a_missing_value() {
    let mut service = handlers::DataProcessorService::new();
    let mut ctx = RequestContext::new("data");
    for data in [Value::mapping(), Value::Null, Value::single("value", Value::text("5"))] {
        service.increment_counter(&data, &mut ctx);
    }
    assert_eq!(service.counter(), 3);
}

#[test]
fn increment_counter_beyond_the_range_fails_and_keeps_the_counter() {
    let mut service = handlers::DataProcessorService::new();
    let mut ctx = RequestContext::new("data");
    for value in [i64::from(i32::MAX), i64::MAX, i64::MIN, i64::from(i32::MIN) - 2] {
        let r = service.increment_counter(&Value::single("value", Value::Number(value)), &mut ctx);
        assert_eq!(r.status, ResponseStatus::Error);
        assert_eq!(r.message, "Counter overflow");
        assert!(r.data.is_none());
    }
    assert_eq!(service.counter(), 0);
    assert!(ctx.commands().is_empty());
    let most = Value::single("value", Value::Number(i64::from(i32::MAX) - 1));
    let r = service.increment_counter(&most, &mut ctx);
    assert_eq!(r.data, Some(Value::single("counter", Value::Number(i64::from(i32::MAX)))));
    let least = Value::single("value", Value::Number(i64::from(i32::MIN) - 1));
    service.increment_counter(&least, &mut ctx);
    assert_eq!(service.counter(), -1);
}

#[test]
fn combine_strings_needs_both_texts() {
    let service = handlers::DataProcessorService::new();
    let mut ctx = RequestContext::new("data");
    let r = service.combine_strings(&Value::single("str2", Value::text("b")), &mut ctx);
    assert_eq!(r.status, ResponseStatus::Error);
    assert_eq!(r.message, "Missing str1 parameter");
    let r = service.combine_strings(&Value::single("str1", Value::text("a")), &mut ctx);
    assert_eq!(r.message, "Missing str2 parameter");
    assert!(ctx.commands().is_empty());
    let mut both = Value::mapping();
    both.set("str1", Value::text("Hello"));
    both.set("str2", Value::text("wide World!"));
    let r = service.combine_strings(&both, &mut ctx);
    assert_eq!(r.status, ResponseStatus::Success);
    assert_eq!(r.message, "Strings combined successfully");
    assert_eq!(
        r.data,
        Some(Value::single("result", Value::text("Combined: Hello + wide World!")))
    );
    assert_eq!(
        published(&ctx),
        vec![("custom_event".to_string(), Value::text("Combined: Hello + wide World!"))]
    );
}

#[test]
fn handle_request_puts_the_parameters_into_the_data_of_the_context() {
    let mut service = handlers::DataProcessorService::new();
    // The context carries one of the two texts, the request the other.
    let mut ctx = with_data(Value::single("str1", Value::text("from context")));
    let r = service
        .handle_request(
            &asking("combine", Value::single("str2", Value::text("from request"))),
            &mut ctx,
        )
        .unwrap();
    assert_eq!(
        r.data,
        Some(Value::single("result", Value::text("Combined: from context + from request")))
    );
    // A parameter takes the place of the context's data under the same key.
    let mut ctx = with_data(Value::single("input", Value::text("old")));
    let r = service
        .handle_request(&asking("transform", Value::single("input", Value::text("new"))), &mut ctx)
        .unwrap();
    assert_eq!(r.data, Some(Value::single("result", Value::text("Transformed: NEW"))));
    // Data and parameters that are no mappings count as empty.
    let mut ctx = with_data(Value::text("x"));
    let r = service.handle_request(&asking("transform", Value::Number(1)), &mut ctx).unwrap();
    assert_eq!(r.message, "Missing input parameter");
    let r = service.handle_request(&asking("nope", Value::Null), &mut ctx).unwrap();
    assert_eq!(r.message, "Unknown operation: nope");
}

#[test]
fn node_style_data_processor_says_where_it_is_reached() {
    let m = handlers::DataProcessorService::new().metadata();
    assert_eq!(m.name(), "data");
    assert_eq!(m.path(), "data");
    assert_eq!(m.description(), "A service for processing data operations");
    assert_eq!(m.version(), "1.0.0");
    assert_eq!(m.operations().len(), 3);
    assert_eq!(m.operation("transform").unwrap().params, vec!["input"]);
    assert_eq!(m.operation("increment").unwrap().params, vec!["value"]);
    assert_eq!(m.operation("combine").unwrap().params, vec!["str1", "str2"]);
    let m = handlers::EventHandlerService::new().metadata();
    assert_eq!(m.name(), "events");
    assert_eq!(m.path(), "events");
    assert_eq!(m.description(), "A service for handling various events");
    assert_eq!(m.operations()[0].name, "get_events");
}

#[test]
fn event_handler_subscribes_when_it_is_initialized() {
    let mut service = handlers::EventHandlerService::new();
    let mut ctx = RequestContext::new("events");
    assert!(service.init(&mut ctx).is_ok());
    let asked: Vec<(String, String)> = ctx
        .commands()
        .iter()
        .map(|c| match c {
            Command::Subscribe { topic, handler, options } => {
                assert!(!options.once);
                (topic.clone(), handler.clone())
            }
            _ => panic!("a subscription"),
        })
        .collect();
    assert_eq!(
        asked,
        vec![
            ("text_event".to_string(), "handle_text_event".to_string()),
            ("math_event".to_string(), "handle_math_event".to_string()),
            ("custom_event".to_string(), "handle_custom_event".to_string()),
        ]
    );
}

#[test]
fn event_handler_keeps_a_line_for_each_event() {
    let mut service = handlers::EventHandlerService::new();
    service.handle_text_event(&Value::single("text", Value::text("hi")));
    service.handle_text_event(&Value::single("text", Value::Number(1)));
    service.handle_text_event(&Value::text("hi"));
    service.handle_math_event(&Value::single("value", Value::Number(-3)));
    service.handle_math_event(&Value::single("value", Value::text("3")));
    service.handle_custom_event(&Value::text("Combined: a + b"));
    service.handle_custom_event(&Value::Null);
    assert_eq!(
        service.received_events(),
        &vec![
            "Received text event: hi".to_string(),
            "Received math event with value: -3".to_string(),
            "Received custom event: \"Combined: a + b\"".to_string(),
            "Received custom event: null".to_string(),
        ]
    );
    let r = service.get_events();
    assert_eq!(r.status, ResponseStatus::Success);
    assert_eq!(r.message, "Events retrieved successfully");
    assert_eq!(
        r.data,
        Some(Value::single(
            "events",
            Value::Array(vec![
                Value::text("Received text event: hi"),
                Value::text("Received math event with value: -3"),
                Value::text("Received custom event: \"Combined: a + b\""),
                Value::text("Received custom event: null"),
            ])
        ))
    );
    assert_eq!(service.clone().received_events().len(), 4);
}

/// The two services of the second style in one host.
enum Plain {
    Data(handlers::DataProcessorService),
    Events(handlers::EventHandlerService),
}

impl AbstractService for Plain {
    fn metadata(&self) -> node_core::service::ServiceMetadata {
        match self {
            Plain::Data(s) => s.metadata(),
            Plain::Events(s) => s.metadata(),
        }
    }

    fn init(&mut self, ctx: &mut RequestContext) -> Result<(), node_core::service::HandlerError> {
        match self {
            Plain::Data(s) => s.init(ctx),
            Plain::Events(s) => s.init(ctx),
        }
    }

    fn start(&mut self) -> Result<(), node_core::service::HandlerError> {
        match self {
            Plain::Data(s) => s.start(),
            Plain::Events(s) => s.start(),
        }
    }

    fn stop(&mut self) -> Result<(), node_core::service::HandlerError> {
        match self {
            Plain::Data(s) => s.stop(),
            Plain::Events(s) => s.stop(),
        }
    }

    fn handle_request(
        &mut self,
        request: &ServiceRequest,
        ctx: &mut RequestContext,
    ) -> Result<node_core::service::ServiceResponse, node_core::service::HandlerError> {
        match self {
            Plain::Data(s) => s.handle_request(request, ctx),
            Plain::Events(s) => s.handle_request(request, ctx),
        }
    }

    fn handle_event(
        &mut self,
        handler: &str,
        topic: &str,
        payload: &Value,
        ctx: &mut RequestContext,
    ) -> Result<(), node_core::service::HandlerError> {
        match self {
            Plain::Data(s) => s.handle_event(handler, topic, payload, ctx),
            Plain::Events(s) => s.handle_event(handler, topic, payload, ctx),
        }
    }
}

#[test]
fn events_of_the_data_processor_reach_the_event_handler() {
    let mut node: Node<Plain> = Node::new();
    node.add_service(Plain::Data(handlers::DataProcessorService::new())).unwrap();
    node.add_service(Plain::Events(handlers::EventHandlerService::new())).unwrap();
    node.init().unwrap();
    assert_eq!(node.bus().len(), 3);
    assert!(node.start().unwrap().is_empty());

    let r = node.request("data/transform", &Value::text("hello world")).unwrap();
    assert_eq!(r.data, Some(Value::single("result", Value::text("Transformed: HELLO WORLD"))));
    let mut both = Value::mapping();
    both.set("str1", Value::text("Hello"));
    both.set("str2", Value::text("World"));
    node.request("data/combine", &both).unwrap();
    let r = node.request("data/increment", &Value::single("value", Value::Number(0))).unwrap();
    assert_eq!(r.data, Some(Value::single("counter", Value::Number(1))));
    // A bare number stands for the value.
    let r = node.request("data/increment", &Value::Number(5)).unwrap();
    assert_eq!(r.data, Some(Value::single("counter", Value::Number(7))));

    assert_eq!(node.pending_len(), 4);
    assert_eq!(node.deliver_pending(2).len(), 2);
    assert_eq!(node.pending_len(), 2);
    assert_eq!(node.deliver_pending(0).len(), 0);
    assert_eq!(node.deliver_pending(5).len(), 2);

    let events = node.request("/events/get_events", &Value::mapping()).unwrap();
    assert_eq!(
        events.data,
        Some(Value::single(
            "events",
            Value::Array(vec![
                Value::text("Received text event: Transformed: HELLO WORLD"),
                Value::text("Received custom event: \"Combined: Hello + World\""),
                Value::text("Received math event with value: 1"),
                Value::text("Received math event with value: 7"),
            ])
        ))
    );
}

#[test]
fn data_processor_without_subscriptions_refuses_every_event() {
    let mut service = handlers::DataProcessorService::new();
    let mut ctx = RequestContext::new("data");
    for handler in ["handle_text_event", "on_math_events", ""] {
        let refused = service.handle_event(handler, "t", &Value::Number(1), &mut ctx).unwrap_err();
        assert_eq!(refused.message, "unknown handler");
    }
    assert_eq!(service.counter(), 0);
    assert!(ctx.commands().is_empty());
}
