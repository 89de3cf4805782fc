//! Two services whose operations are typed actions: the host's requests are
//! turned into calls of the actions by the operation table.

use crate::event_bus::SubscriptionOptions;
use crate::service::{
    names, ok_model, ok_response, unknown_operation, unknown_operation_model, AbstractService,
    CommandModel, ContextModel, DeclaredSubscriptionModel, HandlerError, MetadataModel,
    OperationModel, RequestContext, ServiceMetadata, ServiceRequest, ServiceResponse,
};
use crate::text::{same_text, to_uppercase, uppercase_of};
use crate::value::{get_number, get_string, Value, ValueModel};
use vstd::prelude::*;
use vstd::string::StringExecFns;

verus! {

/// The topic on which the data processor tells of what it did.
pub open spec fn data_events_topic() -> Seq<char> {
    "events/data_events"@
}

/// The event that tells that the action `source` made `data`.
pub open spec fn data_event(source: Seq<char>, data: Seq<char>) -> ValueModel {
    ValueModel::Mapping(
        seq![("source"@, ValueModel::Text(source)), ("data"@, ValueModel::Text(data))],
    )
}

/// The event that tells that an increment by `added` and one more brought
/// the counter to `counter`.
pub open spec fn increment_event(counter: int, added: int) -> ValueModel {
    ValueModel::Mapping(
        seq![
            ("source"@, ValueModel::Text("increment"@)),
            ("counter"@, ValueModel::Number(counter)),
            ("added_value"@, ValueModel::Number(added)),
        ],
    )
}

/// Two texts with a blank between them.
pub open spec fn combined(first: Seq<char>, second: Seq<char>) -> Seq<char> {
    first + " "@ + second
}

/// What the data processor holds.
pub struct DataProcessorModel {
    pub counter: int,
    pub events_received: Seq<Seq<char>>,
}

/// A service that transforms and combines texts and keeps a counter.
#[derive(Debug)]
pub struct DataProcessorService {
    counter: i32,
    events_received: Vec<String>,
}

impl View for DataProcessorService {
    type V = DataProcessorModel;

    closed spec fn view(&self) -> DataProcessorModel {
        DataProcessorModel {
            counter: self.counter as int,
            events_received: crate::service::texts(self.events_received@),
        }
    }
}

/// The counter after `value` and one more were added to it, where that is a
/// number that the counter can hold.
pub open spec fn incremented(counter: int, value: int) -> Option<int> {
    if i32::MIN <= counter + value + 1 <= i32::MAX {
        Some(counter + value + 1)
    } else {
        None
    }
}

/// The events that a service has kept after one more came in: an event
/// whose text under `data` is empty or missing is not kept.
pub open spec fn noted(events: Seq<Seq<char>>, payload: ValueModel) -> Seq<Seq<char>> {
    let data = payload.field_text_or("data"@, Seq::empty());
    if data.len() == 0 {
        events
    } else {
        events.push(data)
    }
}

/// Keeps the text that `payload` holds under `data`, unless it is empty.
fn note(events: &mut Vec<String>, payload: &Value)
    ensures
        crate::service::texts(final(events)@) == noted(
            crate::service::texts(old(events)@),
            payload@,
        ),
{
    let ghost before = crate::service::texts(events@);
    let data = get_string(payload, "data", "");
    proof {
        reveal_strlit("");
        assert(""@ =~= Seq::<char>::empty());
    }
    if !data.as_str().is_empty() {
        events.push(data);
        assert(crate::service::texts(events@) =~= before.push(data@));
    }
}

impl DataProcessorService {
    /// A data processor with its counter at 0.
    pub fn new() -> (r: DataProcessorService)
        ensures
            r@ == (DataProcessorModel { counter: 0, events_received: Seq::empty() }),
    {
        let r = DataProcessorService { counter: 0, events_received: Vec::new() };
        assert(r@.events_received =~= Seq::<Seq<char>>::empty());
        r
    }

    /// Where the counter stands.
    pub fn counter(&self) -> (r: i32)
        ensures
            r == self@.counter,
    {
        self.counter
    }

    /// The events that the service has kept, oldest first.
    pub fn events_received(&self) -> (r: &Vec<String>)
        ensures
            crate::service::texts(r@) == self@.events_received,
    {
        &self.events_received
    }

    /// Asks the host to publish the event that tells that the action
    /// `source` made `data`.
    pub fn announce(&self, ctx: &mut RequestContext, source: &str, data: &str)
        ensures
            final(ctx)@ == (ContextModel {
                commands: old(ctx)@.commands.push(
                    CommandModel::Publish {
                        topic: data_events_topic(),
                        payload: data_event(source@, data@),
                    },
                ),
                ..old(ctx)@
            }),
    {
        let mut fields: Vec<(String, Value)> = Vec::new();
        fields.push(("source".to_owned(), Value::text(source)));
        fields.push(("data".to_owned(), Value::text(data)));
        let event = Value::Mapping(fields);
        proof {
            let made = event@->Mapping_0;
            let asked = data_event(source@, data@)->Mapping_0;
            assert(fields@[0].1@ == ValueModel::Text(source@));
            assert(fields@[1].1@ == ValueModel::Text(data@));
            assert(made[0] == asked[0]);
            assert(made[1] == asked[1]);
            assert(made =~= asked);
        }
        ctx.publish("events/data_events", event);
    }

    /// Turns `data` into upper case, tells of it on the data events topic,
    /// and returns the result.
    pub fn transform(&self, ctx: &mut RequestContext, data: &str) -> (r: String)
        ensures
            r@ == uppercase_of(data@),
            final(ctx)@ == (ContextModel {
                commands: old(ctx)@.commands.push(
                    CommandModel::Publish {
                        topic: data_events_topic(),
                        payload: data_event("transform"@, uppercase_of(data@)),
                    },
                ),
                ..old(ctx)@
            }),
    {
        let transformed = to_uppercase(data);
        self.announce(ctx, "transform", transformed.as_str());
        transformed
    }

    /// Adds `value` and one more to the counter and returns where the
    /// counter stands then. Where that is more than the counter can hold,
    /// the counter stays as it is and the action fails.
    pub fn increment(&mut self, value: i32) -> (r: Result<i32, HandlerError>)
        ensures
            match incremented(old(self)@.counter, value as int) {
                Some(n) => r == Ok::<i32, HandlerError>(n as i32) && final(self)@ == (
                DataProcessorModel { counter: n, ..old(self)@ }),
                None => r is Err && final(self)@ == old(self)@,
            },
    {
        let sum: i64 = self.counter as i64 + value as i64 + 1;
        if sum < i32::MIN as i64 || sum > i32::MAX as i64 {
            return Err(HandlerError::new("counter overflow"));
        }
        let n: i32 = sum as i32;
        self.counter = n;
        Ok(n)
    }

    /// Adds `value` and one more to the counter, tells on the data events
    /// topic where the counter stands then and what was added, and returns
    /// where it stands. Where that is more than the counter can hold, the
    /// counter stays as it is, nothing is told and the action fails.
    pub fn increment_counter(&mut self, ctx: &mut RequestContext, value: i32) -> (r: Result<
        i32,
        HandlerError,
    >)
        ensures
            match incremented(old(self)@.counter, value as int) {
                Some(n) => {
                    &&& r == Ok::<i32, HandlerError>(n as i32)
                    &&& final(self)@ == (DataProcessorModel { counter: n, ..old(self)@ })
                    &&& final(ctx)@ == (ContextModel {
                        commands: old(ctx)@.commands.push(
                            CommandModel::Publish {
                                topic: data_events_topic(),
                                payload: increment_event(n, value as int),
                            },
                        ),
                        ..old(ctx)@
                    })
                },
                None => r is Err && final(self)@ == old(self)@ && final(ctx)@ == old(ctx)@,
            },
    {
        let n = match self.increment(value) {
            Ok(n) => n,
            Err(e) => {
                return Err(e);
            },
        };
        let mut fields: Vec<(String, Value)> = Vec::new();
        fields.push(("source".to_owned(), Value::text("increment")));
        fields.push(("counter".to_owned(), Value::Number(n as i64)));
        fields.push(("added_value".to_owned(), Value::Number(value as i64)));
        let event = Value::Mapping(fields);
        proof {
            let made = event@->Mapping_0;
            let asked = increment_event(n as int, value as int)->Mapping_0;
            assert(fields@[0].1@ == ValueModel::Text("increment"@));
            assert(fields@[1].1@ == ValueModel::Number(n as int));
            assert(fields@[2].1@ == ValueModel::Number(value as int));
            assert(made[0] == asked[0]);
            assert(made[1] == asked[1]);
            assert(made[2] == asked[2]);
            assert(made =~= asked);
        }
        ctx.publish("events/data_events", event);
        Ok(n)
    }

    /// Puts `first` and `second` together with a blank between them, tells
    /// of it on the data events topic, and returns the result.
    pub fn combine(&self, ctx: &mut RequestContext, first: &str, second: &str) -> (r: String)
        ensures
            r@ == combined(first@, second@),
            final(ctx)@ == (ContextModel {
                commands: old(ctx)@.commands.push(
                    CommandModel::Publish {
                        topic: data_events_topic(),
                        payload: data_event("combine"@, combined(first@, second@)),
                    },
                ),
                ..old(ctx)@
            }),
    {
        let mut r = first.to_owned();
        r.append(" ");
        r.append(second);
        self.announce(ctx, "combine", r.as_str());
        r
    }

    /// Receives an event of the math events topic: keeps the text that it
    /// holds under `data`, unless that is empty.
    pub fn on_math_events(&mut self, payload: &Value)
        ensures
            final(self)@ == (DataProcessorModel {
                events_received: noted(old(self)@.events_received, payload@),
                ..old(self)@
            }),
    {
        note(&mut self.events_received, payload);
    }
}


/// What the data processor says of itself.
pub open spec fn data_processor_metadata() -> MetadataModel {
    MetadataModel {
        name: "data"@,
        path: "data"@,
        description: "Processes and transforms data"@,
        version: "1.0.0"@,
        operations: seq![
            OperationModel { name: "transform"@, params: seq!["data"@] },
            OperationModel { name: "increment"@, params: seq!["value"@] },
            OperationModel { name: "combine"@, params: seq!["first"@, "second"@] },
        ],
        subscriptions: seq![
            DeclaredSubscriptionModel {
                topic: Some("events/math_events"@),
                handler: "on_math_events"@,
                once: false,
            },
        ],
    }
}

/// The names of the data processor's operations differ from each other.
pub proof fn lemma_data_operation_names()
    ensures
        "transform"@ != "increment"@,
        "transform"@ != "combine"@,
        "increment"@ != "combine"@,
        "data"@.len() == 4,
        crate::text::is_normal("data"@),
{
    reveal_strlit("transform");
    reveal_strlit("increment");
    reveal_strlit("combine");
    reveal_strlit("data");
    assert("transform"@[0] == 't' && "increment"@[0] == 'i' && "combine"@[0] == 'c');
    assert("data"@[0] == 'd' && "data"@[3] == 'a');
}

impl AbstractService for DataProcessorService {
    fn metadata(&self) -> (m: ServiceMetadata)
        ensures
            m@ == data_processor_metadata(),
    {
        proof {
            lemma_data_operation_names();
            crate::text::lemma_normalize_path("data"@);
        }
        let m = match ServiceMetadata::new("data", "data") {
            Some(m) => m,
            None => vstd::pervasive::unreached(),
        };
        let m = m.with_description("Processes and transforms data").with_version("1.0.0");
        let ghost none = Seq::<OperationModel>::empty();
        let ghost t = OperationModel { name: "transform"@, params: seq!["data"@] };
        let ghost i = OperationModel { name: "increment"@, params: seq!["value"@] };
        let ghost c = OperationModel { name: "combine"@, params: seq!["first"@, "second"@] };
        let for_transform = names(&["data"]);
        let for_increment = names(&["value"]);
        let for_combine = names(&["first", "second"]);
        proof {
            assert(crate::service::texts(for_transform@) =~= seq!["data"@]);
            assert(crate::service::texts(for_increment@) =~= seq!["value"@]);
            assert(crate::service::texts(for_combine@) =~= seq!["first"@, "second"@]);
            crate::service::lemma_operation_index_at(none, t.name, -1);
            crate::service::lemma_operation_index_at(seq![t], i.name, -1);
            crate::service::lemma_operation_index_at(seq![t, i], c.name, -1);
            assert(none.push(t) =~= seq![t]);
            assert(seq![t].push(i) =~= seq![t, i]);
            assert(seq![t, i].push(c) =~= seq![t, i, c]);
        }
        let m = m.with_operation("transform", for_transform);
        let m = m.with_operation("increment", for_increment);
        let m = m.with_operation("combine", for_combine);
        let m = m.with_subscription(
            Some("events/math_events"),
            "on_math_events",
            SubscriptionOptions { once: false },
        );
        proof {
            assert(m@.subscriptions =~= data_processor_metadata().subscriptions);
        }
        m
    }

    fn init(&mut self, ctx: &mut RequestContext) -> (r: Result<(), HandlerError>)
        ensures
            r is Ok,
            final(self)@ == old(self)@,
            final(ctx)@ == old(ctx)@,
    {
        Ok(())
    }

    fn start(&mut self) -> (r: Result<(), HandlerError>)
        ensures
            r is Ok,
            final(self)@ == old(self)@,
    {
        Ok(())
    }

    fn stop(&mut self) -> (r: Result<(), HandlerError>)
        ensures
            r is Ok,
            final(self)@ == old(self)@,
    {
        Ok(())
    }

    fn handle_request(&mut self, request: &ServiceRequest, ctx: &mut RequestContext) -> (r: Result<
        ServiceResponse,
        HandlerError,
    >)
        ensures
            request@.operation == "transform"@ ==> {
                let data = uppercase_of(request@.params.field_text_or("data"@, Seq::empty()));
                &&& r matches Ok(response) && response@ == ok_model(ValueModel::Text(data))
                &&& final(self)@ == old(self)@
                &&& final(ctx)@ == (ContextModel {
                    commands: old(ctx)@.commands.push(
                        CommandModel::Publish {
                            topic: data_events_topic(),
                            payload: data_event("transform"@, data),
                        },
                    ),
                    ..old(ctx)@
                })
            },
            request@.operation == "increment"@ ==> {
                let value = request@.params.field_number_or("value"@, 0);
                if i32::MIN <= value <= i32::MAX && incremented(old(self)@.counter, value)
                    is Some {
                    let n = incremented(old(self)@.counter, value)->0;
                    &&& r matches Ok(response) && response@ == ok_model(ValueModel::Number(n))
                    &&& final(self)@ == (DataProcessorModel { counter: n, ..old(self)@ })
                    &&& final(ctx)@ == (ContextModel {
                        commands: old(ctx)@.commands.push(
                            CommandModel::Publish {
                                topic: data_events_topic(),
                                payload: increment_event(n, value),
                            },
                        ),
                        ..old(ctx)@
                    })
                } else {
                    r is Err && final(self)@ == old(self)@ && final(ctx)@ == old(ctx)@
                }
            },
            request@.operation == "combine"@ ==> {
                let data = combined(
                    request@.params.field_text_or("first"@, Seq::empty()),
                    request@.params.field_text_or("second"@, Seq::empty()),
                );
                &&& r matches Ok(response) && response@ == ok_model(ValueModel::Text(data))
                &&& final(self)@ == old(self)@
                &&& final(ctx)@ == (ContextModel {
                    commands: old(ctx)@.commands.push(
                        CommandModel::Publish {
                            topic: data_events_topic(),
                            payload: data_event("combine"@, data),
                        },
                    ),
                    ..old(ctx)@
                })
            },
            request@.operation != "transform"@ && request@.operation != "increment"@
                && request@.operation != "combine"@ ==> {
                &&& r matches Ok(response) && response@ == unknown_operation_model(
                    request@.operation,
                )
                &&& final(self)@ == old(self)@
                &&& final(ctx)@ == old(ctx)@
            },
    {
        proof {
            lemma_data_operation_names();
            reveal_strlit("");
            assert(""@ =~= Seq::<char>::empty());
        }
        let operation = request.operation.as_str();
        if same_text(operation, "transform") {
            let data = get_string(&request.params, "data", "");
            let transformed = self.transform(ctx, data.as_str());
            Ok(ok_response(Value::String(transformed)))
        } else if same_text(operation, "increment") {
            let value = get_number(&request.params, "value", 0);
            if value < i32::MIN as i64 || value > i32::MAX as i64 {
                return Err(HandlerError::new("value out of range"));
            }
            match self.increment_counter(ctx, value as i32) {
                Ok(n) => Ok(ok_response(Value::Number(n as i64))),
                Err(e) => Err(e),
            }
        } else if same_text(operation, "combine") {
            let first = get_string(&request.params, "first", "");
            let second = get_string(&request.params, "second", "");
            let combined = self.combine(ctx, first.as_str(), second.as_str());
            Ok(ok_response(Value::String(combined)))
        } else {
            Ok(unknown_operation(operation))
        }
    }

    fn handle_event(
        &mut self,
        handler: &str,
        topic: &str,
        payload: &Value,
        ctx: &mut RequestContext,
    ) -> (r: Result<(), HandlerError>)
        ensures
            final(ctx)@ == old(ctx)@,
            if handler@ == "on_math_events"@ {
                &&& r is Ok
                &&& final(self)@ == (DataProcessorModel {
                    events_received: noted(old(self)@.events_received, payload@),
                    ..old(self)@
                })
            } else {
                r is Err && final(self)@ == old(self)@
            },
    {
        if same_text(handler, "on_math_events") {
            self.on_math_events(payload);
            Ok(())
        } else {
            Err(HandlerError::new("unknown handler"))
        }
    }
}

/// The text that the event handler keeps of a custom event.
pub open spec fn custom_event_text(payload: ValueModel) -> Seq<char> {
    "Custom event: "@ + payload.field_text_or("message"@, "no message"@) + " at "@
        + payload.field_text_or("timestamp"@, "no timestamp"@) + " with data: "@
        + payload.field_text_or("data"@, "no data"@)
}

/// The texts of `events` as values.
pub open spec fn text_values(events: Seq<Seq<char>>) -> Seq<ValueModel> {
    Seq::new(events.len(), |i: int| ValueModel::Text(events[i]))
}

/// A service that keeps the events that it receives.
#[derive(Debug)]
pub struct EventHandlerService {
    events_received: Vec<String>,
}

impl View for EventHandlerService {
    type V = Seq<Seq<char>>;

    closed spec fn view(&self) -> Seq<Seq<char>> {
        crate::service::texts(self.events_received@)
    }
}

impl Clone for EventHandlerService {
    fn clone(&self) -> (r: EventHandlerService)
        ensures
            r@ == self@,
    {
        let mut events: Vec<String> = Vec::new();
        let mut i: usize = 0;
        while i < self.events_received.len()
            invariant
                i <= self.events_received.len(),
                events@.len() == i,
                forall|j: int| 0 <= j < i ==> (#[trigger] events@[j])@ == self@[j],
            decreases self.events_received.len() - i,
        {
            events.push(self.events_received[i].clone());
            i += 1;
        }
        let r = EventHandlerService { events_received: events };
        assert(r@ =~= self@);
        r
    }
}

impl Clone for DataProcessorService {
    fn clone(&self) -> (r: DataProcessorService)
        ensures
            r@ == self@,
    {
        let mut events: Vec<String> = Vec::new();
        let mut i: usize = 0;
        while i < self.events_received.len()
            invariant
                i <= self.events_received.len(),
                events@.len() == i,
                forall|j: int|
                    0 <= j < i ==> (#[trigger] events@[j])@ == self@.events_received[j],
            decreases self.events_received.len() - i,
        {
            events.push(self.events_received[i].clone());
            i += 1;
        }
        let r = DataProcessorService { counter: self.counter, events_received: events };
        assert(r@.events_received =~= self@.events_received);
        r
    }
}

impl EventHandlerService {
    /// An event handler that has received nothing.
    pub fn new() -> (r: EventHandlerService)
        ensures
            r@ == Seq::<Seq<char>>::empty(),
    {
        let r = EventHandlerService { events_received: Vec::new() };
        assert(r@ =~= Seq::<Seq<char>>::empty());
        r
    }

    /// The events that the service has kept, oldest first.
    pub fn events_received(&self) -> (r: &Vec<String>)
        ensures
            crate::service::texts(r@) == self@,
    {
        &self.events_received
    }

    /// Receives an event of the service's own text events topic: keeps the
    /// text that it holds under `data`, unless that is empty.
    pub fn handle_text_events(&mut self, payload: &Value)
        ensures
            final(self)@ == noted(old(self)@, payload@),
    {
        note(&mut self.events_received, payload);
    }

    /// Receives an event of the math events topic: keeps the text that it
    /// holds under `data`, unless that is empty.
    pub fn handle_math_events(&mut self, payload: &Value)
        ensures
            final(self)@ == noted(old(self)@, payload@),
    {
        note(&mut self.events_received, payload);
    }

    /// Receives an event that was published to the service directly: keeps
    /// a line with its message, its timestamp and its data, with a stand-in
    /// for each that is missing.
    pub fn custom(&mut self, payload: &Value)
        ensures
            final(self)@ == old(self)@.push(custom_event_text(payload@)),
    {
        let ghost before = self@;
        let message = get_string(payload, "message", "no message");
        let timestamp = get_string(payload, "timestamp", "no timestamp");
        let data = get_string(payload, "data", "no data");
        let mut text = "Custom event: ".to_owned();
        text.append(message.as_str());
        text.append(" at ");
        text.append(timestamp.as_str());
        text.append(" with data: ");
        text.append(data.as_str());
        self.events_received.push(text);
        assert(self@ =~= before.push(custom_event_text(payload@)));
    }

    /// The events that the service has kept, oldest first, as values.
    pub fn get_events(&self) -> (r: Vec<Value>)
        ensures
            Value::Array(r)@ == ValueModel::Array(text_values(self@)),
    {
        let mut out: Vec<Value> = Vec::new();
        let mut i: usize = 0;
        while i < self.events_received.len()
            invariant
                i <= self.events_received.len(),
                out@.len() == i,
                forall|j: int| 0 <= j < i ==> (#[trigger] out@[j])@ == ValueModel::Text(self@[j]),
            decreases self.events_received.len() - i,
        {
            out.push(Value::String(self.events_received[i].clone()));
            i += 1;
        }
        assert(Value::Array(out)@->Array_0 =~= text_values(self@));
        out
    }
}

/// What the event handler says of itself.
pub open spec fn event_handler_metadata() -> MetadataModel {
    MetadataModel {
        name: "EventHandlerService"@,
        path: "events"@,
        description: "Handles various system events"@,
        version: "1.0.0"@,
        operations: seq![OperationModel { name: "get_events"@, params: Seq::empty() }],
        subscriptions: seq![
            DeclaredSubscriptionModel {
                topic: Some("text_events"@),
                handler: "handle_text_events"@,
                once: false,
            },
            DeclaredSubscriptionModel {
                topic: Some("events/math_events"@),
                handler: "handle_math_events"@,
                once: false,
            },
            DeclaredSubscriptionModel { topic: None, handler: "custom"@, once: false },
        ],
    }
}

/// The names of the event handler's handlers differ from each other.
pub proof fn lemma_event_handler_names()
    ensures
        "handle_text_events"@ != "handle_math_events"@,
        "handle_text_events"@ != "custom"@,
        "handle_math_events"@ != "custom"@,
        "events"@.len() == 6,
        crate::text::is_normal("events"@),
{
    reveal_strlit("handle_text_events");
    reveal_strlit("handle_math_events");
    reveal_strlit("custom");
    reveal_strlit("events");
    assert("handle_text_events"@[7] == 't' && "handle_math_events"@[7] == 'm');
    assert("handle_text_events"@.len() == 18 && "handle_math_events"@.len() == 18
        && "custom"@.len() == 6);
    assert("events"@[0] == 'e' && "events"@[5] == 's');
}

impl AbstractService for EventHandlerService {
    fn metadata(&self) -> (m: ServiceMetadata)
        ensures
            m@ == event_handler_metadata(),
    {
        proof {
            lemma_event_handler_names();
            crate::text::lemma_normalize_path("events"@);
        }
        let m = match ServiceMetadata::new("EventHandlerService", "events") {
            Some(m) => m,
            None => vstd::pervasive::unreached(),
        };
        let m = m.with_description("Handles various system events").with_version("1.0.0");
        let none = names(&[]);
        proof {
            let op = OperationModel { name: "get_events"@, params: Seq::empty() };
            assert(crate::service::texts(none@) =~= Seq::<Seq<char>>::empty());
            crate::service::lemma_operation_index_at(Seq::empty(), op.name, -1);
            assert(Seq::<OperationModel>::empty().push(op) =~= seq![op]);
        }
        let m = m.with_operation("get_events", none);
        let m = m.with_subscription(
            Some("text_events"),
            "handle_text_events",
            SubscriptionOptions { once: false },
        );
        let m = m.with_subscription(
            Some("events/math_events"),
            "handle_math_events",
            SubscriptionOptions { once: false },
        );
        let m = m.with_subscription(None, "custom", SubscriptionOptions { once: false });
        proof {
            assert(m@.subscriptions =~= event_handler_metadata().subscriptions);
        }
        m
    }

    fn init(&mut self, ctx: &mut RequestContext) -> (r: Result<(), HandlerError>)
        ensures
            r is Ok,
            final(self)@ == old(self)@,
            final(ctx)@ == old(ctx)@,
    {
        Ok(())
    }

    fn start(&mut self) -> (r: Result<(), HandlerError>)
        ensures
            r is Ok,
            final(self)@ == old(self)@,
    {
        Ok(())
    }

    fn stop(&mut self) -> (r: Result<(), HandlerError>)
        ensures
            r is Ok,
            final(self)@ == old(self)@,
    {
        Ok(())
    }

    fn handle_request(&mut self, request: &ServiceRequest, ctx: &mut RequestContext) -> (r: Result<
        ServiceResponse,
        HandlerError,
    >)
        ensures
            final(self)@ == old(self)@,
            final(ctx)@ == old(ctx)@,
            r matches Ok(response) && response@ == if request@.operation == "get_events"@ {
                ok_model(ValueModel::Array(text_values(old(self)@)))
            } else {
                unknown_operation_model(request@.operation)
            },
    {
        let operation = request.operation.as_str();
        if same_text(operation, "get_events") {
            Ok(ok_response(Value::Array(self.get_events())))
        } else {
            Ok(unknown_operation(operation))
        }
    }

    fn handle_event(
        &mut self,
        handler: &str,
        topic: &str,
        payload: &Value,
        ctx: &mut RequestContext,
    ) -> (r: Result<(), HandlerError>)
        ensures
            final(ctx)@ == old(ctx)@,
            if handler@ == "handle_text_events"@ || handler@ == "handle_math_events"@ {
                r is Ok && final(self)@ == noted(old(self)@, payload@)
            } else if handler@ == "custom"@ {
                r is Ok && final(self)@ == old(self)@.push(custom_event_text(payload@))
            } else {
                r is Err && final(self)@ == old(self)@
            },
    {
        proof {
            lemma_event_handler_names();
        }
        if same_text(handler, "handle_text_events") {
            self.handle_text_events(payload);
            Ok(())
        } else if same_text(handler, "handle_math_events") {
            self.handle_math_events(payload);
            Ok(())
        } else if same_text(handler, "custom") {
            self.custom(payload);
            Ok(())
        } else {
            Err(HandlerError::new("unknown handler"))
        }
    }
}

} // verus!
