//! Two services that serve requests from a data map: what the context
//! carries, with the parameters of the request put into it.

use crate::demo::actions::incremented;
use crate::service::{
    names, unknown_operation, unknown_operation_model, AbstractService, CommandModel,
    ContextModel, HandlerError, MetadataModel, OperationModel, RequestContext, ResponseModel,
    ResponseStatus, ServiceMetadata, ServiceRequest, ServiceResponse,
};
use crate::text::{decimal, decimal_text, same_text, to_uppercase, uppercase_of};
use crate::value::{get_number, merge, rendering, single, Value, ValueModel};
use vstd::prelude::*;
use vstd::string::StringExecFns;

verus! {

/// The data map that a handler works on: the data of the context with the
/// parameters of the request put into it. What is no mapping counts as the
/// empty mapping.
pub open spec fn data_map(context_data: ValueModel, params: ValueModel) -> ValueModel {
    ValueModel::Mapping(merge(context_data.entries(), params.entries()))
}

/// The response that hands out `data` with the message `message`.
pub open spec fn success_model(message: Seq<char>, data: ValueModel) -> ResponseModel {
    ResponseModel { status: ResponseStatus::Success, message, data: Some(data) }
}

/// The response that says why a request failed.
pub open spec fn error_model(message: Seq<char>) -> ResponseModel {
    ResponseModel { status: ResponseStatus::Error, message, data: None }
}

/// The result of transforming `input`.
pub open spec fn transformed(input: Seq<char>) -> Seq<char> {
    "Transformed: "@ + uppercase_of(input)
}

/// The result of combining two texts.
pub open spec fn combination(first: Seq<char>, second: Seq<char>) -> Seq<char> {
    "Combined: "@ + first + " + "@ + second
}

/// What the data processor holds.
pub struct DataProcessorModel {
    pub name: Seq<char>,
    pub path: Seq<char>,
    pub description: Seq<char>,
    pub version: Seq<char>,
    pub counter: int,
}

/// A service that transforms and combines texts and keeps a counter.
#[derive(Debug)]
pub struct DataProcessorService {
    name: String,
    path: String,
    description: String,
    version: String,
    counter: i32,
}

impl View for DataProcessorService {
    type V = DataProcessorModel;

    closed spec fn view(&self) -> DataProcessorModel {
        DataProcessorModel {
            name: self.name@,
            path: self.path@,
            description: self.description@,
            version: self.version@,
            counter: self.counter as int,
        }
    }
}

impl Clone for DataProcessorService {
    fn clone(&self) -> (r: DataProcessorService)
        ensures
            r@ == self@,
    {
        proof {
            use_type_invariant(self);
        }
        DataProcessorService {
            name: self.name.clone(),
            path: self.path.clone(),
            description: self.description.clone(),
            version: self.version.clone(),
            counter: self.counter,
        }
    }
}

/// What a transformation does, seen from outside: the response, and the
/// event that is published, if the request had what it takes.
pub open spec fn transform_outcome(data: ValueModel) -> (ResponseModel, Option<CommandModel>) {
    match data.text_field("input"@) {
        Some(input) => (
            success_model(
                "String transformed successfully"@,
                single("result"@, ValueModel::Text(transformed(input))),
            ),
            Some(
                CommandModel::Publish {
                    topic: "text_event"@,
                    payload: single("text"@, ValueModel::Text(transformed(input))),
                },
            ),
        ),
        None => (error_model("Missing input parameter"@), None),
    }
}

/// What a combination does, seen from outside.
pub open spec fn combine_outcome(data: ValueModel) -> (ResponseModel, Option<CommandModel>) {
    match data.text_field("str1"@) {
        None => (error_model("Missing str1 parameter"@), None),
        Some(first) => match data.text_field("str2"@) {
            None => (error_model("Missing str2 parameter"@), None),
            Some(second) => (
                success_model(
                    "Strings combined successfully"@,
                    single("result"@, ValueModel::Text(combination(first, second))),
                ),
                Some(
                    CommandModel::Publish {
                        topic: "custom_event"@,
                        payload: ValueModel::Text(combination(first, second)),
                    },
                ),
            ),
        },
    }
}

/// The number that an increment adds `value + 1` to a counter for: the
/// number under `value`, or 0 where the data holds none.
pub open spec fn increment_value(data: ValueModel) -> int {
    data.field_number_or("value"@, 0)
}

/// What an increment by `value + 1` does, seen from outside, for a counter
/// that stands at `counter`.
pub open spec fn increment_outcome(counter: int, value: int) -> (
    ResponseModel,
    Option<CommandModel>,
) {
    match incremented(counter, value) {
        Some(n) => (
            success_model(
                "Counter incremented successfully"@,
                single("counter"@, ValueModel::Number(n)),
            ),
            Some(
                CommandModel::Publish {
                    topic: "math_event"@,
                    payload: single("value"@, ValueModel::Number(n)),
                },
            ),
        ),
        None => (error_model("Counter overflow"@), None),
    }
}

/// The commands of a context after a handler asked for `asked`.
pub open spec fn with_command(ctx: ContextModel, asked: Option<CommandModel>) -> ContextModel {
    match asked {
        Some(c) => ContextModel { commands: ctx.commands.push(c), ..ctx },
        None => ctx,
    }
}

/// The data processor as it is made.
pub open spec fn new_data_processor() -> DataProcessorModel {
    DataProcessorModel {
        name: "data"@,
        path: "data"@,
        description: "A service for processing data operations"@,
        version: "1.0.0"@,
        counter: 0,
    }
}

impl DataProcessorService {
    #[verifier::type_invariant]
    spec fn inv(&self) -> bool {
        self@ == (DataProcessorModel { counter: self@.counter, ..new_data_processor() })
    }

    /// A data processor with its counter at 0.
    pub fn new() -> (r: DataProcessorService)
        ensures
            r@ == new_data_processor(),
    {
        DataProcessorService {
            name: "data".to_owned(),
            path: "data".to_owned(),
            description: "A service for processing data operations".to_owned(),
            version: "1.0.0".to_owned(),
            counter: 0,
        }
    }

    /// Where the counter stands.
    pub fn counter(&self) -> (r: i32)
        ensures
            r == self@.counter,
    {
        self.counter
    }

    /// Ends a transformation whose result is `result`: publishes the result
    /// as a text event and makes the response.
    pub fn report_transformed(&self, result: &str, ctx: &mut RequestContext) -> (r:
        ServiceResponse)
        ensures
            r@ == success_model(
                "String transformed successfully"@,
                single("result"@, ValueModel::Text(result@)),
            ),
            final(ctx)@ == with_command(
                old(ctx)@,
                Some(
                    CommandModel::Publish {
                        topic: "text_event"@,
                        payload: single("text"@, ValueModel::Text(result@)),
                    },
                ),
            ),
    {
        ctx.publish("text_event", Value::single("text", Value::text(result)));
        ServiceResponse::success(
            "String transformed successfully",
            Some(Value::single("result", Value::text(result))),
        )
    }

    /// Turns the text under `input` into upper case, publishes the result
    /// as a text event, and hands it out. A request without a text under
    /// `input` fails.
    pub fn transform_string(&self, data: &Value, ctx: &mut RequestContext) -> (r: ServiceResponse)
        ensures
            r@ == transform_outcome(data@).0,
            final(ctx)@ == with_command(old(ctx)@, transform_outcome(data@).1),
    {
        let input = match data.text_field("input") {
            Some(s) => s,
            None => {
                return ServiceResponse::error("Missing input parameter");
            },
        };
        let upper = to_uppercase(input);
        let result = crate::text::joined("Transformed: ", upper.as_str());
        self.report_transformed(result.as_str(), ctx)
    }

    /// Adds the number under `value`, and one more, to the counter,
    /// publishes where the counter stands then as a math event, and hands
    /// that out. Data without a number under `value` counts as 0. Where the
    /// counter cannot hold the sum, it stays as it is and the request fails.
    pub fn increment_counter(&mut self, data: &Value, ctx: &mut RequestContext) -> (r:
        ServiceResponse)
        ensures
            r@ == increment_outcome(old(self)@.counter, increment_value(data@)).0,
            final(ctx)@ == with_command(
                old(ctx)@,
                increment_outcome(old(self)@.counter, increment_value(data@)).1,
            ),
            final(self)@ == (DataProcessorModel {
                counter: match incremented(old(self)@.counter, increment_value(data@)) {
                    Some(n) => n,
                    None => old(self)@.counter,
                },
                ..old(self)@
            }),
    {
        proof {
            use_type_invariant(&*self);
        }
        let value = get_number(data, "value", 0);
        let sum: i128 = self.counter as i128 + value as i128 + 1;
        if sum < i32::MIN as i128 || sum > i32::MAX as i128 {
            return ServiceResponse::error("Counter overflow");
        }
        self.counter = sum as i32;
        let reached = self.counter as i64;
        ctx.publish("math_event", Value::single("value", Value::Number(reached)));
        ServiceResponse::success(
            "Counter incremented successfully",
            Some(Value::single("counter", Value::Number(reached))),
        )
    }

    /// Puts the texts under `str1` and `str2` together, publishes the
    /// result as a custom event, and hands it out. A request without one of
    /// the two texts fails.
    pub fn combine_strings(&self, data: &Value, ctx: &mut RequestContext) -> (r: ServiceResponse)
        ensures
            r@ == combine_outcome(data@).0,
            final(ctx)@ == with_command(old(ctx)@, combine_outcome(data@).1),
    {
        let first = match data.text_field("str1") {
            Some(s) => s,
            None => {
                return ServiceResponse::error("Missing str1 parameter");
            },
        };
        let second = match data.text_field("str2") {
            Some(s) => s,
            None => {
                return ServiceResponse::error("Missing str2 parameter");
            },
        };
        let mut result = "Combined: ".to_owned();
        result.append(first);
        result.append(" + ");
        result.append(second);
        ctx.publish("custom_event", Value::text(result.as_str()));
        ServiceResponse::success(
            "Strings combined successfully",
            Some(Value::single("result", Value::String(result))),
        )
    }
}

/// What the data processor says of itself.
pub open spec fn data_processor_metadata() -> MetadataModel {
    MetadataModel {
        name: "data"@,
        path: "data"@,
        description: "A service for processing data operations"@,
        version: "1.0.0"@,
        operations: seq![
            OperationModel { name: "transform"@, params: seq!["input"@] },
            OperationModel { name: "increment"@, params: seq!["value"@] },
            OperationModel { name: "combine"@, params: seq!["str1"@, "str2"@] },
        ],
        subscriptions: Seq::empty(),
    }
}

/// The path of the data processor is in normal form, and the names of its
/// operations differ from each other.
pub proof fn lemma_data_processor_names()
    ensures
        crate::text::normalize_path("data"@) == "data"@,
        "data"@.len() > 0,
        "transform"@ != "increment"@,
        "transform"@ != "combine"@,
        "increment"@ != "combine"@,
{
    reveal_strlit("transform");
    reveal_strlit("increment");
    reveal_strlit("combine");
    reveal_strlit("data");
    assert("transform"@[0] == 't' && "increment"@[0] == 'i' && "combine"@[0] == 'c');
    assert("data"@[0] == 'd' && "data"@[3] == 'a');
    crate::text::lemma_normalize_path("data"@);
}

impl AbstractService for DataProcessorService {
    fn metadata(&self) -> (m: ServiceMetadata)
        ensures
            m@ == data_processor_metadata(),
    {
        proof {
            use_type_invariant(self);
            lemma_data_processor_names();
        }
        let m = match ServiceMetadata::new(self.name.as_str(), self.path.as_str()) {
            Some(m) => m,
            None => vstd::pervasive::unreached(),
        };
        let m = m.with_description(self.description.as_str()).with_version(
            self.version.as_str(),
        );
        let ghost none = Seq::<OperationModel>::empty();
        let ghost t = OperationModel { name: "transform"@, params: seq!["input"@] };
        let ghost i = OperationModel { name: "increment"@, params: seq!["value"@] };
        let ghost c = OperationModel { name: "combine"@, params: seq!["str1"@, "str2"@] };
        let for_transform = names(&["input"]);
        let for_increment = names(&["value"]);
        let for_combine = names(&["str1", "str2"]);
        proof {
            assert(crate::service::texts(for_transform@) =~= seq!["input"@]);
            assert(crate::service::texts(for_increment@) =~= seq!["value"@]);
            assert(crate::service::texts(for_combine@) =~= seq!["str1"@, "str2"@]);
            crate::service::lemma_operation_index_at(none, t.name, -1);
            crate::service::lemma_operation_index_at(seq![t], i.name, -1);
            crate::service::lemma_operation_index_at(seq![t, i], c.name, -1);
            assert(none.push(t) =~= seq![t]);
            assert(seq![t].push(i) =~= seq![t, i]);
            assert(seq![t, i].push(c) =~= seq![t, i, c]);
        }
        let m = m.with_operation("transform", for_transform);
        let m = m.with_operation("increment", for_increment);
        m.with_operation("combine", for_combine)
    }

    fn init(&mut self, ctx: &mut RequestContext) -> (r: Result<(), HandlerError>)
        ensures
            r is Ok,
            final(self)@ == old(self)@,
            final(ctx)@ == old(ctx)@,
    {
        Ok(())
    }

    fn start(&mut self) -> (r: Result<(), HandlerError>)
        ensures
            r is Ok,
            final(self)@ == old(self)@,
    {
        Ok(())
    }

    fn stop(&mut self) -> (r: Result<(), HandlerError>)
        ensures
            r is Ok,
            final(self)@ == old(self)@,
    {
        Ok(())
    }

    /// Serves a request: puts the parameters of the request into the data
    /// of the context, and hands the data map to the handler of the
    /// operation. A request for an operation that the service does not have
    /// gets an error response.
    fn handle_request(&mut self, request: &ServiceRequest, ctx: &mut RequestContext) -> (r: Result<
        ServiceResponse,
        HandlerError,
    >)
        ensures
            ({
                let data = data_map(old(ctx)@.data, request@.params);
                let outcome = if request@.operation == "transform"@ {
                    transform_outcome(data)
                } else if request@.operation == "increment"@ {
                    increment_outcome(old(self)@.counter, increment_value(data))
                } else if request@.operation == "combine"@ {
                    combine_outcome(data)
                } else {
                    (unknown_operation_model(request@.operation), None)
                };
                &&& r matches Ok(response) && response@ == outcome.0
                &&& final(ctx)@ == with_command(old(ctx)@, outcome.1)
                &&& final(self)@ == (DataProcessorModel {
                    counter: if request@.operation == "increment"@ {
                        match incremented(old(self)@.counter, increment_value(data)) {
                            Some(n) => n,
                            None => old(self)@.counter,
                        }
                    } else {
                        old(self)@.counter
                    },
                    ..old(self)@
                })
            }),
    {
        proof {
            lemma_data_processor_names();
        }
        let data = ctx.data().merged(&request.params);
        let operation = request.operation.as_str();
        if same_text(operation, "transform") {
            Ok(self.transform_string(&data, ctx))
        } else if same_text(operation, "increment") {
            Ok(self.increment_counter(&data, ctx))
        } else if same_text(operation, "combine") {
            Ok(self.combine_strings(&data, ctx))
        } else {
            Ok(unknown_operation(operation))
        }
    }

    /// The service subscribes to nothing: an event for any handler is
    /// refused as one for a handler that the service does not have.
    fn handle_event(
        &mut self,
        handler: &str,
        topic: &str,
        payload: &Value,
        ctx: &mut RequestContext,
    ) -> (r: Result<(), HandlerError>)
        ensures
            r matches Err(e) && e.message@ == "unknown handler"@,
            final(self)@ == old(self)@,
            final(ctx)@ == old(ctx)@,
    {
        Err(HandlerError::new("unknown handler"))
    }
}

/// What the event handler holds.
pub struct EventHandlerModel {
    pub name: Seq<char>,
    pub path: Seq<char>,
    pub description: Seq<char>,
    pub version: Seq<char>,
    pub received_events: Seq<Seq<char>>,
}

/// A service that keeps a line for each event that it receives.
#[derive(Debug)]
pub struct EventHandlerService {
    name: String,
    path: String,
    description: String,
    version: String,
    received_events: Vec<String>,
}

impl View for EventHandlerService {
    type V = EventHandlerModel;

    closed spec fn view(&self) -> EventHandlerModel {
        EventHandlerModel {
            name: self.name@,
            path: self.path@,
            description: self.description@,
            version: self.version@,
            received_events: crate::service::texts(self.received_events@),
        }
    }
}

/// The event handler as it is made.
pub open spec fn new_event_handler() -> EventHandlerModel {
    EventHandlerModel {
        name: "events"@,
        path: "events"@,
        description: "A service for handling various events"@,
        version: "1.0.0"@,
        received_events: Seq::empty(),
    }
}

/// The lines of an event handler after a text event came in: a line for
/// the text that the event holds under `text`, if it holds one.
pub open spec fn after_text_event(lines: Seq<Seq<char>>, data: ValueModel) -> Seq<Seq<char>> {
    match data.text_field("text"@) {
        Some(text) => lines.push("Received text event: "@ + text),
        None => lines,
    }
}

/// The lines of an event handler after a math event came in: a line for
/// the number that the event holds under `value`, if it holds one.
pub open spec fn after_math_event(lines: Seq<Seq<char>>, data: ValueModel) -> Seq<Seq<char>> {
    match data.number_field("value"@) {
        Some(n) => lines.push("Received math event with value: "@ + decimal_text(n)),
        None => lines,
    }
}

/// The lines of an event handler after a custom event came in.
pub open spec fn after_custom_event(lines: Seq<Seq<char>>, data: ValueModel) -> Seq<Seq<char>> {
    lines.push("Received custom event: "@ + rendering(data))
}

/// What the event handler asks of the host when it is initialized: one
/// subscription for each kind of event.
pub open spec fn event_subscriptions() -> Seq<CommandModel> {
    seq![
        CommandModel::Subscribe {
            topic: "text_event"@,
            handler: "handle_text_event"@,
            once: false,
        },
        CommandModel::Subscribe {
            topic: "math_event"@,
            handler: "handle_math_event"@,
            once: false,
        },
        CommandModel::Subscribe {
            topic: "custom_event"@,
            handler: "handle_custom_event"@,
            once: false,
        },
    ]
}

/// The response that hands out the lines of an event handler.
pub open spec fn events_response(lines: Seq<Seq<char>>) -> ResponseModel {
    success_model(
        "Events retrieved successfully"@,
        single("events"@, ValueModel::Array(crate::demo::actions::text_values(lines))),
    )
}

impl Clone for EventHandlerService {
    fn clone(&self) -> (r: EventHandlerService)
        ensures
            r@ == self@,
    {
        proof {
            use_type_invariant(self);
        }
        let mut lines: Vec<String> = Vec::new();
        let mut i: usize = 0;
        while i < self.received_events.len()
            invariant
                i <= self.received_events.len(),
                lines@.len() == i,
                forall|j: int|
                    0 <= j < i ==> (#[trigger] lines@[j])@ == self@.received_events[j],
            decreases self.received_events.len() - i,
        {
            lines.push(self.received_events[i].clone());
            i += 1;
        }
        proof {
            assert(crate::service::texts(lines@) =~= self@.received_events);
        }
        EventHandlerService {
            name: self.name.clone(),
            path: self.path.clone(),
            description: self.description.clone(),
            version: self.version.clone(),
            received_events: lines,
        }
    }
}

impl EventHandlerService {
    #[verifier::type_invariant]
    spec fn inv(&self) -> bool {
        self@ == (EventHandlerModel {
            received_events: self@.received_events,
            ..new_event_handler()
        })
    }

    /// An event handler that has received nothing.
    pub fn new() -> (r: EventHandlerService)
        ensures
            r@ == new_event_handler(),
    {
        let r = EventHandlerService {
            name: "events".to_owned(),
            path: "events".to_owned(),
            description: "A service for handling various events".to_owned(),
            version: "1.0.0".to_owned(),
            received_events: Vec::new(),
        };
        assert(r@.received_events =~= Seq::<Seq<char>>::empty());
        r
    }

    /// The lines that the service has kept, oldest first.
    pub fn received_events(&self) -> (r: &Vec<String>)
        ensures
            crate::service::texts(r@) == self@.received_events,
    {
        &self.received_events
    }

    /// Keeps one more line.
    fn keep(&mut self, line: String)
        ensures
            final(self)@ == (EventHandlerModel {
                received_events: old(self)@.received_events.push(line@),
                ..old(self)@
            }),
    {
        proof {
            use_type_invariant(&*self);
        }
        let ghost before = self@.received_events;
        let mut lines: Vec<String> = Vec::new();
        core::mem::swap(&mut self.received_events, &mut lines);
        lines.push(line);
        proof {
            assert(crate::service::texts(lines@) =~= before.push(line@));
        }
        self.received_events = lines;
    }

    /// Receives a text event: keeps a line for the text that it holds under
    /// `text`. An event that holds no text there is passed over.
    pub fn handle_text_event(&mut self, data: &Value)
        ensures
            final(self)@ == (EventHandlerModel {
                received_events: after_text_event(old(self)@.received_events, data@),
                ..old(self)@
            }),
    {
        match data.text_field("text") {
            Some(text) => {
                let line = crate::text::joined("Received text event: ", text);
                self.keep(line);
            },
            None => {},
        }
    }

    /// Receives a math event: keeps a line for the number that it holds
    /// under `value`. An event that holds no number there is passed over.
    pub fn handle_math_event(&mut self, data: &Value)
        ensures
            final(self)@ == (EventHandlerModel {
                received_events: after_math_event(old(self)@.received_events, data@),
                ..old(self)@
            }),
    {
        match data.number_field("value") {
            Some(n) => {
                let number = decimal(n);
                let line = crate::text::joined("Received math event with value: ", number.as_str());
                self.keep(line);
            },
            None => {},
        }
    }

    /// Receives a custom event: keeps a line with the event written out.
    pub fn handle_custom_event(&mut self, data: &Value)
        ensures
            final(self)@ == (EventHandlerModel {
                received_events: after_custom_event(old(self)@.received_events, data@),
                ..old(self)@
            }),
    {
        let written = data.render();
        let line = crate::text::joined("Received custom event: ", written.as_str());
        self.keep(line);
    }

    /// Hands out the lines that the service has kept, oldest first.
    pub fn get_events(&self) -> (r: ServiceResponse)
        ensures
            r@ == events_response(self@.received_events),
    {
        let mut out: Vec<Value> = Vec::new();
        let mut i: usize = 0;
        while i < self.received_events.len()
            invariant
                i <= self.received_events.len(),
                out@.len() == i,
                forall|j: int|
                    0 <= j < i ==> (#[trigger] out@[j])@ == ValueModel::Text(
                        self@.received_events[j],
                    ),
            decreases self.received_events.len() - i,
        {
            out.push(Value::String(self.received_events[i].clone()));
            i += 1;
        }
        let events = Value::Array(out);
        assert(events@->Array_0 =~= crate::demo::actions::text_values(self@.received_events));
        ServiceResponse::success(
            "Events retrieved successfully",
            Some(Value::single("events", events)),
        )
    }
}

/// What the event handler says of itself.
pub open spec fn event_handler_metadata() -> MetadataModel {
    MetadataModel {
        name: "events"@,
        path: "events"@,
        description: "A service for handling various events"@,
        version: "1.0.0"@,
        operations: seq![OperationModel { name: "get_events"@, params: Seq::empty() }],
        subscriptions: Seq::empty(),
    }
}

/// The path of the event handler is in normal form, and the names of its
/// handlers differ from each other.
pub proof fn lemma_event_handler_names()
    ensures
        crate::text::normalize_path("events"@) == "events"@,
        "events"@.len() > 0,
        "handle_text_event"@ != "handle_math_event"@,
        "handle_text_event"@ != "handle_custom_event"@,
        "handle_math_event"@ != "handle_custom_event"@,
{
    reveal_strlit("handle_text_event");
    reveal_strlit("handle_math_event");
    reveal_strlit("handle_custom_event");
    reveal_strlit("events");
    assert("handle_text_event"@[7] == 't' && "handle_math_event"@[7] == 'm'
        && "handle_custom_event"@[7] == 'c');
    assert("events"@[0] == 'e' && "events"@[5] == 's');
    crate::text::lemma_normalize_path("events"@);
}

impl AbstractService for EventHandlerService {
    fn metadata(&self) -> (m: ServiceMetadata)
        ensures
            m@ == event_handler_metadata(),
    {
        proof {
            use_type_invariant(self);
            lemma_event_handler_names();
        }
        let m = match ServiceMetadata::new(self.name.as_str(), self.path.as_str()) {
            Some(m) => m,
            None => vstd::pervasive::unreached(),
        };
        let m = m.with_description(self.description.as_str()).with_version(
            self.version.as_str(),
        );
        let none = names(&[]);
        proof {
            let op = OperationModel { name: "get_events"@, params: Seq::empty() };
            assert(crate::service::texts(none@) =~= Seq::<Seq<char>>::empty());
            crate::service::lemma_operation_index_at(Seq::empty(), op.name, -1);
            assert(Seq::<OperationModel>::empty().push(op) =~= seq![op]);
        }
        m.with_operation("get_events", none)
    }

    /// Subscribes the service's handlers: one to each kind of event.
    fn init(&mut self, ctx: &mut RequestContext) -> (r: Result<(), HandlerError>)
        ensures
            r is Ok,
            final(self)@ == old(self)@,
            final(ctx)@ == (ContextModel {
                commands: old(ctx)@.commands + event_subscriptions(),
                ..old(ctx)@
            }),
    {
        let ghost before = ctx@.commands;
        ctx.subscribe("text_event", "handle_text_event");
        ctx.subscribe("math_event", "handle_math_event");
        ctx.subscribe("custom_event", "handle_custom_event");
        proof {
            assert(ctx@.commands =~= before + event_subscriptions());
        }
        Ok(())
    }

    fn start(&mut self) -> (r: Result<(), HandlerError>)
        ensures
            r is Ok,
            final(self)@ == old(self)@,
    {
        Ok(())
    }

    fn stop(&mut self) -> (r: Result<(), HandlerError>)
        ensures
            r is Ok,
            final(self)@ == old(self)@,
    {
        Ok(())
    }

    fn handle_request(&mut self, request: &ServiceRequest, ctx: &mut RequestContext) -> (r: Result<
        ServiceResponse,
        HandlerError,
    >)
        ensures
            final(self)@ == old(self)@,
            final(ctx)@ == old(ctx)@,
            r matches Ok(response) && response@ == if request@.operation == "get_events"@ {
                events_response(old(self)@.received_events)
            } else {
                unknown_operation_model(request@.operation)
            },
    {
        let operation = request.operation.as_str();
        if same_text(operation, "get_events") {
            Ok(self.get_events())
        } else {
            Ok(unknown_operation(operation))
        }
    }

    fn handle_event(
        &mut self,
        handler: &str,
        topic: &str,
        payload: &Value,
        ctx: &mut RequestContext,
    ) -> (r: Result<(), HandlerError>)
        ensures
            final(ctx)@ == old(ctx)@,
            if handler@ == "handle_text_event"@ {
                r is Ok && final(self)@ == (EventHandlerModel {
                    received_events: after_text_event(old(self)@.received_events, payload@),
                    ..old(self)@
                })
            } else if handler@ == "handle_math_event"@ {
                r is Ok && final(self)@ == (EventHandlerModel {
                    received_events: after_math_event(old(self)@.received_events, payload@),
                    ..old(self)@
                })
            } else if handler@ == "handle_custom_event"@ {
                r is Ok && final(self)@ == (EventHandlerModel {
                    received_events: after_custom_event(old(self)@.received_events, payload@),
                    ..old(self)@
                })
            } else {
                r is Err && final(self)@ == old(self)@
            },
    {
        proof {
            lemma_event_handler_names();
        }
        if same_text(handler, "handle_text_event") {
            self.handle_text_event(payload);
            Ok(())
        } else if same_text(handler, "handle_math_event") {
            self.handle_math_event(payload);
            Ok(())
        } else if same_text(handler, "handle_custom_event") {
            self.handle_custom_event(payload);
            Ok(())
        } else {
            Err(HandlerError::new("unknown handler"))
        }
    }
}

} // verus!
