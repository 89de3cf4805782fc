//! What a service is to the host: its metadata, its operation table and its
//! declared subscriptions, the envelopes of a request and a response, and the
//! hooks that the host calls.

use crate::event_bus::{SubscriptionId, SubscriptionOptions};
use crate::text::{is_normal, lemma_normalize_path, normalize_path, normalized, same_text};
use crate::value::{Value, ValueModel};
use vstd::prelude::*;

verus! {

/// The texts that a vector of strings holds.
pub open spec fn texts(v: Seq<String>) -> Seq<Seq<char>> {
    Seq::new(v.len(), |i: int| v[i]@)
}

/// The names that a slice holds, as owned strings.
pub fn names(list: &[&str]) -> (r: Vec<String>)
    ensures
        texts(r@) == Seq::new(list@.len(), |i: int| list@[i]@),
{
    let mut r: Vec<String> = Vec::new();
    let mut i: usize = 0;
    while i < list.len()
        invariant
            i <= list.len(),
            r@.len() == i,
            forall|j: int| 0 <= j < i ==> (#[trigger] r@[j])@ == list@[j]@,
        decreases list.len() - i,
    {
        r.push(list[i].to_owned());
        i += 1;
    }
    assert(texts(r@) =~= Seq::new(list@.len(), |i: int| list@[i]@));
    r
}

/// An operation of a service, as its table declares it.
pub struct OperationModel {
    pub name: Seq<char>,
    /// The names of the parameters, in order.
    pub params: Seq<Seq<char>>,
}

/// A subscription that a service declares when it is built. It becomes
/// active when the service is initialized.
pub struct DeclaredSubscriptionModel {
    /// The topic; a service that names none subscribes to the channel of its
    /// own that carries the handler's name.
    pub topic: Option<Seq<char>>,
    pub handler: Seq<char>,
    pub once: bool,
}

impl DeclaredSubscriptionModel {
    /// The topic that the subscription is made on.
    pub open spec fn effective_topic(self) -> Seq<char> {
        match self.topic {
            Some(t) => t,
            None => self.handler,
        }
    }
}

/// What a service tells the host about itself.
pub struct MetadataModel {
    pub name: Seq<char>,
    pub path: Seq<char>,
    pub description: Seq<char>,
    pub version: Seq<char>,
    pub operations: Seq<OperationModel>,
    pub subscriptions: Seq<DeclaredSubscriptionModel>,
}

/// The position of the operation called `name` in a table, or -1.
pub open spec fn operation_index(operations: Seq<OperationModel>, name: Seq<char>) -> int
    decreases operations.len(),
{
    if operations.len() == 0 {
        -1
    } else if operations.first().name == name {
        0
    } else {
        let rest = operation_index(operations.drop_first(), name);
        if rest < 0 {
            -1
        } else {
            rest + 1
        }
    }
}

/// No two operations of a table share a name.
pub open spec fn distinct_operations(operations: Seq<OperationModel>) -> bool {
    forall|i: int, j: int|
        0 <= i < j < operations.len() ==> (#[trigger] operations[i]).name != (
        #[trigger] operations[j]).name
}

/// A table with `op` in it: in the place of the operation of that name, or
/// at the end where the table had none.
pub open spec fn put_operation(operations: Seq<OperationModel>, op: OperationModel) -> Seq<
    OperationModel,
> {
    if operation_index(operations, op.name) >= 0 {
        operations.update(operation_index(operations, op.name), op)
    } else {
        operations.push(op)
    }
}

impl MetadataModel {
    /// The path is not empty and in normal form, and no two operations share
    /// a name.
    pub open spec fn wf(self) -> bool {
        &&& self.path.len() > 0
        &&& is_normal(self.path)
        &&& distinct_operations(self.operations)
    }

    /// The operation called `name`, if the table has one.
    pub open spec fn operation(self, name: Seq<char>) -> Option<OperationModel> {
        if operation_index(self.operations, name) >= 0 {
            Some(self.operations[operation_index(self.operations, name)])
        } else {
            None
        }
    }
}

/// The first operation of a name is where `operation_index` says.
pub proof fn lemma_operation_index(operations: Seq<OperationModel>, name: Seq<char>)
    ensures
        -1 <= operation_index(operations, name) < operations.len(),
        operation_index(operations, name) >= 0 ==> operations[operation_index(
            operations,
            name,
        )].name == name,
        forall|i: int|
            0 <= i < operations.len() && (operation_index(operations, name) < 0 || i
                < operation_index(operations, name)) ==> (#[trigger] operations[i]).name != name,
    decreases operations.len(),
{
    if operations.len() > 0 && operations.first().name != name {
        let rest = operations.drop_first();
        lemma_operation_index(rest, name);
        assert forall|i: int|
            0 <= i < operations.len() && (operation_index(operations, name) < 0 || i
                < operation_index(operations, name)) implies (#[trigger] operations[i]).name
            != name by {
            if i > 0 {
                assert(operations[i] == rest[i - 1]);
            }
        }
    }
}

/// An operation of the name with none before it is the one that
/// `operation_index` finds.
pub proof fn lemma_operation_index_at(operations: Seq<OperationModel>, name: Seq<char>, at: int)
    requires
        -1 <= at < operations.len(),
        at >= 0 ==> operations[at].name == name,
        forall|i: int|
            0 <= i < operations.len() && (at < 0 || i < at) ==> (#[trigger] operations[i]).name
                != name,
    ensures
        operation_index(operations, name) == at,
{
    lemma_operation_index(operations, name);
}

/// An operation of a service: its name and the names of its parameters.
#[derive(Debug)]
pub struct OperationDecl {
    pub name: String,
    pub params: Vec<String>,
}

impl View for OperationDecl {
    type V = OperationModel;

    open spec fn view(&self) -> OperationModel {
        OperationModel { name: self.name@, params: texts(self.params@) }
    }
}

/// A subscription that a service declares.
#[derive(Debug)]
pub struct SubscriptionDecl {
    pub topic: Option<String>,
    pub handler: String,
    pub options: SubscriptionOptions,
}

impl View for SubscriptionDecl {
    type V = DeclaredSubscriptionModel;

    open spec fn view(&self) -> DeclaredSubscriptionModel {
        DeclaredSubscriptionModel {
            topic: crate::event_bus::text_of(self.topic),
            handler: self.handler@,
            once: self.options.once,
        }
    }
}

impl SubscriptionDecl {
    /// The topic that the subscription is made on: the declared one, or the
    /// handler's name where none was declared.
    pub fn effective_topic(&self) -> (r: &str)
        ensures
            r@ == self@.effective_topic(),
    {
        match &self.topic {
            Some(t) => t.as_str(),
            None => self.handler.as_str(),
        }
    }
}

/// The operations that a vector holds.
pub open spec fn operation_models(v: Seq<OperationDecl>) -> Seq<OperationModel> {
    Seq::new(v.len(), |i: int| v[i]@)
}

/// The declared subscriptions that a vector holds.
pub open spec fn declared_models(v: Seq<SubscriptionDecl>) -> Seq<DeclaredSubscriptionModel> {
    Seq::new(v.len(), |i: int| v[i]@)
}

/// The metadata of a service: its name, its path in normal form, and the two
/// tables that it was built with.
#[derive(Debug)]
pub struct ServiceMetadata {
    name: String,
    path: String,
    description: String,
    version: String,
    operations: Vec<OperationDecl>,
    subscriptions: Vec<SubscriptionDecl>,
}

impl View for ServiceMetadata {
    type V = MetadataModel;

    closed spec fn view(&self) -> MetadataModel {
        MetadataModel {
            name: self.name@,
            path: self.path@,
            description: self.description@,
            version: self.version@,
            operations: operation_models(self.operations@),
            subscriptions: declared_models(self.subscriptions@),
        }
    }
}

/// The version of a service that names none.
pub open spec fn default_version() -> Seq<char> {
    "0.1.0"@
}

impl ServiceMetadata {
    #[verifier::type_invariant]
    spec fn inv(&self) -> bool {
        self@.wf()
    }

    /// The metadata of a service called `name` that is reached under `path`,
    /// with no description, the default version and empty tables. The path is
    /// kept in normal form; a path that is empty in normal form is refused.
    pub fn new(name: &str, path: &str) -> (r: Option<ServiceMetadata>)
        ensures
            match r {
                Some(m) => {
                    &&& m@.wf()
                    &&& m@.name == name@
                    &&& m@.path == normalize_path(path@)
                    &&& m@.description == Seq::<char>::empty()
                    &&& m@.version == default_version()
                    &&& m@.operations == Seq::<OperationModel>::empty()
                    &&& m@.subscriptions == Seq::<DeclaredSubscriptionModel>::empty()
                },
                None => normalize_path(path@).len() == 0,
            },
    {
        let normal = normalized(path);
        if normal.as_str().unicode_len() == 0 {
            return None;
        }
        proof {
            lemma_normalize_path(path@);
        }
        let m = ServiceMetadata {
            name: name.to_owned(),
            path: normal,
            description: String::new(),
            version: "0.1.0".to_owned(),
            operations: Vec::new(),
            subscriptions: Vec::new(),
        };
        assert(m@.operations =~= Seq::<OperationModel>::empty());
        assert(m@.subscriptions =~= Seq::<DeclaredSubscriptionModel>::empty());
        Some(m)
    }

    /// The same metadata with this description.
    pub fn with_description(self, description: &str) -> (r: ServiceMetadata)
        ensures
            r@ == (MetadataModel { description: description@, ..self@ }),
            r@.wf(),
    {
        proof {
            use_type_invariant(&self);
        }
        ServiceMetadata {
            name: self.name,
            path: self.path,
            description: description.to_owned(),
            version: self.version,
            operations: self.operations,
            subscriptions: self.subscriptions,
        }
    }

    /// The same metadata with this version.
    pub fn with_version(self, version: &str) -> (r: ServiceMetadata)
        ensures
            r@ == (MetadataModel { version: version@, ..self@ }),
            r@.wf(),
    {
        proof {
            use_type_invariant(&self);
        }
        ServiceMetadata {
            name: self.name,
            path: self.path,
            description: self.description,
            version: version.to_owned(),
            operations: self.operations,
            subscriptions: self.subscriptions,
        }
    }

    /// The same metadata with the operation `name` in its table. An operation
    /// of that name that the table already has is replaced.
    pub fn with_operation(self, name: &str, params: Vec<String>) -> (r: ServiceMetadata)
        ensures
            r@ == (MetadataModel {
                operations: put_operation(
                    self@.operations,
                    OperationModel { name: name@, params: texts(params@) },
                ),
                ..self@
            }),
            r@.wf(),
    {
        proof {
            use_type_invariant(&self);
        }
        let ghost before = self@.operations;
        let ghost op = OperationModel { name: name@, params: texts(params@) };
        let at = find_operation(&self.operations, name);
        let mut operations = self.operations;
        let decl = OperationDecl { name: name.to_owned(), params };
        proof {
            lemma_operation_index(before, name@);
        }
        match at {
            Some(i) => {
                operations[i] = decl;
                assert(operation_models(operations@) =~= put_operation(before, op));
            },
            None => {
                operations.push(decl);
                assert(operation_models(operations@) =~= put_operation(before, op));
            },
        }
        ServiceMetadata {
            name: self.name,
            path: self.path,
            description: self.description,
            version: self.version,
            operations,
            subscriptions: self.subscriptions,
        }
    }

    /// The same metadata with one more declared subscription, made last.
    pub fn with_subscription(
        self,
        topic: Option<&str>,
        handler: &str,
        options: SubscriptionOptions,
    ) -> (r: ServiceMetadata)
        ensures
            r@ == (MetadataModel {
                subscriptions: self@.subscriptions.push(
                    DeclaredSubscriptionModel {
                        topic: match topic {
                            Some(t) => Some(t@),
                            None => None,
                        },
                        handler: handler@,
                        once: options.once,
                    },
                ),
                ..self@
            }),
            r@.wf(),
    {
        proof {
            use_type_invariant(&self);
        }
        let ghost before = self@.subscriptions;
        let mut subscriptions = self.subscriptions;
        let decl = SubscriptionDecl {
            topic: match topic {
                Some(t) => Some(t.to_owned()),
                None => None,
            },
            handler: handler.to_owned(),
            options,
        };
        subscriptions.push(decl);
        assert(declared_models(subscriptions@) =~= before.push(decl@));
        ServiceMetadata {
            name: self.name,
            path: self.path,
            description: self.description,
            version: self.version,
            operations: self.operations,
            subscriptions,
        }
    }

    /// The display name.
    pub fn name(&self) -> (r: &str)
        ensures
            r@ == self@.name,
    {
        self.name.as_str()
    }

    /// The path under which the service is reached, in normal form.
    pub fn path(&self) -> (r: &str)
        ensures
            r@ == self@.path,
            self@.wf(),
    {
        proof {
            use_type_invariant(self);
        }
        self.path.as_str()
    }

    /// The description.
    pub fn description(&self) -> (r: &str)
        ensures
            r@ == self@.description,
    {
        self.description.as_str()
    }

    /// The version.
    pub fn version(&self) -> (r: &str)
        ensures
            r@ == self@.version,
    {
        self.version.as_str()
    }

    /// The operation table, in the order in which it was built.
    pub fn operations(&self) -> (r: &Vec<OperationDecl>)
        ensures
            operation_models(r@) == self@.operations,
            self@.wf(),
    {
        proof {
            use_type_invariant(self);
        }
        &self.operations
    }

    /// The declared subscriptions, in the order in which they were declared.
    pub fn subscriptions(&self) -> (r: &Vec<SubscriptionDecl>)
        ensures
            declared_models(r@) == self@.subscriptions,
    {
        &self.subscriptions
    }

    /// The operation called `name`, if the table has one.
    pub fn operation(&self, name: &str) -> (r: Option<&OperationDecl>)
        ensures
            match r {
                Some(op) => self@.operation(name@) == Some(op@),
                None => self@.operation(name@) is None,
            },
    {
        match find_operation(&self.operations, name) {
            Some(i) => Some(&self.operations[i]),
            None => None,
        }
    }
}

/// The position of the operation called `name` in a table.
pub fn find_operation(operations: &Vec<OperationDecl>, name: &str) -> (r: Option<usize>)
    ensures
        match r {
            Some(i) => i < operations.len() && operation_index(
                operation_models(operations@),
                name@,
            ) == i,
            None => operation_index(operation_models(operations@), name@) == -1,
        },
{
    let ghost model = operation_models(operations@);
    let mut i: usize = 0;
    while i < operations.len()
        invariant
            i <= operations.len(),
            model == operation_models(operations@),
            forall|j: int| 0 <= j < i ==> (#[trigger] model[j]).name != name@,
        decreases operations.len() - i,
    {
        if same_text(operations[i].name.as_str(), name) {
            proof {
                lemma_operation_index_at(model, name@, i as int);
            }
            return Some(i);
        }
        i += 1;
    }
    proof {
        lemma_operation_index_at(model, name@, -1);
    }
    None
}


/// Whether a request was served.
#[derive(Clone, Copy, Debug, PartialEq, Eq, Structural)]
pub enum ResponseStatus {
    Success,
    Error,
}

/// What a response holds.
pub struct ResponseModel {
    pub status: ResponseStatus,
    pub message: Seq<char>,
    pub data: Option<ValueModel>,
}

/// The answer to a request. Where the status is `Error`, data may be there
/// as a diagnosis; it is no result.
#[derive(Debug)]
pub struct ServiceResponse {
    pub status: ResponseStatus,
    pub message: String,
    pub data: Option<Value>,
}

/// The view of an optional value.
pub open spec fn value_of(v: Option<Value>) -> Option<ValueModel> {
    match v {
        Some(x) => Some(x@),
        None => None,
    }
}

impl View for ServiceResponse {
    type V = ResponseModel;

    open spec fn view(&self) -> ResponseModel {
        ResponseModel { status: self.status, message: self.message@, data: value_of(self.data) }
    }
}

impl ResponseStatus {
    /// The name of the status.
    pub open spec fn spec_name(self) -> Seq<char> {
        match self {
            ResponseStatus::Success => "Success"@,
            ResponseStatus::Error => "Error"@,
        }
    }

    /// The name of the status.
    pub fn name(&self) -> (r: &'static str)
        ensures
            r@ == self.spec_name(),
    {
        match self {
            ResponseStatus::Success => "Success",
            ResponseStatus::Error => "Error",
        }
    }
}

impl ResponseModel {
    /// The response as a value: a mapping of `status`, `message` and `data`,
    /// with null for data that is not there.
    pub open spec fn shape(self) -> ValueModel {
        ValueModel::Mapping(
            seq![
                ("status"@, ValueModel::Text(self.status.spec_name())),
                ("message"@, ValueModel::Text(self.message)),
                (
                    "data"@,
                    match self.data {
                        Some(d) => d,
                        None => ValueModel::Null,
                    },
                ),
            ],
        )
    }
}

impl ServiceResponse {
    /// The response as a value, for a caller that takes values: a mapping of
    /// `status`, `message` and `data`, with null for data that is not there.
    pub fn to_value(&self) -> (r: Value)
        ensures
            r@ == self@.shape(),
    {
        let mut fields: Vec<(String, Value)> = Vec::new();
        fields.push(("status".to_owned(), Value::text(self.status.name())));
        fields.push(("message".to_owned(), Value::String(self.message.clone())));
        let data = match &self.data {
            Some(d) => d.clone(),
            None => Value::Null,
        };
        let ghost shown = data@;
        fields.push(("data".to_owned(), data));
        let r = Value::Mapping(fields);
        proof {
            let made = r@->Mapping_0;
            let asked = self@.shape()->Mapping_0;
            assert(fields@[0].1@ == ValueModel::Text(self.status.spec_name()));
            assert(fields@[1].1@ == ValueModel::Text(self.message@));
            assert(fields@[2].1@ == shown);
            assert(made[0] == asked[0]);
            assert(made[1] == asked[1]);
            assert(made[2] == asked[2]);
            assert(made =~= asked);
        }
        r
    }

    /// A response that says the request was served.
    pub fn success(message: &str, data: Option<Value>) -> (r: ServiceResponse)
        ensures
            r@ == (ResponseModel {
                status: ResponseStatus::Success,
                message: message@,
                data: value_of(data),
            }),
    {
        ServiceResponse { status: ResponseStatus::Success, message: message.to_owned(), data }
    }

    /// A response that says the request failed, and why.
    pub fn error(message: &str) -> (r: ServiceResponse)
        ensures
            r@ == (ResponseModel {
                status: ResponseStatus::Error,
                message: message@,
                data: None,
            }),
    {
        ServiceResponse { status: ResponseStatus::Error, message: message.to_owned(), data: None }
    }

    /// Whether the request was served.
    pub fn is_success(&self) -> (r: bool)
        ensures
            r == (self@.status == ResponseStatus::Success),
    {
        match self.status {
            ResponseStatus::Success => true,
            ResponseStatus::Error => false,
        }
    }

    /// The result of a request: the data of a response that says the request
    /// was served. The data of an error response is no result.
    pub fn result(&self) -> (r: Option<&Value>)
        ensures
            match r {
                Some(v) => self@.status == ResponseStatus::Success && self@.data == Some(v@),
                None => self@.status == ResponseStatus::Error || self@.data is None,
            },
    {
        match self.status {
            ResponseStatus::Success => match &self.data {
                Some(v) => Some(v),
                None => None,
            },
            ResponseStatus::Error => None,
        }
    }
}

/// The response that hands out `data` as the result of a request.
pub open spec fn ok_model(data: ValueModel) -> ResponseModel {
    ResponseModel { status: ResponseStatus::Success, message: "OK"@, data: Some(data) }
}

/// The response that says that a service has no operation called `name`.
pub open spec fn unknown_operation_model(name: Seq<char>) -> ResponseModel {
    ResponseModel {
        status: ResponseStatus::Error,
        message: "Unknown operation: "@ + name,
        data: None,
    }
}

/// The response that hands out `data` as the result of a request.
pub fn ok_response(data: Value) -> (r: ServiceResponse)
    ensures
        r@ == ok_model(data@),
{
    ServiceResponse::success("OK", Some(data))
}

/// The response that says that a service has no operation called `name`.
pub fn unknown_operation(name: &str) -> (r: ServiceResponse)
    ensures
        r@ == unknown_operation_model(name@),
{
    let message = crate::text::joined("Unknown operation: ", name);
    ServiceResponse::error(message.as_str())
}

/// What a request holds.
pub struct RequestModel {
    pub path: Seq<char>,
    pub operation: Seq<char>,
    pub params: ValueModel,
}

/// A request as the service that serves it sees it.
#[derive(Debug)]
pub struct ServiceRequest {
    /// The path of the service that the request is for.
    pub path: String,
    pub operation: String,
    pub params: Value,
}

impl View for ServiceRequest {
    type V = RequestModel;

    open spec fn view(&self) -> RequestModel {
        RequestModel { path: self.path@, operation: self.operation@, params: self.params@ }
    }
}

/// The parameters that an operation gets for a request body: a bare scalar
/// sent to an operation of exactly one parameter stands for the mapping of
/// that parameter to it; every other body is passed as it is.
pub open spec fn request_params(op: OperationModel, body: ValueModel) -> ValueModel {
    if op.params.len() == 1 && body.is_scalar() {
        ValueModel::Mapping(seq![(op.params[0], body)])
    } else {
        body
    }
}

/// The parameters that `op` gets for the request body `body`.
pub fn params_for(op: &OperationDecl, body: &Value) -> (r: Value)
    ensures
        r@ == request_params(op@, body@),
{
    if op.params.len() == 1 && body.is_scalar() {
        let mut entries: Vec<(String, Value)> = Vec::new();
        entries.push((op.params[0].clone(), body.clone()));
        let r = Value::Mapping(entries);
        assert(r@->Mapping_0 =~= seq![(op@.params[0], body@)]);
        r
    } else {
        body.clone()
    }
}

/// A bare scalar sent to an operation that declares exactly one parameter is
/// the same request as the mapping of that parameter to the scalar.
pub proof fn lemma_bare_scalar_is_single_field(op: OperationModel, scalar: ValueModel)
    requires
        op.params.len() == 1,
        scalar.is_scalar(),
    ensures
        request_params(op, scalar) == request_params(
            op,
            ValueModel::Mapping(seq![(op.params[0], scalar)]),
        ),
{
}

/// Why a hook or a handler of a service failed.
#[derive(Debug)]
pub struct HandlerError {
    pub message: String,
}

impl HandlerError {
    /// A failure with this message.
    pub fn new(message: &str) -> (r: HandlerError)
        ensures
            r.message@ == message@,
    {
        HandlerError { message: message.to_owned() }
    }
}

/// The response that the caller of a request gets for what the handler
/// returned: the handler's response, or, where the handler failed, an error
/// response with the failure's message.
pub open spec fn response_for(outcome: Result<ServiceResponse, HandlerError>) -> ResponseModel {
    match outcome {
        Ok(response) => response@,
        Err(e) => ResponseModel {
            status: ResponseStatus::Error,
            message: e.message@,
            data: None,
        },
    }
}

/// Turns what a handler returned into the response for the caller.
pub fn response_from(outcome: Result<ServiceResponse, HandlerError>) -> (r: ServiceResponse)
    ensures
        r@ == response_for(outcome),
{
    match outcome {
        Ok(response) => response,
        Err(e) => ServiceResponse { status: ResponseStatus::Error, message: e.message, data: None },
    }
}

/// What a service asks of the host while one of its hooks or handlers runs.
pub enum CommandModel {
    Publish { topic: Seq<char>, payload: ValueModel },
    Subscribe { topic: Seq<char>, handler: Seq<char>, once: bool },
    Unsubscribe { topic: Seq<char>, id: u64 },
}

/// What a service asks of the host while one of its hooks or handlers runs.
#[derive(Debug)]
pub enum Command {
    /// Publish an event.
    Publish { topic: String, payload: Value },
    /// Subscribe one of the service's handlers to a topic.
    Subscribe { topic: String, handler: String, options: SubscriptionOptions },
    /// Cancel a subscription.
    Unsubscribe { topic: String, id: SubscriptionId },
}

impl View for Command {
    type V = CommandModel;

    open spec fn view(&self) -> CommandModel {
        match self {
            Command::Publish { topic, payload } => CommandModel::Publish {
                topic: topic@,
                payload: payload@,
            },
            Command::Subscribe { topic, handler, options } => CommandModel::Subscribe {
                topic: topic@,
                handler: handler@,
                once: options.once,
            },
            Command::Unsubscribe { topic, id } => CommandModel::Unsubscribe {
                topic: topic@,
                id: id.0,
            },
        }
    }
}

/// The commands that a vector holds.
pub open spec fn command_models(v: Seq<Command>) -> Seq<CommandModel> {
    Seq::new(v.len(), |i: int| v[i]@)
}

/// What a context holds.
pub struct ContextModel {
    /// The path of the service that the context is bound to.
    pub path: Seq<char>,
    /// The data that the context carries for the handler.
    pub data: ValueModel,
    /// What the service has asked for so far, in order.
    pub commands: Seq<CommandModel>,
}

/// The capability that a hook or a handler gets: it is bound to the path of
/// its service, and records what the service asks of the host. The host
/// carries the commands out, in order, when the hook has returned.
#[derive(Debug)]
pub struct RequestContext {
    path: String,
    data: Value,
    commands: Vec<Command>,
}

impl View for RequestContext {
    type V = ContextModel;

    closed spec fn view(&self) -> ContextModel {
        ContextModel {
            path: self.path@,
            data: self.data@,
            commands: command_models(self.commands@),
        }
    }
}

impl RequestContext {
    /// A context bound to the service at `path`, without data and with
    /// nothing asked yet.
    pub fn new(path: &str) -> (r: RequestContext)
        ensures
            r@ == (ContextModel {
                path: path@,
                data: ValueModel::Null,
                commands: Seq::empty(),
            }),
    {
        RequestContext::with_data(path, Value::Null)
    }

    /// A context bound to the service at `path` that carries `data`, with
    /// nothing asked yet.
    pub fn with_data(path: &str, data: Value) -> (r: RequestContext)
        ensures
            r@ == (ContextModel { path: path@, data: data@, commands: Seq::empty() }),
    {
        let r = RequestContext { path: path.to_owned(), data, commands: Vec::new() };
        assert(r@.commands =~= Seq::<CommandModel>::empty());
        r
    }

    /// The data that the context carries.
    pub fn data(&self) -> (r: &Value)
        ensures
            r@ == self@.data,
    {
        &self.data
    }

    /// The path of the service that the context is bound to.
    pub fn path(&self) -> (r: &str)
        ensures
            r@ == self@.path,
    {
        self.path.as_str()
    }

    /// Asks the host to publish `payload` on `topic`.
    pub fn publish(&mut self, topic: &str, payload: Value)
        ensures
            final(self)@ == (ContextModel {
                commands: old(self)@.commands.push(
                    CommandModel::Publish { topic: topic@, payload: payload@ },
                ),
                ..old(self)@
            }),
    {
        let ghost before = self@.commands;
        let c = Command::Publish { topic: topic.to_owned(), payload };
        self.commands.push(c);
        assert(self@.commands =~= before.push(c@));
    }

    /// Asks the host to subscribe the service's handler `handler` to `topic`.
    pub fn subscribe(&mut self, topic: &str, handler: &str)
        ensures
            final(self)@ == (ContextModel {
                commands: old(self)@.commands.push(
                    CommandModel::Subscribe { topic: topic@, handler: handler@, once: false },
                ),
                ..old(self)@
            }),
    {
        self.subscribe_with_options(topic, handler, SubscriptionOptions { once: false });
    }

    /// Asks the host to subscribe the service's handler `handler` to `topic`
    /// with these options.
    pub fn subscribe_with_options(
        &mut self,
        topic: &str,
        handler: &str,
        options: SubscriptionOptions,
    )
        ensures
            final(self)@ == (ContextModel {
                commands: old(self)@.commands.push(
                    CommandModel::Subscribe {
                        topic: topic@,
                        handler: handler@,
                        once: options.once,
                    },
                ),
                ..old(self)@
            }),
    {
        let ghost before = self@.commands;
        let c = Command::Subscribe {
            topic: topic.to_owned(),
            handler: handler.to_owned(),
            options,
        };
        self.commands.push(c);
        assert(self@.commands =~= before.push(c@));
    }

    /// Asks the host to cancel the subscription that `id` names on `topic`.
    pub fn unsubscribe(&mut self, topic: &str, id: SubscriptionId)
        ensures
            final(self)@ == (ContextModel {
                commands: old(self)@.commands.push(
                    CommandModel::Unsubscribe { topic: topic@, id: id.0 },
                ),
                ..old(self)@
            }),
    {
        let ghost before = self@.commands;
        let c = Command::Unsubscribe { topic: topic.to_owned(), id };
        self.commands.push(c);
        assert(self@.commands =~= before.push(c@));
    }

    /// What the service has asked for so far, in order.
    pub fn commands(&self) -> (r: &Vec<Command>)
        ensures
            command_models(r@) == self@.commands,
    {
        &self.commands
    }

    /// Ends the context and hands out what the service asked for, in order.
    pub fn into_commands(self) -> (r: Vec<Command>)
        ensures
            command_models(r@) == self@.commands,
    {
        self.commands
    }
}

/// A service, as the host calls it. The host keeps the metadata that the
/// service gave when it was registered, and tracks the service's state
/// itself; what a hook does inside the service is the service's own affair.
pub trait AbstractService {
    /// The metadata: name, path, and the two tables.
    fn metadata(&self) -> ServiceMetadata;

    /// Called once, when the service is initialized.
    fn init(&mut self, ctx: &mut RequestContext) -> Result<(), HandlerError>;

    /// Called once, when the service is started.
    fn start(&mut self) -> Result<(), HandlerError>;

    /// Called once, when the service is stopped.
    fn stop(&mut self) -> Result<(), HandlerError>;

    /// Serves a request for one of the operations of the service's table.
    fn handle_request(&mut self, request: &ServiceRequest, ctx: &mut RequestContext) -> Result<
        ServiceResponse,
        HandlerError,
    >;

    /// Receives an event for the handler `handler`.
    fn handle_event(
        &mut self,
        handler: &str,
        topic: &str,
        payload: &Value,
        ctx: &mut RequestContext,
    ) -> Result<(), HandlerError>;
}

} // verus!
