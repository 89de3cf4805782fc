//! What a host holds and how it changes, in the terms in which its
//! contracts are written, and what holds of every host.

use crate::address::{join_address, lemma_split_joined, slash_free, split_address};
use crate::error::{DispatchError, LifecycleFailureModel};
use crate::event_bus::{
    deliveries_to, lemma_filter_wf, other_than, outlasts, reaches, BusModel, DeliveryModel,
    SubscriptionModel,
};
use crate::lifecycle::{is_active, LifecycleEvent, ServiceState};
use crate::registry::{has_path, lemma_path_index, path_index, registry_wf, EntryModel};
use crate::sequences::lemma_filter_items;
use crate::service::{
    request_params, CommandModel, DeclaredSubscriptionModel, HandlerError, RequestModel,
};
use crate::text::is_normal;
use crate::value::ValueModel;
use vstd::prelude::*;

verus! {

/// What a host holds.
pub struct NodeModel {
    /// Where the host stands in its life.
    pub state: ServiceState,
    /// The registered services, in the order of registration.
    pub registry: Seq<EntryModel>,
    /// The subscriptions.
    pub bus: BusModel,
    /// The events that are on their way, next first.
    pub pending: Seq<DeliveryModel>,
}

/// Every subscription that a service owns is owned by a registered service.
pub open spec fn owners_registered(registry: Seq<EntryModel>, bus: BusModel) -> bool {
    forall|i: int|
        0 <= i < bus.subscriptions.len() ==> match (#[trigger] bus.subscriptions[i]).owner {
            Some(path) => has_path(registry, path),
            None => true,
        }
}

impl NodeModel {
    /// A host that was just made.
    pub open spec fn fresh() -> NodeModel {
        NodeModel {
            state: ServiceState::Created,
            registry: Seq::empty(),
            bus: BusModel { subscriptions: Seq::empty(), next_id: 0 },
            pending: Seq::empty(),
        }
    }

    /// The registry and the bus are well formed, no subscription outlives the
    /// service that owns it, and a stopped host holds nothing.
    pub open spec fn wf(self) -> bool {
        &&& registry_wf(self.registry)
        &&& self.bus.wf()
        &&& owners_registered(self.registry, self.bus)
        &&& self.state == ServiceState::Stopped ==> {
            &&& self.registry.len() == 0
            &&& self.bus.subscriptions.len() == 0
            &&& self.pending.len() == 0
        }
    }

    /// The host after an event on `topic` with `payload`: the subscribers
    /// that it reaches get one delivery each, behind those already on their
    /// way.
    pub open spec fn publish(self, topic: Seq<char>, payload: ValueModel) -> NodeModel {
        NodeModel {
            bus: self.bus.publish(topic),
            pending: self.pending + deliveries_to(self.bus.subscribers(topic), topic, payload),
            ..self
        }
    }

    /// The host after the service at `owner` was given what it asked for.
    pub open spec fn carry_out(self, owner: Seq<char>, command: CommandModel) -> NodeModel {
        match command {
            CommandModel::Publish { topic, payload } => self.publish(topic, payload),
            CommandModel::Subscribe { topic, handler, once } => if self.bus.next_id < u64::MAX {
                NodeModel { bus: self.bus.subscribe(topic, Some(owner), handler, once), ..self }
            } else {
                self
            },
            CommandModel::Unsubscribe { topic, id } => NodeModel {
                bus: self.bus.unsubscribe(topic, id),
                ..self
            },
        }
    }

    /// The host after the service at `owner` was given all that it asked
    /// for, in order.
    pub open spec fn carry_out_all(self, owner: Seq<char>, commands: Seq<CommandModel>) -> NodeModel
        decreases commands.len(),
    {
        if commands.len() == 0 {
            self
        } else {
            self.carry_out_all(owner, commands.drop_last()).carry_out(owner, commands.last())
        }
    }

    /// The host after the service at position `at` was initialized: the
    /// service is `Initialized`, its declared subscriptions are active, and
    /// what its hook asked for is carried out.
    pub open spec fn after_init(self, at: int, asked: Seq<CommandModel>) -> NodeModel {
        let entry = self.registry[at];
        (NodeModel {
            registry: with_state(self.registry, at, ServiceState::Initialized),
            bus: activate(self.bus, entry.meta.path, entry.meta.subscriptions),
            ..self
        }).carry_out_all(entry.meta.path, asked)
    }

    /// The host after the service at position `at` was started.
    pub open spec fn after_start(self, at: int) -> NodeModel {
        NodeModel { registry: with_state(self.registry, at, ServiceState::Running), ..self }
    }

    /// The host after the first `upto` services were initialized, those of
    /// them that were in state `Created`, where the hook of the service at
    /// position `i` asked for `asked[i]`.
    pub open spec fn initialized_each(self, upto: int, asked: Seq<Seq<CommandModel>>) -> NodeModel
        decreases upto,
    {
        if upto <= 0 {
            self
        } else {
            let before = self.initialized_each(upto - 1, asked);
            if before.registry[upto - 1].state == ServiceState::Created {
                before.after_init(upto - 1, asked[upto - 1])
            } else {
                before
            }
        }
    }

    /// The host after its next delivery was carried out, where the handler
    /// asked for `asked`: the delivery is off the queue, and what the handler
    /// asked for is carried out. A delivery that goes to no service leaves
    /// the queue and nothing else happens.
    pub open spec fn after_delivery(self, asked: Seq<CommandModel>) -> NodeModel {
        let rest = NodeModel { pending: self.pending.drop_first(), ..self };
        match receiver(self.registry, self.pending[0]) {
            Some(i) => rest.carry_out_all(self.registry[i].meta.path, asked),
            None => rest,
        }
    }

    /// The host after its next `count` deliveries were carried out, where
    /// the handler of the delivery at position `i` asked for `asked[i]`.
    pub open spec fn after_deliveries(self, count: int, asked: Seq<Seq<CommandModel>>) -> NodeModel
        decreases count,
    {
        if count <= 0 {
            self
        } else {
            self.after_deliveries(count - 1, asked).after_delivery(asked[count - 1])
        }
    }

    /// The host after the service at position `at` was brought as far
    /// towards `Running` as its hooks allowed.
    pub open spec fn brought_up(self, at: int, run: BringUp) -> NodeModel {
        match self.registry[at].state {
            ServiceState::Created => if run.init_ok {
                let initialized = self.after_init(at, run.asked);
                if run.start_ok {
                    initialized.after_start(at)
                } else {
                    initialized
                }
            } else {
                self
            },
            ServiceState::Initialized => if run.start_ok {
                self.after_start(at)
            } else {
                self
            },
            _ => self,
        }
    }

    /// The host after the first `upto` services were brought up, where the
    /// hooks of the service at position `i` did what `runs[i]` says.
    pub open spec fn brought_up_each(self, upto: int, runs: Seq<BringUp>) -> NodeModel
        decreases upto,
    {
        if upto <= 0 {
            self
        } else {
            self.brought_up_each(upto - 1, runs).brought_up(upto - 1, runs[upto - 1])
        }
    }
}

/// What the hooks of one service did while the host brought the service up:
/// whether its `init` hook succeeded and what it asked for, and whether its
/// `start` hook succeeded. A hook that was not called does not count.
pub struct BringUp {
    pub init_ok: bool,
    pub asked: Seq<CommandModel>,
    pub start_ok: bool,
}

/// What the initialization of a service leaves as it was: the state of the
/// host, every other entry of the registry, the events on their way, the
/// ids that were given out, and the well-formedness of the host.
pub proof fn lemma_after_init(node: NodeModel, at: int, asked: Seq<CommandModel>)
    requires
        0 <= at < node.registry.len(),
    ensures
        node.after_init(at, asked).state == node.state,
        node.after_init(at, asked).registry == with_state(
            node.registry,
            at,
            ServiceState::Initialized,
        ),
        begins_with(node.after_init(at, asked).pending, node.pending),
        node.after_init(at, asked).bus.next_id >= node.bus.next_id,
        node.wf() ==> node.after_init(at, asked).wf(),
{
    let entry = node.registry[at];
    let path = entry.meta.path;
    let stepped = NodeModel {
        registry: with_state(node.registry, at, ServiceState::Initialized),
        bus: activate(node.bus, path, entry.meta.subscriptions),
        ..node
    };
    crate::registry::lemma_state_change(node.registry, at, ServiceState::Initialized);
    crate::registry::lemma_has_path(node.registry, path);
    crate::registry::lemma_has_path(stepped.registry, path);
    assert(stepped.registry[at].meta.path == path);
    lemma_activate_ids(node.bus, path, entry.meta.subscriptions);
    if node.wf() {
        assert(owners_registered(stepped.registry, node.bus));
        lemma_activate(stepped.registry, node.bus, path, entry.meta.subscriptions);
    }
    lemma_carry_out_all_keeps(stepped, path, asked);
    lemma_carry_out_all_queue(stepped, path, asked);
}

/// What the start of a service leaves as it was.
pub proof fn lemma_after_start(node: NodeModel, at: int)
    requires
        0 <= at < node.registry.len(),
    ensures
        node.wf() ==> node.after_start(at).wf(),
{
    crate::registry::lemma_state_change(node.registry, at, ServiceState::Running);
}

/// What the hooks of services further on asked for does not change what
/// came of the first `upto` services.
pub proof fn lemma_initialized_each_more(
    node: NodeModel,
    upto: int,
    asked: Seq<Seq<CommandModel>>,
    more: Seq<CommandModel>,
)
    requires
        upto <= asked.len(),
    ensures
        node.initialized_each(upto, asked.push(more)) == node.initialized_each(upto, asked),
    decreases upto,
{
    if upto > 0 {
        lemma_initialized_each_more(node, upto - 1, asked, more);
        assert(asked.push(more)[upto - 1] == asked[upto - 1]);
    }
}

/// What the handlers of later deliveries asked for does not change what
/// came of the first `count` deliveries.
pub proof fn lemma_after_deliveries_more(
    node: NodeModel,
    count: int,
    asked: Seq<Seq<CommandModel>>,
    more: Seq<CommandModel>,
)
    requires
        count <= asked.len(),
    ensures
        node.after_deliveries(count, asked.push(more)) == node.after_deliveries(count, asked),
    decreases count,
{
    if count > 0 {
        lemma_after_deliveries_more(node, count - 1, asked, more);
        assert(asked.push(more)[count - 1] == asked[count - 1]);
    }
}

/// What the hooks of services further on did does not change what came of
/// the first `upto` services.
pub proof fn lemma_brought_up_each_more(
    node: NodeModel,
    upto: int,
    runs: Seq<BringUp>,
    more: BringUp,
)
    requires
        upto <= runs.len(),
    ensures
        node.brought_up_each(upto, runs.push(more)) == node.brought_up_each(upto, runs),
    decreases upto,
{
    if upto > 0 {
        lemma_brought_up_each_more(node, upto - 1, runs, more);
        assert(runs.push(more)[upto - 1] == runs[upto - 1]);
    }
}

/// The bus with the declared subscriptions of the service at `owner` made
/// active, in the order in which they were declared.
pub open spec fn activate(
    bus: BusModel,
    owner: Seq<char>,
    declared: Seq<DeclaredSubscriptionModel>,
) -> BusModel
    decreases declared.len(),
{
    if declared.len() == 0 {
        bus
    } else {
        let before = activate(bus, owner, declared.drop_last());
        let d = declared.last();
        if before.next_id < u64::MAX {
            before.subscribe(d.effective_topic(), Some(owner), d.handler, d.once)
        } else {
            before
        }
    }
}

/// The registry with the entry at `at` in state `state`.
pub open spec fn with_state(registry: Seq<EntryModel>, at: int, state: ServiceState) -> Seq<
    EntryModel,
> {
    registry.update(at, EntryModel { state, ..registry[at] })
}

/// The registry with those of its first `upto` entries that were in state
/// `from` in state `to`.
pub open spec fn advanced(
    registry: Seq<EntryModel>,
    upto: int,
    from: ServiceState,
    to: ServiceState,
) -> Seq<EntryModel> {
    Seq::new(
        registry.len(),
        |i: int|
            if i < upto && registry[i].state == from {
                EntryModel { state: to, ..registry[i] }
            } else {
                registry[i]
            },
    )
}

/// The service that a delivery goes to: the one that owns the subscription,
/// where it is registered and active.
pub open spec fn receiver(registry: Seq<EntryModel>, delivery: DeliveryModel) -> Option<int> {
    match delivery.owner {
        Some(path) => {
            let i = path_index(registry, path);
            if i >= 0 && is_active(registry[i].state) {
                Some(i)
            } else {
                None
            }
        },
        None => None,
    }
}

/// Making declared subscriptions active keeps the bus well formed and the
/// owners registered.
pub proof fn lemma_activate(
    registry: Seq<EntryModel>,
    bus: BusModel,
    owner: Seq<char>,
    declared: Seq<DeclaredSubscriptionModel>,
)
    requires
        bus.wf(),
        owners_registered(registry, bus),
        has_path(registry, owner),
    ensures
        activate(bus, owner, declared).wf(),
        owners_registered(registry, activate(bus, owner, declared)),
    decreases declared.len(),
{
    if declared.len() > 0 {
        lemma_activate(registry, bus, owner, declared.drop_last());
    }
}

/// The step that a service in this state has not taken on the way to
/// `Running`, if it is short of it.
pub open spec fn start_gap(state: ServiceState) -> Option<LifecycleEvent> {
    match state {
        ServiceState::Created => Some(LifecycleEvent::Init),
        ServiceState::Initialized => Some(LifecycleEvent::Start),
        _ => None,
    }
}

/// What the report of a start lists for a registry that the start left so:
/// each service that is short of `Running`, with the step that failed, in
/// the order of registration.
pub open spec fn start_report(after: Seq<EntryModel>) -> Seq<(Seq<char>, LifecycleEvent)>
    decreases after.len(),
{
    if after.len() == 0 {
        Seq::empty()
    } else {
        let rest = start_report(after.drop_last());
        match start_gap(after.last().state) {
            Some(event) => rest.push((after.last().meta.path, event)),
            None => rest,
        }
    }
}

/// Service and step of each failure of a report.
pub open spec fn failure_keys(report: Seq<LifecycleFailureModel>) -> Seq<
    (Seq<char>, LifecycleEvent),
> {
    Seq::new(report.len(), |i: int| (report[i].path, report[i].event))
}

/// Whether a start can have brought a service from state `before` to state
/// `after`: it moves a service forward, towards `Running`, and no other.
pub open spec fn start_moves(before: ServiceState, after: ServiceState) -> bool {
    match before {
        ServiceState::Created => after == ServiceState::Created || after
            == ServiceState::Initialized || after == ServiceState::Running,
        ServiceState::Initialized => after == ServiceState::Initialized || after
            == ServiceState::Running,
        _ => after == before,
    }
}

/// What came of a delivery.
pub enum OutcomeModel {
    /// The handler ran and succeeded.
    Handled { subscription: u64 },
    /// The handler ran and failed.
    Failed { subscription: u64, path: Seq<char>, message: Seq<char> },
    /// No service owns the subscription: the event is for a handler outside
    /// the host.
    Unowned { delivery: DeliveryModel },
    /// The service that owns the subscription is gone or not active.
    Dropped { subscription: u64 },
}

/// The outcome of a delivery to a service whose handler returned `result`.
pub open spec fn outcome_for(
    delivery: DeliveryModel,
    path: Seq<char>,
    result: Result<(), HandlerError>,
) -> OutcomeModel {
    match result {
        Ok(()) => OutcomeModel::Handled { subscription: delivery.subscription },
        Err(e) => OutcomeModel::Failed {
            subscription: delivery.subscription,
            path,
            message: e.message@,
        },
    }
}

/// Whether the services that `report` names are active services of
/// `registry`, each named at most once, in the order of registration.
pub open spec fn names_active_in_order(report: Seq<Seq<char>>, registry: Seq<EntryModel>) -> bool
    decreases registry.len(),
{
    if report.len() == 0 {
        true
    } else if registry.len() == 0 {
        false
    } else {
        let last = registry.last();
        names_active_in_order(report, registry.drop_last()) || (is_active(last.state)
            && last.meta.path == report.last() && names_active_in_order(
            report.drop_last(),
            registry.drop_last(),
        ))
    }
}

/// The paths that the failures of a report name.
pub open spec fn failure_paths(report: Seq<LifecycleFailureModel>) -> Seq<Seq<char>> {
    Seq::new(report.len(), |i: int| report[i].path)
}

/// Whether `s` begins with `p`.
pub open spec fn begins_with<A>(s: Seq<A>, p: Seq<A>) -> bool {
    p.len() <= s.len() && s.take(p.len() as int) == p
}

/// What begins with something that begins with `p` begins with `p`.
pub proof fn lemma_begins_with_trans<A>(s: Seq<A>, q: Seq<A>, p: Seq<A>)
    requires
        begins_with(s, q),
        begins_with(q, p),
    ensures
        begins_with(s, p),
{
    assert(s.take(p.len() as int) =~= s.take(q.len() as int).take(p.len() as int));
}

/// The subscription that a delivery with this outcome was made for.
pub open spec fn outcome_subscription(outcome: OutcomeModel) -> u64 {
    match outcome {
        OutcomeModel::Handled { subscription } => subscription,
        OutcomeModel::Failed { subscription, .. } => subscription,
        OutcomeModel::Unowned { delivery } => delivery.subscription,
        OutcomeModel::Dropped { subscription } => subscription,
    }
}

/// What a service asks for puts events behind those that are on their way
/// and takes none of them away, and never takes back an id.
pub proof fn lemma_carry_out_all_queue(
    node: NodeModel,
    owner: Seq<char>,
    commands: Seq<CommandModel>,
)
    ensures
        begins_with(node.carry_out_all(owner, commands).pending, node.pending),
        node.carry_out_all(owner, commands).bus.next_id >= node.bus.next_id,
    decreases commands.len(),
{
    if commands.len() == 0 {
        assert(node.pending.take(node.pending.len() as int) =~= node.pending);
    } else {
        lemma_carry_out_all_queue(node, owner, commands.drop_last());
        let before = node.carry_out_all(owner, commands.drop_last());
        let after = before.carry_out(owner, commands.last());
        assert(begins_with(after.pending, before.pending)) by {
            assert(after.pending.take(before.pending.len() as int) =~= before.pending);
        }
        assert(after.pending.take(node.pending.len() as int) =~= before.pending.take(
            node.pending.len() as int,
        ));
    }
}

/// Making declared subscriptions active never takes back an id.
pub proof fn lemma_activate_ids(
    bus: BusModel,
    owner: Seq<char>,
    declared: Seq<DeclaredSubscriptionModel>,
)
    ensures
        activate(bus, owner, declared).next_id >= bus.next_id,
    decreases declared.len(),
{
    if declared.len() > 0 {
        lemma_activate_ids(bus, owner, declared.drop_last());
    }
}

/// Filtering the subscriptions keeps their owners registered.
pub proof fn lemma_filter_owners(
    registry: Seq<EntryModel>,
    bus: BusModel,
    keep: spec_fn(SubscriptionModel) -> bool,
)
    requires
        owners_registered(registry, bus),
    ensures
        owners_registered(
            registry,
            BusModel { subscriptions: bus.subscriptions.filter(keep), next_id: bus.next_id },
        ),
{
    let f = bus.subscriptions.filter(keep);
    lemma_filter_items(bus.subscriptions, keep);
    assert forall|i: int| 0 <= i < f.len() implies match (#[trigger] f[i]).owner {
        Some(path) => has_path(registry, path),
        None => true,
    } by {
        assert(bus.subscriptions.contains(f[i]));
        let k = choose|k: int| 0 <= k < bus.subscriptions.len() && bus.subscriptions[k] == f[i];
        assert(bus.subscriptions[k] == f[i]);
    }
}

/// Carrying out what a registered service asks for keeps the host well
/// formed and leaves its state and its registry as they were.
pub proof fn lemma_carry_out(node: NodeModel, owner: Seq<char>, command: CommandModel)
    requires
        node.wf(),
        node.state != ServiceState::Stopped,
        has_path(node.registry, owner),
    ensures
        node.carry_out(owner, command).wf(),
        node.carry_out(owner, command).state == node.state,
        node.carry_out(owner, command).registry == node.registry,
{
    match command {
        CommandModel::Publish { topic, payload } => {
            lemma_filter_wf(node.bus, outlasts(topic));
            lemma_filter_owners(node.registry, node.bus, outlasts(topic));
        },
        CommandModel::Subscribe { topic, handler, once } => {},
        CommandModel::Unsubscribe { topic, id } => {
            lemma_filter_wf(node.bus, other_than(topic, id));
            lemma_filter_owners(node.registry, node.bus, other_than(topic, id));
        },
    }
}

/// Carrying out all that a registered service asks for keeps the host well
/// formed and leaves its state and its registry as they were.
pub proof fn lemma_carry_out_all(node: NodeModel, owner: Seq<char>, commands: Seq<CommandModel>)
    requires
        node.wf(),
        node.state != ServiceState::Stopped,
        has_path(node.registry, owner),
    ensures
        node.carry_out_all(owner, commands).wf(),
        node.carry_out_all(owner, commands).state == node.state,
        node.carry_out_all(owner, commands).registry == node.registry,
    decreases commands.len(),
{
    if commands.len() > 0 {
        lemma_carry_out_all(node, owner, commands.drop_last());
        lemma_carry_out(node.carry_out_all(owner, commands.drop_last()), owner, commands.last());
    }
}


/// Where a request goes: the position of the service in the registry, and
/// the request as the service gets it.
pub struct RouteModel {
    pub index: int,
    pub request: RequestModel,
}

/// Where the request to `address` with `body` goes: to a running service
/// that is registered under the path of the address and has the operation
/// of the address in its table.
pub open spec fn route(registry: Seq<EntryModel>, address: Seq<char>, body: ValueModel) -> Result<
    RouteModel,
    DispatchError,
> {
    match split_address(address) {
        None => Err(DispatchError::AddressFormatError),
        Some(a) => {
            let index = path_index(registry, a.path);
            if index < 0 {
                Err(DispatchError::ServiceNotFound)
            } else {
                match registry[index].meta.operation(a.operation) {
                    None => Err(DispatchError::OperationNotFound),
                    Some(op) => if registry[index].state != ServiceState::Running {
                        Err(DispatchError::ServiceNotRunning)
                    } else {
                        Ok(
                            RouteModel {
                                index,
                                request: RequestModel {
                                    path: a.path,
                                    operation: a.operation,
                                    params: request_params(op, body),
                                },
                            },
                        )
                    },
                }
            }
        },
    }
}

/// A request to a service that is not registered is refused as such, and a
/// request for an operation that a registered service does not have is
/// refused as such.
pub proof fn lemma_unknown_target(
    registry: Seq<EntryModel>,
    path: Seq<char>,
    operation: Seq<char>,
    body: ValueModel,
)
    requires
        path.len() > 0,
        is_normal(path),
        operation.len() > 0,
        slash_free(operation),
    ensures
        !has_path(registry, path) ==> route(
            registry,
            join_address(path, operation),
            body,
        ) == Err::<RouteModel, DispatchError>(DispatchError::ServiceNotFound),
        has_path(registry, path) && registry[path_index(registry, path)].meta.operation(
            operation,
        ) is None ==> route(registry, join_address(path, operation), body)
            == Err::<RouteModel, DispatchError>(DispatchError::OperationNotFound),
{
    lemma_split_joined(path, operation);
}

/// A bare scalar sent to an operation that declares exactly one parameter
/// goes where the mapping of that parameter to the scalar goes, and reaches
/// the handler as the same request.
pub proof fn lemma_bare_scalar_request(
    registry: Seq<EntryModel>,
    address: Seq<char>,
    scalar: ValueModel,
)
    requires
        scalar.is_scalar(),
        split_address(address) is Some,
        has_path(registry, split_address(address)->0.path),
        registry[path_index(registry, split_address(address)->0.path)].meta.operation(
            split_address(address)->0.operation,
        ) matches Some(op) && op.params.len() == 1,
    ensures
        ({
            let a = split_address(address)->0;
            let op = registry[path_index(registry, a.path)].meta.operation(a.operation)->0;
            route(registry, address, scalar) == route(
                registry,
                address,
                ValueModel::Mapping(seq![(op.params[0], scalar)]),
            )
        }),
{
}

/// Carrying out what a registered service asks for keeps a well-formed host
/// well formed, and leaves the state and the registry of any host as they
/// were.
pub proof fn lemma_carry_out_all_keeps(
    node: NodeModel,
    owner: Seq<char>,
    commands: Seq<CommandModel>,
)
    requires
        has_path(node.registry, owner),
    ensures
        node.wf() ==> node.carry_out_all(owner, commands).wf(),
        node.carry_out_all(owner, commands).state == node.state,
        node.carry_out_all(owner, commands).registry == node.registry,
    decreases commands.len(),
{
    if commands.len() > 0 {
        lemma_carry_out_all_keeps(node, owner, commands.drop_last());
    }
    if node.wf() {
        lemma_path_index(node.registry, owner);
        lemma_carry_out_all(node, owner, commands);
    }
}

/// Cancelling a subscription keeps the host well formed.
pub proof fn lemma_unsubscribe_keeps_wf(node: NodeModel, topic: Seq<char>, id: u64)
    ensures
        node.bus.wf() ==> node.bus.unsubscribe(topic, id).wf(),
        node.wf() ==> (NodeModel { bus: node.bus.unsubscribe(topic, id), ..node }).wf(),
{
    let keep = other_than(topic, id);
    if node.bus.wf() {
        lemma_filter_wf(node.bus, keep);
    }
    if node.wf() {
        lemma_filter_owners(node.registry, node.bus, keep);
        lemma_filter_items(node.bus.subscriptions, keep);
    }
}

/// Publishing keeps the host well formed.
pub proof fn lemma_publish_keeps_wf(node: NodeModel, topic: Seq<char>, payload: ValueModel)
    ensures
        node.wf() ==> node.publish(topic, payload).wf(),
{
    if node.wf() {
        let keep = outlasts(topic);
        lemma_filter_wf(node.bus, keep);
        lemma_filter_owners(node.registry, node.bus, keep);
        lemma_filter_items(node.bus.subscriptions, keep);
        lemma_filter_items(node.bus.subscriptions, reaches(topic));
    }
}

} // verus!
