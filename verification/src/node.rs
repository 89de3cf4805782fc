//! The host: one registry, one event bus and the queue of events on their
//! way, under one lifecycle.

use crate::address::parse_address;
use crate::error::{
    failure_models, DispatchError, LifecycleError, LifecycleFailure, LifecycleFailureModel,
};
use crate::event_bus::{
    deliveries_to, delivery_models, not_owned_by, Delivery, DeliveryModel, EventBus,
    SubscriptionId, SubscriptionModel, SubscriptionOptions,
};
use crate::lifecycle::{
    next_state, state_is_active, transition, InvalidTransition, LifecycleEvent, ServiceState,
};
use crate::node_model::{
    activate, advanced, begins_with, failure_keys, failure_paths, lemma_after_deliveries_more,
    lemma_after_init, lemma_after_start, lemma_begins_with_trans, lemma_brought_up_each_more,
    lemma_carry_out_all_keeps, lemma_carry_out_all_queue, lemma_initialized_each_more,
    lemma_publish_keeps_wf, lemma_unsubscribe_keeps_wf, names_active_in_order, outcome_for,
    outcome_subscription, receiver, route, start_gap, start_moves, start_report, with_state,
    BringUp, NodeModel, OutcomeModel,
};
use crate::registry::{
    has_path, lemma_has_path, lemma_path_index, lemma_state_change, listing, path_index, register,
    summary_models, DuplicatePathError, EntryModel, Registry, ServiceSummary,
};
use crate::sequences::lemma_filter_items;
use crate::service::{
    command_models, declared_models, params_for, response_for, response_from, AbstractService,
    Command, CommandModel, DeclaredSubscriptionModel, HandlerError, RequestContext,
    ServiceMetadata, ServiceRequest, ServiceResponse,
};
use crate::text::normalize_path;
use crate::value::Value;
use std::collections::VecDeque;
use vstd::prelude::*;

verus! {

/// What came of a delivery.
#[derive(Debug)]
pub enum DeliveryOutcome {
    /// The handler ran and succeeded.
    Handled { subscription: SubscriptionId },
    /// The handler ran and failed. The failure stays with this delivery: the
    /// publisher and the other subscribers are not touched by it.
    Failed { subscription: SubscriptionId, path: String, message: String },
    /// No service owns the subscription: the event is handed out, for the
    /// handler outside the host.
    Unowned(Delivery),
    /// The service that owns the subscription is gone or not active: the
    /// event is dropped.
    Dropped { subscription: SubscriptionId },
}

impl View for DeliveryOutcome {
    type V = OutcomeModel;

    open spec fn view(&self) -> OutcomeModel {
        match self {
            DeliveryOutcome::Handled { subscription } => OutcomeModel::Handled {
                subscription: subscription.0,
            },
            DeliveryOutcome::Failed { subscription, path, message } => OutcomeModel::Failed {
                subscription: subscription.0,
                path: path@,
                message: message@,
            },
            DeliveryOutcome::Unowned(d) => OutcomeModel::Unowned { delivery: d@ },
            DeliveryOutcome::Dropped { subscription } => OutcomeModel::Dropped {
                subscription: subscription.0,
            },
        }
    }
}

/// What a stop of the host reports.
#[derive(Debug)]
pub struct StopReport {
    /// What came of the deliveries that were on their way, next first.
    pub deliveries: Vec<DeliveryOutcome>,
    /// How many events were published during these deliveries and
    /// discarded.
    pub discarded: usize,
    /// The `stop` hooks that failed, in the order of registration.
    pub failures: Vec<LifecycleFailure>,
}

/// Why a service was not registered.
#[derive(Debug)]
pub enum RegistrationError {
    /// The path is taken.
    DuplicatePath(DuplicatePathError),
    /// The host has stopped.
    NodeStopped,
}

impl RegistrationError {
    /// The message of this error.
    pub open spec fn spec_message(self) -> Seq<char> {
        match self {
            RegistrationError::DuplicatePath(e) => "a service is already registered at "@
                + e.path@,
            RegistrationError::NodeStopped => "the host has stopped"@,
        }
    }

    /// A message for a person to read.
    pub fn message(&self) -> (r: String)
        ensures
            r@ == self.spec_message(),
    {
        match self {
            RegistrationError::DuplicatePath(e) => e.message(),
            RegistrationError::NodeStopped => "the host has stopped".to_owned(),
        }
    }
}

/// The host.
pub struct Node<S> {
    state: ServiceState,
    registry: Registry<S>,
    bus: EventBus,
    pending: VecDeque<Delivery>,
}

impl<S> View for Node<S> {
    type V = NodeModel;

    closed spec fn view(&self) -> NodeModel {
        NodeModel {
            state: self.state,
            registry: self.registry@,
            bus: self.bus@,
            pending: delivery_models(self.pending@),
        }
    }
}

impl<S> Node<S> {
    /// The registered services, in the order of registration.
    pub closed spec fn services(&self) -> Seq<S> {
        self.registry.services()
    }

    /// A host in state `Created`, without services and subscriptions.
    pub fn new() -> (node: Node<S>)
        ensures
            node@ == NodeModel::fresh(),
            node@.wf(),
            node.services() == Seq::<S>::empty(),
    {
        let node = Node {
            state: ServiceState::Created,
            registry: Registry::new(),
            bus: EventBus::new(),
            pending: VecDeque::new(),
        };
        assert(node@.pending =~= Seq::<DeliveryModel>::empty());
        assert(node@.bus == NodeModel::fresh().bus);
        node
    }

    /// Where the host stands in its life.
    pub fn state(&self) -> (r: ServiceState)
        ensures
            r == self@.state,
    {
        self.state
    }

    /// The registry.
    pub fn registry(&self) -> (r: &Registry<S>)
        ensures
            r@ == self@.registry,
            r.services() == self.services(),
    {
        &self.registry
    }

    /// The event bus.
    pub fn bus(&self) -> (r: &EventBus)
        ensures
            r@ == self@.bus,
    {
        &self.bus
    }

    /// How many events are on their way.
    pub fn pending_len(&self) -> (n: usize)
        ensures
            n == self@.pending.len(),
    {
        self.pending.len()
    }

    /// The listing of the registered services: path, name and state of each,
    /// in the order of registration, as a copy.
    pub fn list_services(&self) -> (r: Vec<ServiceSummary>)
        ensures
            summary_models(r@) == listing(self@.registry),
    {
        self.registry.list()
    }

    /// Registers `service` with the metadata `meta`, in state `Created`.
    /// Nothing is registered where the path of `meta` is taken, or where the
    /// host has stopped.
    pub fn register(&mut self, meta: ServiceMetadata, service: S) -> (r: Result<
        (),
        RegistrationError,
    >)
        ensures
            old(self)@.wf() ==> final(self)@.wf(),
            final(self)@.state == old(self)@.state,
            final(self)@.bus == old(self)@.bus,
            final(self)@.pending == old(self)@.pending,
            if old(self)@.state == ServiceState::Stopped {
                &&& r matches Err(RegistrationError::NodeStopped)
                &&& final(self)@ == old(self)@
                &&& final(self).services() == old(self).services()
            } else {
                match register(old(self)@.registry, meta@) {
                    Some(after) => {
                        &&& r is Ok
                        &&& final(self)@.registry == after
                        &&& final(self).services() == old(self).services().push(service)
                    },
                    None => {
                        &&& r matches Err(RegistrationError::DuplicatePath(e)) && e.path@
                            == meta@.path
                        &&& final(self)@ == old(self)@
                        &&& final(self).services() == old(self).services()
                    },
                }
            },
    {
        if let ServiceState::Stopped = self.state {
            return Err(RegistrationError::NodeStopped);
        }
        let ghost before = self@;
        match self.registry.add(meta, service) {
            Ok(()) => {
                proof {
                    if before.wf() {
                        assert forall|i: int|
                            0 <= i < before.bus.subscriptions.len() implies match (
                        #[trigger] before.bus.subscriptions[i]).owner {
                            Some(path) => has_path(self@.registry, path),
                            None => true,
                        } by {
                            match before.bus.subscriptions[i].owner {
                                Some(path) => {
                                    lemma_has_path(before.registry, path);
                                    let k = choose|k: int|
                                        0 <= k < before.registry.len() && (
                                        #[trigger] before.registry[k]).meta.path == path;
                                    assert(self@.registry[k] == before.registry[k]);
                                    lemma_has_path(self@.registry, path);
                                },
                                None => {},
                            }
                        }
                    }
                }
                Ok(())
            },
            Err(e) => Err(RegistrationError::DuplicatePath(e)),
        }
    }

    /// Takes the service registered under `path` out of the host and hands
    /// it to the caller, and cancels the subscriptions that it owns. Slashes
    /// at the ends of `path` do not count. Where no service is registered
    /// under `path`, nothing changes.
    pub fn remove_service(&mut self, path: &str) -> (r: Option<S>)
        ensures
            old(self)@.wf() ==> final(self)@.wf(),
            final(self)@.state == old(self)@.state,
            final(self)@.pending == old(self)@.pending,
            match r {
                Some(service) => {
                    let i = path_index(old(self)@.registry, normalize_path(path@));
                    &&& 0 <= i < old(self)@.registry.len()
                    &&& service == old(self).services()[i]
                    &&& final(self)@.registry == old(self)@.registry.remove(i)
                    &&& final(self).services() == old(self).services().remove(i)
                    &&& final(self)@.bus == old(self)@.bus.cancel_owner(normalize_path(path@))
                },
                None => {
                    &&& !has_path(old(self)@.registry, normalize_path(path@))
                    &&& final(self)@ == old(self)@
                    &&& final(self).services() == old(self).services()
                },
            },
    {
        let ghost before = self@;
        let r = self.registry.remove(path, &mut self.bus);
        proof {
            if r is Some && before.wf() {
                let gone = normalize_path(path@);
                let i = path_index(before.registry, gone);
                lemma_path_index(before.registry, gone);
                let keep = not_owned_by(gone);
                lemma_filter_items(before.bus.subscriptions, keep);
                let subs = self@.bus.subscriptions;
                assert forall|k: int| 0 <= k < subs.len() implies match (#[trigger] subs[k]).owner {
                    Some(path) => has_path(self@.registry, path),
                    None => true,
                } by {
                    assert(before.bus.subscriptions.contains(subs[k]));
                    let j = choose|j: int|
                        0 <= j < before.bus.subscriptions.len() && before.bus.subscriptions[j]
                            == subs[k];
                    assert(before.bus.subscriptions[j] == subs[k]);
                    match subs[k].owner {
                        Some(path) => {
                            assert(keep(subs[k]));
                            assert(path != gone);
                            lemma_has_path(before.registry, path);
                            let m = choose|m: int|
                                0 <= m < before.registry.len() && (
                                #[trigger] before.registry[m]).meta.path == path;
                            assert(m != i);
                            let m2 = if m < i {
                                m
                            } else {
                                m - 1
                            };
                            assert(self@.registry[m2] == before.registry[m]);
                            lemma_has_path(self@.registry, path);
                        },
                        None => {},
                    }
                }
            }
        }
        r
    }

    /// Subscribes a handler outside the host to `topic` and returns the id of
    /// the subscription. Nothing is subscribed, and nothing returned, where
    /// the host has stopped or the ids are used up.
    pub fn subscribe(&mut self, topic: &str, handler: &str, options: SubscriptionOptions) -> (r:
        Option<SubscriptionId>)
        ensures
            old(self)@.wf() ==> final(self)@.wf(),
            final(self)@.state == old(self)@.state,
            final(self)@.registry == old(self)@.registry,
            final(self)@.pending == old(self)@.pending,
            final(self).services() == old(self).services(),
            if old(self)@.state != ServiceState::Stopped && old(self)@.bus.next_id < u64::MAX {
                &&& r matches Some(id) && id.0 == old(self)@.bus.next_id
                &&& final(self)@.bus == old(self)@.bus.subscribe(
                    topic@,
                    None,
                    handler@,
                    options.once,
                )
            } else {
                r is None && final(self)@ == old(self)@
            },
    {
        if let ServiceState::Stopped = self.state {
            return None;
        }
        self.bus.subscribe(topic, None, handler, options)
    }

    /// Cancels the subscription that `id` names on `topic`, and says whether
    /// there was one. Where there is none, nothing changes.
    pub fn unsubscribe(&mut self, topic: &str, id: SubscriptionId) -> (removed: bool)
        ensures
            old(self)@.wf() ==> final(self)@.wf(),
            final(self)@ == (NodeModel {
                bus: old(self)@.bus.unsubscribe(topic@, id.0),
                ..old(self)@
            }),
            final(self).services() == old(self).services(),
            removed == exists|i: int|
                0 <= i < old(self)@.bus.subscriptions.len()
                    && old(self)@.bus.subscriptions[i].is_named(topic@, id.0),
            !removed ==> final(self)@ == old(self)@,
    {
        proof {
            lemma_unsubscribe_keeps_wf(self@, topic@, id.0);
        }
        self.bus.unsubscribe(topic, id)
    }

    /// Publishes `payload` on `topic`: every subscriber that the topic
    /// reaches gets one delivery, in the order of subscription, behind the
    /// events that are already on their way. Returns how many deliveries
    /// were made. The handlers run when the deliveries are carried out.
    pub fn publish(&mut self, topic: &str, payload: &Value) -> (count: usize)
        ensures
            old(self)@.wf() ==> final(self)@.wf(),
            final(self)@ == old(self)@.publish(topic@, payload@),
            final(self).services() == old(self).services(),
            count == old(self)@.bus.subscribers(topic@).len(),
    {
        let ghost before = self@;
        proof {
            lemma_publish_keeps_wf(before, topic@, payload@);
        }
        let deliveries = self.bus.publish(topic, payload);
        let count = deliveries.len();
        for d in it: deliveries
            invariant
                it.seq() == deliveries@,
                before == old(self)@,
                before.wf() ==> before.publish(topic@, payload@).wf(),
                count == deliveries@.len(),
                delivery_models(deliveries@) == deliveries_to(
                    before.bus.subscribers(topic@),
                    topic@,
                    payload@,
                ),
                self.state == before.state,
                self.registry@ == before.registry,
                self.registry.services() == old(self).registry.services(),
                self.bus@ == before.bus.publish(topic@),
                delivery_models(self.pending@) == before.pending + delivery_models(it.history()),
        {
            let ghost queued = delivery_models(self.pending@);
            let ghost moved = delivery_models(it.history());
            self.pending.push_back(d);
            proof {
                assert(delivery_models(self.pending@) =~= queued.push(d@));
                assert(delivery_models(it.history().push(d)) =~= moved.push(d@));
            }
        }
        proof {
            assert(delivery_models(self.pending@) =~= before.pending + delivery_models(
                deliveries@,
            ));
        }
        count
    }

    /// Resolves the request to `address` with `body`: finds the service and
    /// the operation, and makes the request that the service gets.
    pub fn route(&self, address: &str, body: &Value) -> (r: Result<
        (usize, ServiceRequest),
        DispatchError,
    >)
        ensures
            match route(self@.registry, address@, body@) {
                Ok(to) => {
                    &&& r matches Ok((index, request)) && index == to.index && request@
                        == to.request
                    &&& to.index < self@.registry.len()
                    &&& self@.registry[to.index].meta.path == to.request.path
                },
                Err(e) => r matches Err(x) && x == e,
            },
    {
        let ghost text = address@;
        let address = match parse_address(address) {
            Ok(a) => a,
            Err(e) => {
                return Err(e);
            },
        };
        proof {
            lemma_path_index(self@.registry, address.path@);
        }
        let index = match self.registry.find_exact(address.path.as_str()) {
            Some(i) => i,
            None => {
                return Err(DispatchError::ServiceNotFound);
            },
        };
        let entry = match self.registry.entry(index) {
            Some(e) => e,
            None => {
                return Err(DispatchError::ServiceNotFound);
            },
        };
        let op = match entry.meta().operation(address.operation.as_str()) {
            Some(op) => op,
            None => {
                return Err(DispatchError::OperationNotFound);
            },
        };
        match entry.state() {
            ServiceState::Running => {},
            _ => {
                return Err(DispatchError::ServiceNotRunning);
            },
        }
        let params = params_for(op, body);
        Ok((index, ServiceRequest { path: address.path, operation: address.operation, params }))
    }

    /// Ends a request: carries out what the service at position `index` asked
    /// for while it served the request, and makes the response for the
    /// caller from what the handler returned. A handler's failure becomes an
    /// error response.
    pub fn settle_request(
        &mut self,
        index: usize,
        outcome: Result<ServiceResponse, HandlerError>,
        commands: &Vec<Command>,
    ) -> (r: ServiceResponse)
        requires
            index < old(self)@.registry.len(),
        ensures
            old(self)@.wf() ==> final(self)@.wf(),
            r@ == response_for(outcome),
            final(self)@ == old(self)@.carry_out_all(
                old(self)@.registry[index as int].meta.path,
                command_models(commands@),
            ),
            final(self).services() == old(self).services(),
    {
        let path = match self.registry.entry(index) {
            Some(e) => e.meta().path().to_owned(),
            None => String::new(),
        };
        proof {
            lemma_has_path(self@.registry, path@);
            lemma_carry_out_all_keeps(self@, path@, command_models(commands@));
        }
        self.carry_out(path.as_str(), commands);
        response_from(outcome)
    }

    /// Makes the declared subscriptions of the service at position `index`
    /// active, in the order in which they were declared.
    fn activate_declared(&mut self, index: usize)
        requires
            index < old(self)@.registry.len(),
        ensures
            final(self)@ == (NodeModel {
                bus: activate(
                    old(self)@.bus,
                    old(self)@.registry[index as int].meta.path,
                    old(self)@.registry[index as int].meta.subscriptions,
                ),
                ..old(self)@
            }),
            final(self).services() == old(self).services(),
    {
        let ghost before = self@;
        let entry = match self.registry.entry(index) {
            Some(e) => e,
            None => {
                return ;
            },
        };
        let path = entry.meta().path();
        let declared = entry.meta().subscriptions();
        let ghost all = declared_models(declared@);
        let mut i: usize = 0;
        proof {
            assert(all.take(0) =~= Seq::<DeclaredSubscriptionModel>::empty());
        }
        while i < declared.len()
            invariant
                i <= declared.len(),
                before == old(self)@,
                index < before.registry.len(),
                path@ == before.registry[index as int].meta.path,
                all == before.registry[index as int].meta.subscriptions,
                all == declared_models(declared@),
                self.state == before.state,
                self.registry@ == before.registry,
                self.registry.services() == old(self).registry.services(),
                self.pending@ == old(self).pending@,
                self.bus@ == activate(before.bus, path@, all.take(i as int)),
            decreases declared.len() - i,
        {
            proof {
                assert(all.take(i + 1).drop_last() =~= all.take(i as int));
                assert(all.take(i + 1).last() == all[i as int]);
            }
            let d = &declared[i];
            self.bus.subscribe(d.effective_topic(), Some(path), d.handler.as_str(), d.options);
            i += 1;
        }
        proof {
            assert(all.take(declared.len() as int) =~= all);
        }
    }

    /// Ends the initialization of the service at position `index` with what
    /// its `init` hook returned and asked for. Where the hook succeeded, the
    /// service is `Initialized`, its declared subscriptions are active, and
    /// what it asked for is carried out. Where the hook failed, nothing
    /// changes, and the failure is reported with the path of the service.
    ///
    /// A service that is not in state `Created` cannot be initialized: the
    /// transition is refused and nothing changes, whatever the hook
    /// returned.
    pub fn settle_init(
        &mut self,
        index: usize,
        outcome: Result<(), HandlerError>,
        commands: &Vec<Command>,
    ) -> (r: Result<(), LifecycleError>)
        requires
            index < old(self)@.registry.len(),
        ensures
            old(self)@.wf() ==> final(self)@.wf(),
            final(self).services() == old(self).services(),
            match next_state(old(self)@.registry[index as int].state, LifecycleEvent::Init) {
                None => {
                    &&& r matches Err(LifecycleError::InvalidTransition(t)) && t == (
                    InvalidTransition {
                        from: old(self)@.registry[index as int].state,
                        event: LifecycleEvent::Init,
                    })
                    &&& final(self)@ == old(self)@
                },
                Some(_) => match outcome {
                    Ok(()) => {
                        &&& r is Ok
                        &&& final(self)@ == old(self)@.after_init(
                            index as int,
                            command_models(commands@),
                        )
                    },
                    Err(e) => {
                        &&& r matches Err(LifecycleError::HookFailed(f)) && f@ == (
                        LifecycleFailureModel {
                            path: old(self)@.registry[index as int].meta.path,
                            event: LifecycleEvent::Init,
                            message: e.message@,
                        })
                        &&& final(self)@ == old(self)@
                    },
                },
            },
    {
        let ghost before = self@;
        let (state, path) = match self.registry.entry(index) {
            Some(e) => (e.state(), e.meta().path().to_owned()),
            None => (ServiceState::Stopped, String::new()),
        };
        if let Err(refused) = transition(state, LifecycleEvent::Init) {
            return Err(LifecycleError::InvalidTransition(refused));
        }
        match outcome {
            Ok(()) => {
                proof {
                    lemma_after_init(before, index as int, command_models(commands@));
                }
                let _ = self.registry.advance(index, LifecycleEvent::Init);
                self.activate_declared(index);
                self.carry_out(path.as_str(), commands);
                Ok(())
            },
            Err(e) => Err(
                LifecycleError::HookFailed(
                    LifecycleFailure { path, event: LifecycleEvent::Init, message: e.message },
                ),
            ),
        }
    }

    /// Ends the start of the service at position `index` with what its
    /// `start` hook returned. Where the hook succeeded, the service is
    /// `Running`. Where it failed, nothing changes, and the failure is
    /// reported with the path of the service.
    ///
    /// A service that is not in state `Initialized` cannot be started: the
    /// transition is refused and nothing changes, whatever the hook
    /// returned.
    pub fn settle_start(&mut self, index: usize, outcome: Result<(), HandlerError>) -> (r: Result<
        (),
        LifecycleError,
    >)
        requires
            index < old(self)@.registry.len(),
        ensures
            old(self)@.wf() ==> final(self)@.wf(),
            final(self).services() == old(self).services(),
            match next_state(old(self)@.registry[index as int].state, LifecycleEvent::Start) {
                None => {
                    &&& r matches Err(LifecycleError::InvalidTransition(t)) && t == (
                    InvalidTransition {
                        from: old(self)@.registry[index as int].state,
                        event: LifecycleEvent::Start,
                    })
                    &&& final(self)@ == old(self)@
                },
                Some(_) => match outcome {
                    Ok(()) => {
                        &&& r is Ok
                        &&& final(self)@ == old(self)@.after_start(index as int)
                    },
                    Err(e) => {
                        &&& r matches Err(LifecycleError::HookFailed(f)) && f@ == (
                        LifecycleFailureModel {
                            path: old(self)@.registry[index as int].meta.path,
                            event: LifecycleEvent::Start,
                            message: e.message@,
                        })
                        &&& final(self)@ == old(self)@
                    },
                },
            },
    {
        let ghost before = self@;
        let (state, path) = match self.registry.entry(index) {
            Some(e) => (e.state(), e.meta().path().to_owned()),
            None => (ServiceState::Stopped, String::new()),
        };
        if let Err(refused) = transition(state, LifecycleEvent::Start) {
            return Err(LifecycleError::InvalidTransition(refused));
        }
        match outcome {
            Ok(()) => {
                let _ = self.registry.advance(index, LifecycleEvent::Start);
                proof {
                    lemma_after_start(before, index as int);
                }
                Ok(())
            },
            Err(e) => Err(
                LifecycleError::HookFailed(
                    LifecycleFailure { path, event: LifecycleEvent::Start, message: e.message },
                ),
            ),
        }
    }

    /// Ends the stop of the service at position `index` with what its `stop`
    /// hook returned. The service is `Stopped` whatever the hook returned; a
    /// failure of the hook is reported with the path of the service.
    pub fn settle_stop(&mut self, index: usize, outcome: Result<(), HandlerError>) -> (r: Result<
        (),
        LifecycleFailure,
    >)
        requires
            index < old(self)@.registry.len(),
        ensures
            old(self)@.wf() ==> final(self)@.wf(),
            final(self).services() == old(self).services(),
            final(self)@ == (NodeModel {
                registry: with_state(old(self)@.registry, index as int, ServiceState::Stopped),
                ..old(self)@
            }),
            match outcome {
                Ok(()) => r is Ok,
                Err(e) => r matches Err(f) && f@ == (LifecycleFailureModel {
                    path: old(self)@.registry[index as int].meta.path,
                    event: LifecycleEvent::Stop,
                    message: e.message@,
                }),
            },
    {
        let ghost before = self@;
        let _ = self.registry.advance(index, LifecycleEvent::Stop);
        proof {
            lemma_state_change(before.registry, index as int, ServiceState::Stopped);
        }
        match outcome {
            Ok(()) => Ok(()),
            Err(e) => {
                let path = match self.registry.entry(index) {
                    Some(e) => e.meta().path().to_owned(),
                    None => String::new(),
                };
                Err(LifecycleFailure { path, event: LifecycleEvent::Stop, message: e.message })
            },
        }
    }

    /// Takes the next event off the queue and finds the service that it goes
    /// to, if it goes to one.
    fn take_next(&mut self) -> (r: Option<(Delivery, Option<usize>)>)
        ensures
            final(self).services() == old(self).services(),
            match r {
                None => old(self)@.pending.len() == 0 && final(self)@ == old(self)@,
                Some((d, to)) => {
                    &&& old(self)@.pending.len() > 0
                    &&& d@ == old(self)@.pending[0]
                    &&& final(self)@ == (NodeModel {
                        pending: old(self)@.pending.drop_first(),
                        ..old(self)@
                    })
                    &&& match receiver(old(self)@.registry, d@) {
                        Some(i) => to matches Some(j) && j == i && i < old(self)@.registry.len(),
                        None => to is None,
                    }
                },
            },
    {
        let ghost before = self@;
        let d = match self.pending.pop_front() {
            Some(d) => d,
            None => {
                assert(self@.pending =~= before.pending);
                return None;
            },
        };
        proof {
            assert(self@.pending =~= before.pending.drop_first());
            assert(d@ == before.pending[0]);
        }
        let to = match &d.owner {
            Some(path) => match self.registry.find_exact(path.as_str()) {
                Some(i) => match self.registry.entry(i) {
                    Some(entry) => if state_is_active(entry.state()) {
                        Some(i)
                    } else {
                        None
                    },
                    None => None,
                },
                None => None,
            },
            None => None,
        };
        Some((d, to))
    }

    /// Ends a delivery to the service at position `index` with what its
    /// handler returned and asked for: carries out what it asked for, and
    /// says what came of the delivery. A failure of the handler stays with
    /// this delivery.
    pub fn settle_delivery(
        &mut self,
        delivery: &Delivery,
        index: usize,
        result: Result<(), HandlerError>,
        commands: &Vec<Command>,
    ) -> (r: DeliveryOutcome)
        requires
            index < old(self)@.registry.len(),
        ensures
            old(self)@.wf() ==> final(self)@.wf(),
            r@ == outcome_for(delivery@, old(self)@.registry[index as int].meta.path, result),
            final(self)@ == old(self)@.carry_out_all(
                old(self)@.registry[index as int].meta.path,
                command_models(commands@),
            ),
            final(self).services() == old(self).services(),
    {
        let path = match self.registry.entry(index) {
            Some(e) => e.meta().path().to_owned(),
            None => String::new(),
        };
        proof {
            lemma_has_path(self@.registry, path@);
            lemma_carry_out_all_keeps(self@, path@, command_models(commands@));
        }
        self.carry_out(path.as_str(), commands);
        match result {
            Ok(()) => DeliveryOutcome::Handled { subscription: delivery.subscription },
            Err(e) => DeliveryOutcome::Failed {
                subscription: delivery.subscription,
                path,
                message: e.message,
            },
        }
    }

    /// Carries out what the service at `owner` asked for, in order.
    fn carry_out(&mut self, owner: &str, commands: &Vec<Command>)
        ensures
            final(self)@ == old(self)@.carry_out_all(owner@, command_models(commands@)),
            final(self).services() == old(self).services(),
    {
        let ghost before = self@;
        let ghost all = command_models(commands@);
        let mut i: usize = 0;
        proof {
            assert(all.take(0) =~= Seq::<CommandModel>::empty());
        }
        while i < commands.len()
            invariant
                i <= commands.len(),
                all == command_models(commands@),
                self@ == before.carry_out_all(owner@, all.take(i as int)),
                self.services() == old(self).services(),
            decreases commands.len() - i,
        {
            proof {
                assert(all.take(i + 1).drop_last() =~= all.take(i as int));
                assert(all.take(i + 1).last() == all[i as int]);
            }
            match &commands[i] {
                Command::Publish { topic, payload } => {
                    self.publish(topic.as_str(), payload);
                },
                Command::Subscribe { topic, handler, options } => {
                    self.bus.subscribe(topic.as_str(), Some(owner), handler.as_str(), *options);
                },
                Command::Unsubscribe { topic, id } => {
                    self.bus.unsubscribe(topic.as_str(), *id);
                },
            }
            i += 1;
        }
        proof {
            assert(all.take(commands.len() as int) =~= all);
        }
    }
}

impl<S: AbstractService> Node<S> {
    /// Registers `service` under the path that its metadata names, in state
    /// `Created`. Nothing is registered where that path is taken, or where
    /// the host has stopped. The metadata is what the service's `metadata`
    /// returns for it; the error of a taken path names that path.
    pub fn add_service(&mut self, service: S) -> (r: Result<(), RegistrationError>)
        ensures
            old(self)@.wf() ==> final(self)@.wf(),
            final(self)@.state == old(self)@.state,
            final(self)@.bus == old(self)@.bus,
            final(self)@.pending == old(self)@.pending,
            old(self)@.state != ServiceState::Stopped ==> exists|meta: ServiceMetadata|
                {
                    &&& #[trigger] call_ensures(S::metadata, (&service,), meta)
                    &&& match register(old(self)@.registry, meta@) {
                        Some(after) => r is Ok && final(self)@.registry == after,
                        None => r matches Err(RegistrationError::DuplicatePath(e)) && e.path@
                            == meta@.path,
                    }
                },
            match r {
                Ok(()) => {
                    &&& old(self)@.state != ServiceState::Stopped
                    &&& final(self)@.registry.len() == old(self)@.registry.len() + 1
                    &&& final(self)@.registry.drop_last() == old(self)@.registry
                    &&& final(self)@.registry.last().state == ServiceState::Created
                    &&& !has_path(old(self)@.registry, final(self)@.registry.last().meta.path)
                    &&& final(self).services() == old(self).services().push(service)
                },
                Err(RegistrationError::NodeStopped) => {
                    &&& old(self)@.state == ServiceState::Stopped
                    &&& final(self)@ == old(self)@
                    &&& final(self).services() == old(self).services()
                },
                Err(RegistrationError::DuplicatePath(e)) => {
                    &&& old(self)@.state != ServiceState::Stopped
                    &&& has_path(old(self)@.registry, e.path@)
                    &&& final(self)@ == old(self)@
                    &&& final(self).services() == old(self).services()
                },
            },
    {
        let meta = service.metadata();
        let ghost before = self@.registry;
        let r = self.register(meta, service);
        proof {
            if r is Ok {
                assert(self@.registry.drop_last() =~= before);
            }
        }
        r
    }

    /// Sends `body` to the operation that `address` names, and returns the
    /// response of its handler. An address that names no operation of a
    /// running service is refused before any handler is called.
    ///
    /// A bare scalar sent to an operation of exactly one parameter reaches
    /// the handler as the mapping of that parameter to the scalar. A failure
    /// of the handler comes back as an error response. What the handler
    /// asked of the host is carried out before the response is returned.
    pub fn request(&mut self, address: &str, body: &Value) -> (r: Result<
        ServiceResponse,
        DispatchError,
    >)
        ensures
            old(self)@.wf() ==> final(self)@.wf(),
            match route(old(self)@.registry, address@, body@) {
                Err(e) => {
                    &&& r matches Err(x) && x == e
                    &&& final(self)@ == old(self)@
                    &&& final(self).services() == old(self).services()
                },
                Ok(to) => {
                    &&& r is Ok
                    &&& exists|commands: Seq<CommandModel>|
                        final(self)@ == #[trigger] old(self)@.carry_out_all(
                            to.request.path,
                            commands,
                        )
                    &&& final(self)@.state == old(self)@.state
                    &&& final(self)@.registry == old(self)@.registry
                    &&& begins_with(final(self)@.pending, old(self)@.pending)
                    &&& final(self)@.bus.next_id >= old(self)@.bus.next_id
                    &&& final(self).services().len() == old(self).services().len()
                    &&& forall|j: int|
                        0 <= j < old(self).services().len() && j != to.index
                            ==> final(self).services()[j] == old(self).services()[j]
                },
            },
    {
        let ghost before = self@;
        let (index, request) = match self.route(address, body) {
            Ok(to) => to,
            Err(e) => {
                return Err(e);
            },
        };
        let mut ctx = RequestContext::new(request.path.as_str());
        let outcome = self.registry.call_request(index, &request, &mut ctx);
        let commands = ctx.into_commands();
        proof {
            lemma_path_index(before.registry, request.path@);
            lemma_carry_out_all_keeps(before, request.path@, command_models(commands@));
            lemma_carry_out_all_queue(before, request.path@, command_models(commands@));
        }
        let response = self.settle_request(index, outcome, &commands);
        Ok(response)
    }
}

impl<S: AbstractService> Node<S> {
    /// Carries out the next delivery, if an event is on its way: calls the
    /// handler of the service that owns the subscription, and says what came
    /// of it. An event for a subscription that no service owns is handed
    /// out; one for a service that is gone or not active is dropped.
    pub fn deliver_next(&mut self) -> (r: Option<DeliveryOutcome>)
        ensures
            old(self)@.wf() ==> final(self)@.wf(),
            final(self)@.state == old(self)@.state,
            final(self)@.registry == old(self)@.registry,
            final(self)@.bus.next_id >= old(self)@.bus.next_id,
            final(self).services().len() == old(self).services().len(),
            if old(self)@.pending.len() == 0 {
                &&& r is None
                &&& final(self)@ == old(self)@
                &&& final(self).services() == old(self).services()
            } else {
                let d = old(self)@.pending[0];
                &&& r matches Some(o) && outcome_subscription(o@) == d.subscription
                &&& begins_with(final(self)@.pending, old(self)@.pending.drop_first())
                &&& exists|asked: Seq<CommandModel>|
                    final(self)@ == #[trigger] old(self)@.after_delivery(asked)
                &&& match receiver(old(self)@.registry, d) {
                    Some(i) => {
                        &&& r matches Some(o) && match o@ {
                            OutcomeModel::Handled { subscription } => true,
                            OutcomeModel::Failed { subscription, path, message } => path
                                == old(self)@.registry[i].meta.path,
                            _ => false,
                        }
                        &&& forall|j: int|
                            0 <= j < old(self).services().len() && j != i
                                ==> final(self).services()[j] == old(self).services()[j]
                    },
                    None => {
                        &&& final(self).services() == old(self).services()
                        &&& r matches Some(o) && o@ == if d.owner is None {
                            OutcomeModel::Unowned { delivery: d }
                        } else {
                            OutcomeModel::Dropped { subscription: d.subscription }
                        }
                    },
                }
            },
    {
        let ghost before = self@;
        let (delivery, to) = match self.take_next() {
            Some(next) => next,
            None => {
                return None;
            },
        };
        let ghost rest = self@;
        match to {
            Some(index) => {
                let path = match self.registry.entry(index) {
                    Some(e) => e.meta().path().to_owned(),
                    None => String::new(),
                };
                let mut ctx = RequestContext::new(path.as_str());
                let result = self.registry.call_event(
                    index,
                    delivery.handler.as_str(),
                    delivery.topic.as_str(),
                    &delivery.payload,
                    &mut ctx,
                );
                let commands = ctx.into_commands();
                proof {
                    lemma_path_index(before.registry, path@);
                    lemma_has_path(before.registry, path@);
                    lemma_carry_out_all_keeps(rest, path@, command_models(commands@));
                    lemma_carry_out_all_queue(rest, path@, command_models(commands@));
                }
                let outcome = self.settle_delivery(&delivery, index, result, &commands);
                proof {
                    let i = receiver(before.registry, delivery@)->0;
                    assert(i == index);
                    assert(before.registry[i].meta.path == path@);
                    assert(self@ == rest.carry_out_all(
                        before.registry[i].meta.path,
                        command_models(commands@),
                    ));
                    assert(self@ == before.after_delivery(command_models(commands@)));
                }
                Some(outcome)
            },
            None => {
                proof {
                    assert(rest.pending.take(rest.pending.len() as int) =~= rest.pending);
                    assert(self@ == before.after_delivery(Seq::empty()));
                }
                match &delivery.owner {
                    Some(_) => Some(
                        DeliveryOutcome::Dropped { subscription: delivery.subscription },
                    ),
                    None => Some(DeliveryOutcome::Unowned(delivery)),
                }
            },
        }
    }

    /// Carries out the deliveries that are on their way, next first, until
    /// none is left or `limit` of them are done, and says what came of each.
    /// Events that handlers publish meanwhile wait behind those that were on
    /// their way. A handler's failure does not keep the next delivery from
    /// being made.
    pub fn deliver_pending(&mut self, limit: usize) -> (report: Vec<DeliveryOutcome>)
        ensures
            old(self)@.wf() ==> final(self)@.wf(),
            final(self)@.state == old(self)@.state,
            final(self)@.registry == old(self)@.registry,
            final(self)@.bus.next_id >= old(self)@.bus.next_id,
            final(self).services().len() == old(self).services().len(),
            report@.len() <= limit,
            report@.len() < limit ==> final(self)@.pending.len() == 0,
            report@.len() >= limit || report@.len() >= old(self)@.pending.len(),
            forall|i: int|
                0 <= i < report@.len() && i < old(self)@.pending.len() ==> outcome_subscription(
                    (#[trigger] report@[i])@,
                ) == old(self)@.pending[i].subscription,
            report@.len() <= old(self)@.pending.len() ==> begins_with(
                final(self)@.pending,
                old(self)@.pending.skip(report@.len() as int),
            ),
            exists|asked: Seq<Seq<CommandModel>>|
                final(self)@ == #[trigger] old(self)@.after_deliveries(
                    report@.len() as int,
                    asked,
                ),
            limit == 0 ==> final(self)@ == old(self)@,
    {
        let ghost waiting = self@.pending;
        let ghost before = self@;
        let mut asked: Ghost<Seq<Seq<CommandModel>>> = Ghost(Seq::empty());
        let mut report: Vec<DeliveryOutcome> = Vec::new();
        proof {
            assert(waiting.skip(0) =~= waiting);
            assert(waiting.take(waiting.len() as int) =~= waiting);
        }
        while report.len() < limit
            invariant
                waiting == old(self)@.pending,
                old(self)@.wf() ==> self@.wf(),
                self@.state == old(self)@.state,
                self@.registry == old(self)@.registry,
                self@.bus.next_id >= old(self)@.bus.next_id,
                self.services().len() == old(self).services().len(),
                report@.len() <= limit,
                report@.len() == 0 ==> self@ == old(self)@,
                forall|i: int|
                    0 <= i < report@.len() && i < waiting.len() ==> outcome_subscription(
                        (#[trigger] report@[i])@,
                    ) == waiting[i].subscription,
                report@.len() <= waiting.len() ==> begins_with(
                    self@.pending,
                    waiting.skip(report@.len() as int),
                ),
                before == old(self)@,
                asked@.len() == report@.len(),
                self@ == before.after_deliveries(report@.len() as int, asked@),
            ensures
                report@.len() < limit ==> self@.pending.len() == 0,
            decreases limit - report@.len(),
        {
            let ghost k = report@.len() as int;
            let ghost queue = self@.pending;
            let ghost done = report@;
            let ghost cur = self@;
            let ghost so_far = asked@;
            match self.deliver_next() {
                Some(outcome) => {
                    report.push(outcome);
                    proof {
                        let more = choose|more: Seq<CommandModel>|
                            self@ == cur.after_delivery(more);
                        asked@ = so_far.push(more);
                        lemma_after_deliveries_more(before, k, so_far, more);
                        if k < waiting.len() {
                            let rest = waiting.skip(k);
                            assert(queue.take(rest.len() as int)[0] == queue[0]);
                            assert(rest[0] == waiting[k]);
                            assert(queue[0] == waiting[k]);
                            // What was behind the delivery is still in the queue.
                            let behind = waiting.skip(k + 1);
                            assert(behind =~= rest.drop_first());
                            assert(queue.drop_first().take(behind.len() as int)
                                =~= queue.take(rest.len() as int).drop_first());
                            assert(self@.pending.take(behind.len() as int)
                                =~= self@.pending.take(queue.drop_first().len() as int).take(
                                behind.len() as int,
                            ));
                        }
                        assert forall|i: int|
                            0 <= i < report@.len() && i
                                < waiting.len() implies outcome_subscription(
                            (#[trigger] report@[i])@,
                        ) == waiting[i].subscription by {
                            if i < k {
                                assert(report@[i] == done[i]);
                            }
                        }
                    }
                },
                None => {
                    break ;
                },
            }
        }
        proof {
            if report@.len() < limit && report@.len() < waiting.len() {
                let rest = waiting.skip(report@.len() as int);
                assert(rest.len() > 0);
            }
        }
        report
    }

    /// Initializes the host: calls the `init` hook of every service that is
    /// in state `Created`, in the order of registration. A service whose
    /// hook succeeds is `Initialized`, and its declared subscriptions are
    /// active.
    ///
    /// The first hook that fails ends the initialization: the failure is
    /// reported with the path of the service, the services before it stay
    /// initialized, and the host stays in state `Created`. A host that is
    /// not in state `Created` is left as it is.
    pub fn init(&mut self) -> (r: Result<(), LifecycleError>)
        ensures
            old(self)@.wf() ==> final(self)@.wf(),
            final(self).services().len() == old(self).services().len(),
            begins_with(final(self)@.pending, old(self)@.pending),
            final(self)@.bus.next_id >= old(self)@.bus.next_id,
            match next_state(old(self)@.state, LifecycleEvent::Init) {
                None => {
                    &&& r matches Err(LifecycleError::InvalidTransition(t)) && t == (
                    InvalidTransition { from: old(self)@.state, event: LifecycleEvent::Init })
                    &&& final(self)@ == old(self)@
                    &&& final(self).services() == old(self).services()
                },
                Some(next) => match r {
                    Ok(()) => {
                        &&& final(self)@.state == next
                        &&& final(self)@.registry == advanced(
                            old(self)@.registry,
                            old(self)@.registry.len() as int,
                            ServiceState::Created,
                            ServiceState::Initialized,
                        )
                        &&& exists|asked: Seq<Seq<CommandModel>>|
                            final(self)@ == (NodeModel {
                                state: next,
                                ..#[trigger] old(self)@.initialized_each(
                                    old(self)@.registry.len() as int,
                                    asked,
                                )
                            })
                    },
                    Err(LifecycleError::HookFailed(f)) => {
                        &&& final(self)@.state == old(self)@.state
                        &&& exists|k: int, asked: Seq<Seq<CommandModel>>|
                            {
                                &&& 0 <= k < old(self)@.registry.len()
                                &&& old(self)@.registry[k].state == ServiceState::Created
                                &&& f@.path == old(self)@.registry[k].meta.path
                                &&& f@.event == LifecycleEvent::Init
                                &&& final(self)@.registry == advanced(
                                    old(self)@.registry,
                                    k,
                                    ServiceState::Created,
                                    ServiceState::Initialized,
                                )
                                &&& final(self)@ == #[trigger] old(self)@.initialized_each(
                                    k,
                                    asked,
                                )
                            }
                    },
                    Err(LifecycleError::InvalidTransition(_)) => false,
                },
            },
    {
        let ghost before = self@;
        proof {
            assert(before.pending.take(before.pending.len() as int) =~= before.pending);
        }
        let next = match transition(self.state, LifecycleEvent::Init) {
            Ok(next) => next,
            Err(t) => {
                return Err(LifecycleError::InvalidTransition(t));
            },
        };
        let n = self.registry.len();
        let mut i: usize = 0;
        let mut asked: Ghost<Seq<Seq<CommandModel>>> = Ghost(Seq::empty());
        proof {
            assert(self@.registry =~= advanced(
                before.registry,
                0,
                ServiceState::Created,
                ServiceState::Initialized,
            ));
        }
        while i < n
            invariant
                i <= n,
                n == before.registry.len(),
                before == old(self)@,
                before.wf() ==> self@.wf(),
                begins_with(self@.pending, before.pending),
                self@.bus.next_id >= before.bus.next_id,
                self@.state == before.state,
                next_state(before.state, LifecycleEvent::Init) == Some(next),
                self.services().len() == old(self).services().len(),
                self@.registry == advanced(
                    before.registry,
                    i as int,
                    ServiceState::Created,
                    ServiceState::Initialized,
                ),
                asked@.len() == i,
                self@ == before.initialized_each(i as int, asked@),
            decreases n - i,
        {
            let ghost cur = self@;
            let ghost so_far = asked@;
            let created = match self.registry.entry(i) {
                Some(e) => match e.state() {
                    ServiceState::Created => Some(e.meta().path().to_owned()),
                    _ => None,
                },
                None => None,
            };
            match created {
                Some(path) => {
                    let mut ctx = RequestContext::new(path.as_str());
                    let outcome = self.registry.call_init(i, &mut ctx);
                    let commands = ctx.into_commands();
                    proof {
                        lemma_after_init(cur, i as int, command_models(commands@));
                        lemma_begins_with_trans(
                            cur.after_init(i as int, command_models(commands@)).pending,
                            cur.pending,
                            before.pending,
                        );
                    }
                    match self.settle_init(i, outcome, &commands) {
                        Ok(()) => {
                            proof {
                                asked@ = so_far.push(command_models(commands@));
                                lemma_initialized_each_more(
                                    before,
                                    i as int,
                                    so_far,
                                    command_models(commands@),
                                );
                            }
                        },
                        Err(e) => {
                            return Err(e);
                        },
                    }
                },
                None => {
                    proof {
                        asked@ = so_far.push(Seq::empty());
                        lemma_initialized_each_more(before, i as int, so_far, Seq::empty());
                    }
                },
            }
            proof {
                assert(self@.registry =~= advanced(
                    before.registry,
                    i + 1,
                    ServiceState::Created,
                    ServiceState::Initialized,
                ));
            }
            i += 1;
        }
        self.state = next;
        Ok(())
    }

    /// Brings the service at position `index` as far towards `Running` as
    /// its hooks allow: a service in state `Created` is initialized first,
    /// and a service that is `Initialized` is started. The first hook that
    /// fails ends the attempt and is reported.
    fn bring_up(&mut self, index: usize) -> (r: Result<(), LifecycleError>)
        requires
            index < old(self)@.registry.len(),
        ensures
            old(self)@.wf() ==> final(self)@.wf(),
            final(self)@.state == old(self)@.state,
            begins_with(final(self)@.pending, old(self)@.pending),
            final(self)@.bus.next_id >= old(self)@.bus.next_id,
            final(self).services().len() == old(self).services().len(),
            final(self)@.registry.len() == old(self)@.registry.len(),
            forall|j: int|
                0 <= j < old(self)@.registry.len() && j != index ==> final(self)@.registry[j]
                    == old(self)@.registry[j],
            final(self)@.registry[index as int].meta == old(self)@.registry[index as int].meta,
            start_moves(
                old(self)@.registry[index as int].state,
                final(self)@.registry[index as int].state,
            ),
            match r {
                Ok(()) => start_gap(final(self)@.registry[index as int].state) is None,
                Err(LifecycleError::HookFailed(f)) => start_gap(
                    final(self)@.registry[index as int].state,
                ) == Some(f@.event) && f@.path == old(self)@.registry[index as int].meta.path,
                Err(LifecycleError::InvalidTransition(_)) => false,
            },
            exists|run: BringUp|
                final(self)@ == #[trigger] old(self)@.brought_up(index as int, run),
    {
        let ghost before = self@;
        let (state, path) = match self.registry.entry(index) {
            Some(e) => (e.state(), e.meta().path().to_owned()),
            None => (ServiceState::Stopped, String::new()),
        };
        let ghost none = BringUp { init_ok: false, asked: Seq::empty(), start_ok: false };
        proof {
            assert(before.pending.take(before.pending.len() as int) =~= before.pending);
        }
        match state {
            ServiceState::Created => {
                let mut ctx = RequestContext::new(path.as_str());
                let outcome = self.registry.call_init(index, &mut ctx);
                let commands = ctx.into_commands();
                let ghost asked = command_models(commands@);
                proof {
                    lemma_after_init(before, index as int, asked);
                }
                match self.settle_init(index, outcome, &commands) {
                    Ok(()) => {
                        let ghost initialized = self@;
                        let outcome = self.registry.call_start(index);
                        let r = self.settle_start(index, outcome);
                        proof {
                            let run = BringUp { init_ok: true, asked, start_ok: r is Ok };
                            assert(self@ == before.brought_up(index as int, run));
                        }
                        r
                    },
                    Err(f) => {
                        proof {
                            assert(self@ == before.brought_up(index as int, none));
                        }
                        Err(f)
                    },
                }
            },
            ServiceState::Initialized => {
                let outcome = self.registry.call_start(index);
                let r = self.settle_start(index, outcome);
                proof {
                    let run = BringUp { init_ok: false, asked: Seq::empty(), start_ok: r is Ok };
                    assert(self@ == before.brought_up(index as int, run));
                }
                r
            },
            _ => {
                proof {
                    assert(self@ == before.brought_up(index as int, none));
                }
                Ok(())
            },
        }
    }

    /// Starts the host: brings every service to `Running`, in the order of
    /// registration. A service that is still in state `Created` is
    /// initialized first. A hook that fails leaves its service in the state
    /// that it had reached and is reported with the path of the service; the
    /// other services are started all the same.
    ///
    /// A host that is not in state `Initialized` is left as it is.
    pub fn start(&mut self) -> (r: Result<Vec<LifecycleFailure>, LifecycleError>)
        ensures
            old(self)@.wf() ==> final(self)@.wf(),
            final(self).services().len() == old(self).services().len(),
            begins_with(final(self)@.pending, old(self)@.pending),
            final(self)@.bus.next_id >= old(self)@.bus.next_id,
            match next_state(old(self)@.state, LifecycleEvent::Start) {
                None => {
                    &&& r matches Err(LifecycleError::InvalidTransition(t)) && t == (
                    InvalidTransition { from: old(self)@.state, event: LifecycleEvent::Start })
                    &&& final(self)@ == old(self)@
                    &&& final(self).services() == old(self).services()
                },
                Some(next) => {
                    &&& r matches Ok(report) && failure_keys(failure_models(report@))
                        == start_report(final(self)@.registry)
                    &&& final(self)@.state == next
                    &&& exists|runs: Seq<BringUp>|
                        final(self)@ == (NodeModel {
                            state: next,
                            ..#[trigger] old(self)@.brought_up_each(
                                old(self)@.registry.len() as int,
                                runs,
                            )
                        })
                    &&& final(self)@.registry.len() == old(self)@.registry.len()
                    &&& forall|j: int|
                        0 <= j < old(self)@.registry.len() ==> (
                        #[trigger] final(self)@.registry[j]).meta == old(self)@.registry[j].meta
                            && start_moves(
                            old(self)@.registry[j].state,
                            final(self)@.registry[j].state,
                        )
                },
            },
    {
        let ghost before = self@;
        proof {
            assert(before.pending.take(before.pending.len() as int) =~= before.pending);
        }
        let next = match transition(self.state, LifecycleEvent::Start) {
            Ok(next) => next,
            Err(t) => {
                return Err(LifecycleError::InvalidTransition(t));
            },
        };
        let n = self.registry.len();
        let mut report: Vec<LifecycleFailure> = Vec::new();
        let mut i: usize = 0;
        let mut runs: Ghost<Seq<BringUp>> = Ghost(Seq::empty());
        proof {
            assert(self@.registry.take(0) =~= Seq::<EntryModel>::empty());
            assert(failure_keys(failure_models(report@)) =~= start_report(
                self@.registry.take(0),
            ));
            assert(before.pending.take(before.pending.len() as int) =~= before.pending);
        }
        while i < n
            invariant
                i <= n,
                n == before.registry.len(),
                before == old(self)@,
                before.wf() ==> self@.wf(),
                begins_with(self@.pending, before.pending),
                self@.bus.next_id >= before.bus.next_id,
                self@.state == before.state,
                next_state(before.state, LifecycleEvent::Start) == Some(next),
                self.services().len() == old(self).services().len(),
                self@.registry.len() == n,
                forall|j: int| i <= j < n ==> self@.registry[j] == before.registry[j],
                forall|j: int|
                    0 <= j < n ==> (#[trigger] self@.registry[j]).meta == before.registry[j].meta
                        && start_moves(before.registry[j].state, self@.registry[j].state),
                failure_keys(failure_models(report@)) == start_report(
                    self@.registry.take(i as int),
                ),
                runs@.len() == i,
                self@ == before.brought_up_each(i as int, runs@),
            decreases n - i,
        {
            let ghost cur = self@;
            let ghost listed = failure_models(report@);
            let ghost so_far = runs@;
            let r = self.bring_up(i);
            proof {
                let run = choose|run: BringUp| self@ == cur.brought_up(i as int, run);
                runs@ = so_far.push(run);
                lemma_brought_up_each_more(before, i as int, so_far, run);
                lemma_begins_with_trans(self@.pending, cur.pending, before.pending);
                assert(self@.registry.take(i + 1).drop_last() =~= cur.registry.take(i as int));
                assert(self@.registry.take(i + 1).last() == self@.registry[i as int]);
            }
            match r {
                Ok(()) => {},
                Err(LifecycleError::InvalidTransition(_)) => {},
                Err(LifecycleError::HookFailed(f)) => {
                    report.push(f);
                    proof {
                        assert(failure_models(report@) =~= listed.push(f@));
                        assert(failure_keys(failure_models(report@)) =~= failure_keys(
                            listed,
                        ).push((f@.path, f@.event)));
                    }
                },
            }
            i += 1;
        }
        proof {
            assert(self@.registry.take(n as int) =~= self@.registry);
        }
        self.state = next;
        Ok(report)
    }

    /// Stops the host. The events that are on their way are delivered
    /// first, and the report says what came of each. Events that handlers
    /// publish during these deliveries are not delivered any more: the
    /// report says how many were discarded. Then the `stop` hook of every
    /// service that is initialized or running is called, in the order of
    /// registration; a hook that fails is reported with the path of its
    /// service and keeps no other service from being stopped. At the end all
    /// subscriptions are cancelled, the registry is empty and the host is
    /// `Stopped`.
    ///
    /// Stopping a host that has stopped does nothing and reports nothing.
    pub fn stop(&mut self) -> (report: StopReport)
        ensures
            old(self)@.wf() ==> final(self)@.wf(),
            final(self)@.state == ServiceState::Stopped,
            final(self)@.bus.next_id >= old(self)@.bus.next_id,
            if old(self)@.state == ServiceState::Stopped {
                &&& report.deliveries@.len() == 0
                &&& report.discarded == 0
                &&& report.failures@.len() == 0
                &&& final(self)@ == old(self)@
                &&& final(self).services() == old(self).services()
            } else {
                &&& final(self)@.registry == Seq::<EntryModel>::empty()
                &&& final(self)@.bus.subscriptions == Seq::<SubscriptionModel>::empty()
                &&& final(self)@.pending == Seq::<DeliveryModel>::empty()
                &&& final(self).services() == Seq::<S>::empty()
                &&& report.deliveries@.len() == old(self)@.pending.len()
                &&& forall|i: int|
                    0 <= i < report.deliveries@.len() ==> outcome_subscription(
                        (#[trigger] report.deliveries@[i])@,
                    ) == old(self)@.pending[i].subscription
                &&& exists|asked: Seq<Seq<CommandModel>>|
                    report.discarded == (#[trigger] old(self)@.after_deliveries(
                        old(self)@.pending.len() as int,
                        asked,
                    )).pending.len()
                &&& forall|k: int|
                    0 <= k < report.failures@.len() ==> (#[trigger] report.failures@[k])@.event
                        == LifecycleEvent::Stop
                &&& names_active_in_order(
                    failure_paths(failure_models(report.failures@)),
                    old(self)@.registry,
                )
            },
    {
        let mut failures: Vec<LifecycleFailure> = Vec::new();
        if let ServiceState::Stopped = self.state {
            return StopReport { deliveries: Vec::new(), discarded: 0, failures };
        }
        let ghost before = self@;
        let waiting = self.pending.len();
        let deliveries = self.deliver_pending(waiting);
        let discarded = self.pending.len();
        let n = self.registry.len();
        let mut i: usize = 0;
        proof {
            assert(failure_paths(failure_models(failures@)) =~= Seq::<Seq<char>>::empty());
        }
        while i < n
            invariant
                i <= n,
                n == before.registry.len(),
                before == old(self)@,
                self@.registry.len() == n,
                self@.bus.next_id >= before.bus.next_id,
                deliveries@.len() == before.pending.len(),
                forall|i: int|
                    0 <= i < deliveries@.len() ==> outcome_subscription(
                        (#[trigger] deliveries@[i])@,
                    ) == before.pending[i].subscription,
                exists|asked: Seq<Seq<CommandModel>>|
                    discarded == (#[trigger] before.after_deliveries(
                        before.pending.len() as int,
                        asked,
                    )).pending.len(),
                forall|j: int| i <= j < n ==> self@.registry[j] == before.registry[j],
                forall|k: int|
                    0 <= k < failures@.len() ==> (#[trigger] failures@[k])@.event
                        == LifecycleEvent::Stop,
                names_active_in_order(
                    failure_paths(failure_models(failures@)),
                    before.registry.take(i as int),
                ),
            decreases n - i,
        {
            let ghost listed = failure_paths(failure_models(failures@));
            let ghost done = failures@;
            proof {
                assert(before.registry.take(i + 1).drop_last() =~= before.registry.take(i as int));
                assert(before.registry.take(i + 1).last() == before.registry[i as int]);
            }
            let active = match self.registry.entry(i) {
                Some(e) => state_is_active(e.state()),
                None => false,
            };
            if active {
                let outcome = self.registry.call_stop(i);
                match self.settle_stop(i, outcome) {
                    Ok(()) => {},
                    Err(f) => {
                        failures.push(f);
                        proof {
                            let now = failure_paths(failure_models(failures@));
                            assert(now.drop_last() =~= listed);
                            assert(now.last() == before.registry[i as int].meta.path);
                            assert forall|k: int| 0 <= k < failures@.len() implies (
                            #[trigger] failures@[k])@.event == LifecycleEvent::Stop by {
                                if k < done.len() {
                                    assert(failures@[k] == done[k]);
                                }
                            }
                        }
                    },
                }
            }
            i += 1;
        }
        proof {
            assert(before.registry.take(n as int) =~= before.registry);
        }
        self.registry.clear();
        self.bus.clear();
        self.pending = VecDeque::new();
        self.state = ServiceState::Stopped;
        proof {
            assert(self@.pending =~= Seq::<DeliveryModel>::empty());
        }
        StopReport { deliveries, discarded, failures }
    }
}

} // verus!
