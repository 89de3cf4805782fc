//! The lifecycle of a service and of the host itself, as a finite-state
//! machine with a total transition function.

use vstd::prelude::*;
use vstd::string::StringExecFns;

verus! {

/// Where a service, or the host, stands in its life.
#[derive(Clone, Copy, Debug, PartialEq, Eq, Structural)]
pub enum ServiceState {
    Created,
    Initialized,
    Running,
    Stopped,
}

/// What moves a service, or the host, from one state to the next.
#[derive(Clone, Copy, Debug, PartialEq, Eq, Structural)]
pub enum LifecycleEvent {
    Init,
    Start,
    Stop,
}

/// A transition that the state machine does not have.
#[derive(Clone, Copy, Debug, PartialEq, Eq, Structural)]
pub struct InvalidTransition {
    pub from: ServiceState,
    pub event: LifecycleEvent,
}

impl ServiceState {
    /// The name of the state.
    pub open spec fn spec_name(self) -> Seq<char> {
        match self {
            ServiceState::Created => "Created"@,
            ServiceState::Initialized => "Initialized"@,
            ServiceState::Running => "Running"@,
            ServiceState::Stopped => "Stopped"@,
        }
    }

    /// The name of the state.
    pub fn name(&self) -> (r: &'static str)
        ensures
            r@ == self.spec_name(),
    {
        match self {
            ServiceState::Created => "Created",
            ServiceState::Initialized => "Initialized",
            ServiceState::Running => "Running",
            ServiceState::Stopped => "Stopped",
        }
    }
}

impl LifecycleEvent {
    /// The name of the step.
    pub open spec fn spec_name(self) -> Seq<char> {
        match self {
            LifecycleEvent::Init => "init"@,
            LifecycleEvent::Start => "start"@,
            LifecycleEvent::Stop => "stop"@,
        }
    }

    /// The name of the step.
    pub fn name(&self) -> (r: &'static str)
        ensures
            r@ == self.spec_name(),
    {
        match self {
            LifecycleEvent::Init => "init",
            LifecycleEvent::Start => "start",
            LifecycleEvent::Stop => "stop",
        }
    }
}

impl InvalidTransition {
    /// The message of this error.
    pub open spec fn spec_message(self) -> Seq<char> {
        "cannot "@ + self.event.spec_name() + " in state "@ + self.from.spec_name()
    }

    /// A message for a person to read.
    pub fn message(&self) -> (r: String)
        ensures
            r@ == self.spec_message(),
    {
        let mut r = "cannot ".to_owned();
        r.append(self.event.name());
        r.append(" in state ");
        r.append(self.from.name());
        r
    }
}

/// How far along its life a state is.
pub open spec fn rank(state: ServiceState) -> nat {
    match state {
        ServiceState::Created => 0,
        ServiceState::Initialized => 1,
        ServiceState::Running => 2,
        ServiceState::Stopped => 3,
    }
}

/// The state that `event` leads to from `state`, if that transition exists.
///
/// `Init` and `Start` each advance by exactly one step; `Stop` is accepted in
/// every state and leads to `Stopped`.
pub open spec fn next_state(state: ServiceState, event: LifecycleEvent) -> Option<ServiceState> {
    match (state, event) {
        (ServiceState::Created, LifecycleEvent::Init) => Some(ServiceState::Initialized),
        (ServiceState::Initialized, LifecycleEvent::Start) => Some(ServiceState::Running),
        (_, LifecycleEvent::Stop) => Some(ServiceState::Stopped),
        _ => None,
    }
}

/// The state machine's transition function. It is total: a transition that
/// does not exist is rejected with the state and event that were refused.
pub fn transition(state: ServiceState, event: LifecycleEvent) -> (r: Result<
    ServiceState,
    InvalidTransition,
>)
    ensures
        match next_state(state, event) {
            Some(next) => r == Ok::<ServiceState, InvalidTransition>(next),
            None => r == Err::<ServiceState, InvalidTransition>(
                (InvalidTransition { from: state, event }),
            ),
        },
{
    match event {
        LifecycleEvent::Stop => Ok(ServiceState::Stopped),
        LifecycleEvent::Init => match state {
            ServiceState::Created => Ok(ServiceState::Initialized),
            _ => Err(InvalidTransition { from: state, event }),
        },
        LifecycleEvent::Start => match state {
            ServiceState::Initialized => Ok(ServiceState::Running),
            _ => Err(InvalidTransition { from: state, event }),
        },
    }
}

/// Whether a service in this state takes part in the event bus: its
/// subscriptions are active from initialization until it stops.
pub open spec fn is_active(state: ServiceState) -> bool {
    state == ServiceState::Initialized || state == ServiceState::Running
}

/// Exec form of [`is_active`].
pub fn state_is_active(state: ServiceState) -> (r: bool)
    ensures
        r == is_active(state),
{
    match state {
        ServiceState::Initialized => true,
        ServiceState::Running => true,
        _ => false,
    }
}

/// The lifecycle is linear: `Init` and `Start` advance by exactly one step and
/// never skip a state, and nothing but `Stop` leads to `Stopped`.
pub proof fn lemma_lifecycle_is_linear(state: ServiceState, event: LifecycleEvent)
    ensures
        event != LifecycleEvent::Stop ==> match next_state(state, event) {
            Some(next) => rank(next) == rank(state) + 1 && next != ServiceState::Stopped,
            None => true,
        },
        next_state(state, LifecycleEvent::Init) is Some <==> state == ServiceState::Created,
        next_state(state, LifecycleEvent::Start) is Some <==> state == ServiceState::Initialized,
{
}

/// Stopping is accepted in every state and is idempotent: a second stop leads
/// where the first one led.
pub proof fn lemma_stop_is_idempotent(state: ServiceState)
    ensures
        next_state(state, LifecycleEvent::Stop) == Some(ServiceState::Stopped),
        next_state(ServiceState::Stopped, LifecycleEvent::Stop) == Some(ServiceState::Stopped),
{
}

} // verus!
