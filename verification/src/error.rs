//! The failures that the host reports. Each has a kind that a program can
//! test and a message that a person can read.

use crate::lifecycle::{InvalidTransition, LifecycleEvent};
use vstd::prelude::*;
use vstd::string::StringExecFns;

verus! {

/// Why a request was not handed to a handler.
#[derive(Clone, Copy, Debug, PartialEq, Eq, Structural)]
pub enum DispatchError {
    /// The address is not of the form `<service path>/<operation>`.
    AddressFormatError,
    /// No service is registered under the path.
    ServiceNotFound,
    /// The service has no operation of that name.
    OperationNotFound,
    /// The service is registered but not running.
    ServiceNotRunning,
}

impl DispatchError {
    /// The message of this error.
    pub open spec fn spec_message(self) -> Seq<char> {
        match self {
            DispatchError::AddressFormatError => {
                "address is not of the form <service>/<operation>"@
            },
            DispatchError::ServiceNotFound => "service not found"@,
            DispatchError::OperationNotFound => "operation not found"@,
            DispatchError::ServiceNotRunning => "service is not running"@,
        }
    }

    /// A message for a person to read.
    pub fn message(&self) -> (r: String)
        ensures
            r@ == self.spec_message(),
    {
        match self {
            DispatchError::AddressFormatError => {
                "address is not of the form <service>/<operation>".to_owned()
            },
            DispatchError::ServiceNotFound => "service not found".to_owned(),
            DispatchError::OperationNotFound => "operation not found".to_owned(),
            DispatchError::ServiceNotRunning => "service is not running".to_owned(),
        }
    }
}

/// What a failed lifecycle hook is reported as.
pub struct LifecycleFailureModel {
    pub path: Seq<char>,
    pub event: LifecycleEvent,
    pub message: Seq<char>,
}

/// A lifecycle hook of a service returned a failure.
#[derive(Debug)]
pub struct LifecycleFailure {
    /// The path of the service whose hook failed.
    pub path: String,
    /// The step that the hook belongs to.
    pub event: LifecycleEvent,
    /// What the hook said.
    pub message: String,
}

impl View for LifecycleFailure {
    type V = LifecycleFailureModel;

    open spec fn view(&self) -> LifecycleFailureModel {
        LifecycleFailureModel { path: self.path@, event: self.event, message: self.message@ }
    }
}

impl LifecycleFailureModel {
    /// The line that reports this failure: the service, the step and what
    /// the hook said.
    pub open spec fn report(self) -> Seq<char> {
        self.path + ": "@ + self.event.spec_name() + " failed: "@ + self.message
    }
}

impl LifecycleFailure {
    /// A line for a person to read: the service, the step and what the hook
    /// said.
    pub fn report(&self) -> (r: String)
        ensures
            r@ == self@.report(),
    {
        let mut r = self.path.clone();
        r.append(": ");
        r.append(self.event.name());
        r.append(" failed: ");
        r.append(self.message.as_str());
        r
    }
}

/// The failures that a vector holds.
pub open spec fn failure_models(v: Seq<LifecycleFailure>) -> Seq<LifecycleFailureModel> {
    Seq::new(v.len(), |i: int| v[i]@)
}

/// Why a lifecycle step of the host did not go through.
#[derive(Debug)]
pub enum LifecycleError {
    /// The host is in a state from which the step does not lead on.
    InvalidTransition(InvalidTransition),
    /// A hook of a service failed.
    HookFailed(LifecycleFailure),
}

impl LifecycleError {
    /// The message of this error.
    pub open spec fn spec_message(self) -> Seq<char> {
        match self {
            LifecycleError::InvalidTransition(t) => t.spec_message(),
            LifecycleError::HookFailed(f) => f@.report(),
        }
    }

    /// A message for a person to read.
    pub fn message(&self) -> (r: String)
        ensures
            r@ == self.spec_message(),
    {
        match self {
            LifecycleError::InvalidTransition(t) => t.message(),
            LifecycleError::HookFailed(f) => f.report(),
        }
    }
}

} // verus!
