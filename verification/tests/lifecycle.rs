use node_core::lifecycle::{
    state_is_active, transition, InvalidTransition, LifecycleEvent, ServiceState,
};

const STATES: [ServiceState; 4] = [
    ServiceState::Created,
    ServiceState::Initialized,
    ServiceState::Running,
    ServiceState::Stopped,
];

#[test]
fn init_leads_from_created_to_initialized() {
    assert_eq!(
        transition(ServiceState::Created, LifecycleEvent::Init),
        Ok(ServiceState::Initialized)
    );
}

#[test]
fn start_leads_from_initialized_to_running() {
    assert_eq!(
        transition(ServiceState::Initialized, LifecycleEvent::Start),
        Ok(ServiceState::Running)
    );
}

#[test]
fn start_is_refused_before_init() {
    assert_eq!(
        transition(ServiceState::Created, LifecycleEvent::Start),
        Err(InvalidTransition { from: ServiceState::Created, event: LifecycleEvent::Start })
    );
}

#[test]
fn init_is_refused_in_every_state_but_created() {
    for state in [ServiceState::Initialized, ServiceState::Running, ServiceState::Stopped] {
        assert_eq!(
            transition(state, LifecycleEvent::Init),
            Err(InvalidTransition { from: state, event: LifecycleEvent::Init })
        );
    }
}

#[test]
fn start_is_refused_in_every_state_but_initialized() {
    for state in [ServiceState::Created, ServiceState::Running, ServiceState::Stopped] {
        assert_eq!(
            transition(state, LifecycleEvent::Start),
            Err(InvalidTransition { from: state, event: LifecycleEvent::Start })
        );
    }
}

#[test]
fn stop_is_accepted_in_every_state() {
    for state in STATES {
        assert_eq!(transition(state, LifecycleEvent::Stop), Ok(ServiceState::Stopped));
    }
}

#[test]
fn stop_twice_is_stop_once() {
    let once = transition(ServiceState::Running, LifecycleEvent::Stop).unwrap();
    let twice = transition(once, LifecycleEvent::Stop).unwrap();
    assert_eq!(once, twice);
}

#[test]
fn a_service_is_active_between_init_and_stop() {
    assert!(!state_is_active(ServiceState::Created));
    assert!(state_is_active(ServiceState::Initialized));
    assert!(state_is_active(ServiceState::Running));
    assert!(!state_is_active(ServiceState::Stopped));
}

#[test]
fn states_and_steps_have_names() {
    let names: Vec<&str> = STATES.iter().map(|s| s.name()).collect();
    assert_eq!(names, vec!["Created", "Initialized", "Running", "Stopped"]);
    assert_eq!(LifecycleEvent::Init.name(), "init");
    assert_eq!(LifecycleEvent::Start.name(), "start");
    assert_eq!(LifecycleEvent::Stop.name(), "stop");
}

#[test]
fn refused_transition_says_what_was_refused() {
    let refused = transition(ServiceState::Running, LifecycleEvent::Init).unwrap_err();
    assert_eq!(refused.message(), "cannot init in state Running");
}
