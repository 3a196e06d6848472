use supervisor::config::{Component, ConfigAggregate};
use supervisor::supervisor::{
    ControlEvent, DrainEvent, Signal, Supervisor, SupervisorAction, SupervisorState,
};
use supervisor::topology::{ReloadResult, RespawnOutcome, Topology};

fn comp(name: &str, definition: &str) -> Component {
    Component { name: name.to_string(), definition: definition.to_string() }
}

fn running_supervisor() -> Supervisor {
    let config = ConfigAggregate {
        sources: vec![comp("in", "stdin")],
        transforms: vec![],
        sinks: vec![comp("out", "stdout")],
        log_schema: String::new(),
    };
    let topology = Topology::start_validated(config, false, true).unwrap();
    Supervisor::new(topology, false)
}

fn names(v: &[Component]) -> Vec<String> {
    v.iter().map(|c| c.name.clone()).collect()
}

#[test]
fn interrupt_begins_graceful_shutdown() {
    let mut s = running_supervisor();
    let a = s.handle_event(ControlEvent::Operator(Signal::Interrupt));
    assert_eq!(a, SupervisorAction::BeginDrain);
    assert_eq!(s.state, SupervisorState::GracefulShutdown);
}

#[test]
fn terminate_begins_graceful_shutdown() {
    let mut s = running_supervisor();
    let a = s.handle_event(ControlEvent::Operator(Signal::Terminate));
    assert_eq!(a, SupervisorAction::BeginDrain);
    assert_eq!(s.state, SupervisorState::GracefulShutdown);
}

#[test]
fn quit_begins_immediate_shutdown() {
    let mut s = running_supervisor();
    let a = s.handle_event(ControlEvent::Operator(Signal::QuitNow));
    assert_eq!(a, SupervisorAction::DiscardTopology);
    assert_eq!(s.state, SupervisorState::ImmediateShutdown);
}

#[test]
fn crash_is_an_implicit_interrupt() {
    let mut s = running_supervisor();
    let a = s.handle_event(ControlEvent::ComponentCrashed);
    assert_eq!(a, SupervisorAction::BeginDrain);
    assert_eq!(s.state, SupervisorState::GracefulShutdown);
}

#[test]
fn sources_finished_is_an_implicit_interrupt() {
    let mut s = running_supervisor();
    let a = s.handle_event(ControlEvent::SourcesFinished);
    assert_eq!(a, SupervisorAction::BeginDrain);
    assert_eq!(s.state, SupervisorState::GracefulShutdown);
}

#[test]
fn reload_request_stays_running() {
    let mut s = running_supervisor();
    let a = s.handle_event(ControlEvent::Operator(Signal::Reload));
    assert_eq!(a, SupervisorAction::StartReload);
    assert_eq!(s.state, SupervisorState::Running);
}

#[test]
fn rejected_reload_leaves_running_set_untouched() {
    let mut s = running_supervisor();
    let before_sources = names(&s.topology.config.sources);
    let before_sinks = names(&s.topology.config.sinks);
    // the reload introduces a sink whose construction the spawn machinery rejects
    let new_config = ConfigAggregate {
        sources: vec![comp("in", "stdin")],
        transforms: vec![],
        sinks: vec![comp("out", "stdout"), comp("bad", "unbuildable")],
        log_schema: String::new(),
    };
    let r = s.complete_reload(Some(new_config), RespawnOutcome::FailedRestored);
    assert_eq!(r, Some(ReloadResult::Rejected));
    assert_eq!(s.state, SupervisorState::Running);
    assert_eq!(names(&s.topology.config.sources), before_sources);
    assert_eq!(names(&s.topology.config.sinks), before_sinks);
}

#[test]
fn accepted_reload_installs_the_new_generation() {
    let mut s = running_supervisor();
    let new_config = ConfigAggregate {
        sources: vec![comp("in", "stdin")],
        transforms: vec![],
        sinks: vec![comp("other", "kafka")],
        log_schema: String::new(),
    };
    let r = s.complete_reload(Some(new_config), RespawnOutcome::Succeeded);
    assert_eq!(r, Some(ReloadResult::Accepted));
    assert_eq!(s.state, SupervisorState::Running);
    assert_eq!(names(&s.topology.config.sinks), vec!["other".to_string()]);
}

#[test]
fn unchanged_reload_is_accepted_and_a_no_op() {
    let mut s = running_supervisor();
    let same = ConfigAggregate {
        sources: vec![comp("in", "stdin")],
        transforms: vec![],
        sinks: vec![comp("out", "stdout")],
        log_schema: String::new(),
    };
    // even a spawn verdict that would reject is never consulted: nothing changed
    let r = s.complete_reload(Some(same), RespawnOutcome::FailedRestored);
    assert_eq!(r, Some(ReloadResult::Accepted));
    assert_eq!(s.state, SupervisorState::Running);
    assert_eq!(names(&s.topology.config.sources), vec!["in".to_string()]);
    assert_eq!(names(&s.topology.config.sinks), vec!["out".to_string()]);
}

#[test]
fn failed_reparse_aborts_the_reload() {
    let mut s = running_supervisor();
    let r = s.complete_reload(None, RespawnOutcome::Succeeded);
    assert_eq!(r, None);
    assert_eq!(s.state, SupervisorState::Running);
    assert_eq!(names(&s.topology.config.sources), vec!["in".to_string()]);
}

#[test]
fn unrecoverable_reload_escalates_to_graceful_shutdown() {
    let mut s = running_supervisor();
    let new_config = ConfigAggregate {
        sources: vec![],
        transforms: vec![],
        sinks: vec![comp("other", "kafka")],
        log_schema: String::new(),
    };
    let r = s.complete_reload(Some(new_config), RespawnOutcome::FailedUnrecoverable);
    assert_eq!(r, Some(ReloadResult::Unrecoverable));
    assert_eq!(s.state, SupervisorState::GracefulShutdown);
}

#[test]
fn drain_completion_terminates() {
    let mut s = running_supervisor();
    s.handle_event(ControlEvent::Operator(Signal::Interrupt));
    let a = s.handle_drain_event(DrainEvent::DrainComplete);
    assert_eq!(a, None);
    assert_eq!(s.state, SupervisorState::Terminated);
}

#[test]
fn second_interrupt_during_slow_drain_shuts_down_immediately() {
    let mut s = running_supervisor();
    s.handle_event(ControlEvent::Operator(Signal::Interrupt));
    assert_eq!(s.state, SupervisorState::GracefulShutdown);
    // the drain has not completed when a second interrupt arrives
    let a = s.handle_drain_event(DrainEvent::OperatorSignal(Signal::Interrupt));
    assert_eq!(a, Some(SupervisorAction::DiscardTopology));
    assert_eq!(s.state, SupervisorState::ImmediateShutdown);
}

#[test]
fn any_signal_during_drain_overrides_it() {
    let mut s = running_supervisor();
    s.handle_event(ControlEvent::ComponentCrashed);
    let a = s.handle_drain_event(DrainEvent::OperatorSignal(Signal::Terminate));
    assert_eq!(a, Some(SupervisorAction::DiscardTopology));
    assert_eq!(s.state, SupervisorState::ImmediateShutdown);
}

#[test]
fn start_refused_when_unhealthy_and_health_required() {
    let config = ConfigAggregate {
        sources: vec![comp("in", "stdin")],
        transforms: vec![],
        sinks: vec![comp("out", "stdout")],
        log_schema: String::new(),
    };
    assert!(Topology::start_validated(config, true, false).is_none());
    let config2 = ConfigAggregate {
        sources: vec![comp("in", "stdin")],
        transforms: vec![],
        sinks: vec![comp("out", "stdout")],
        log_schema: String::new(),
    };
    assert!(Topology::start_validated(config2, false, false).is_some());
}
