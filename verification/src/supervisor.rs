//! The supervisor control loop: a finite-state machine driven by operator
//! signals and by events originating in the topology itself.
//!
//! The loop is strictly sequential: one event is consumed at a time, and a
//! reload runs to its accept/reject verdict before the next event is
//! looked at. A component crash or the exhaustion of every source is fed
//! into the same event stream as the operator's signals, synthesized as an
//! interrupt, so the machine has a single input type.

use vstd::prelude::*;
use crate::config::ConfigAggregate;
use crate::topology::{ReloadResult, RespawnOutcome, Topology};

verus! {

/// The supervisor's control states.
#[derive(Clone, Copy, PartialEq, Eq, Structural, Debug)]
pub enum SupervisorState {
    /// The pipeline runs; events are awaited.
    Running,
    /// A drain was issued; its completion races further signals.
    GracefulShutdown,
    /// The topology is discarded without waiting for the drain.
    ImmediateShutdown,
    /// The drain completed; the process may exit.
    Terminated,
}

/// An operator signal, as delivered by the platform's signal source.
#[derive(Clone, Copy, PartialEq, Eq, Structural, Debug)]
pub enum Signal {
    /// Re-read the configuration and respawn what changed.
    Reload,
    Interrupt,
    Terminate,
    /// Shut down at once, without draining.
    QuitNow,
}

/// One input of the control loop while the pipeline runs.
#[derive(Clone, Copy, PartialEq, Eq, Structural, Debug)]
pub enum ControlEvent {
    Operator(Signal),
    /// A running component exited unexpectedly.
    ComponentCrashed,
    /// Every source has exhausted its input.
    SourcesFinished,
}

/// What the caller must do next after an event was handled.
#[derive(Clone, Copy, PartialEq, Eq, Structural, Debug)]
pub enum SupervisorAction {
    /// Re-run parse, merge and macro expansion, then complete the reload.
    StartReload,
    /// Issue the topology's drain and race it against further signals.
    BeginDrain,
    /// Drop the topology without waiting; this must not block.
    DiscardTopology,
}

/// One input of the control loop while a graceful drain is under way.
#[derive(Clone, Copy, PartialEq, Eq, Structural, Debug)]
pub enum DrainEvent {
    /// The drain resolved: every task wound down.
    DrainComplete,
    /// A further operator signal arrived before the drain resolved.
    OperatorSignal(Signal),
}

/// The control loop's state: its mode, the topology handle it owns, and
/// whether reloads and starts demand healthy sinks.
pub struct Supervisor {
    pub state: SupervisorState,
    pub topology: Topology,
    pub require_healthy: bool,
}

impl Supervisor {
    /// The supervisor is well-formed when its topology is.
    pub open spec fn wf(self) -> bool {
        self.topology.wf()
    }

    /// Takes ownership of a started topology; the loop begins in `Running`.
    pub fn new(topology: Topology, require_healthy: bool) -> (s: Supervisor)
        requires
            topology.wf(),
        ensures
            s.wf(),
            s.state is Running,
            s.topology == topology,
            s.require_healthy == require_healthy,
    {
        Supervisor { state: SupervisorState::Running, topology, require_healthy }
    }

    /// Dispatches one event in `Running`. A reload request leaves the state
    /// untouched until its outcome is known; an interrupt or terminate — and
    /// likewise a crash or source exhaustion, both treated as an implicit
    /// interrupt — begin a graceful shutdown; a quit begins an immediate
    /// one.
    pub fn handle_event(&mut self, event: ControlEvent) -> (a: SupervisorAction)
        requires
            old(self).wf(),
            old(self).state is Running,
        ensures
            final(self).wf(),
            final(self).topology == old(self).topology,
            final(self).require_healthy == old(self).require_healthy,
            event == ControlEvent::Operator(Signal::Reload) ==> (final(self).state is Running && a
                == SupervisorAction::StartReload),
            (event == ControlEvent::Operator(Signal::Interrupt) || event
                == ControlEvent::Operator(Signal::Terminate) || event
                == ControlEvent::ComponentCrashed || event == ControlEvent::SourcesFinished) ==> (
            final(self).state is GracefulShutdown && a == SupervisorAction::BeginDrain),
            event == ControlEvent::Operator(Signal::QuitNow) ==> (final(self).state
                is ImmediateShutdown && a == SupervisorAction::DiscardTopology),
    {
        match event {
            ControlEvent::Operator(Signal::Reload) => SupervisorAction::StartReload,
            ControlEvent::Operator(Signal::QuitNow) => {
                self.state = SupervisorState::ImmediateShutdown;
                SupervisorAction::DiscardTopology
            },
            _ => {
                self.state = SupervisorState::GracefulShutdown;
                SupervisorAction::BeginDrain
            },
        }
    }

    /// Completes a reload begun by `StartReload`. `parsed` is the outcome
    /// of re-running parse, merge and macro expansion over the current
    /// configuration paths; `outcome` is the external spawn machinery's
    /// verdict on the non-empty part of the diff.
    ///
    /// A failed re-parse aborts the reload; a rejected reload is a no-op on
    /// the live pipeline; only an unrecoverable topology error leaves
    /// `Running`, and then into a graceful shutdown, never a crash.
    pub fn complete_reload(
        &mut self,
        parsed: Option<ConfigAggregate>,
        outcome: RespawnOutcome,
    ) -> (r: Option<ReloadResult>)
        requires
            old(self).wf(),
            old(self).state is Running,
            parsed matches Some(c) ==> c.wf(),
        ensures
            final(self).wf(),
            final(self).require_healthy == old(self).require_healthy,
            parsed is None ==> (*final(self) == *old(self) && r is None),
            parsed is Some ==> r is Some,
            r == Some(ReloadResult::Accepted) ==> (final(self).state is Running
                && final(self).topology.config.same_components(parsed->Some_0)),
            r == Some(ReloadResult::Rejected) ==> (final(self).state is Running
                && final(self).topology == old(self).topology),
            r == Some(ReloadResult::Unrecoverable) ==> final(self).state is GracefulShutdown,
            (parsed matches Some(c) && old(self).topology.config.same_components(c)) ==> (r
                == Some(ReloadResult::Accepted) && final(self).topology == old(self).topology),
            parsed matches Some(c) ==> (!old(self).topology.config.same_components(c) ==> ((r
                == Some(ReloadResult::Accepted) <==> outcome is Succeeded) && (r == Some(
                ReloadResult::Rejected,
            ) <==> outcome is FailedRestored) && (r == Some(ReloadResult::Unrecoverable)
                <==> outcome is FailedUnrecoverable))),
    {
        match parsed {
            None => None,
            Some(new_config) => {
                let result = self.topology.reload_config_and_respawn(new_config, outcome);
                if let ReloadResult::Unrecoverable = result {
                    self.state = SupervisorState::GracefulShutdown;
                }
                Some(result)
            },
        }
    }

    /// Dispatches one event while the graceful drain runs. Completion of
    /// the drain terminates the loop; any further operator signal is the
    /// escape hatch from a hung drain and shuts down immediately.
    pub fn handle_drain_event(&mut self, event: DrainEvent) -> (a: Option<SupervisorAction>)
        requires
            old(self).wf(),
            old(self).state is GracefulShutdown,
        ensures
            final(self).wf(),
            final(self).topology == old(self).topology,
            final(self).require_healthy == old(self).require_healthy,
            event is DrainComplete ==> (final(self).state is Terminated && a is None),
            event is OperatorSignal ==> (final(self).state is ImmediateShutdown && a == Some(
                SupervisorAction::DiscardTopology,
            )),
    {
        match event {
            DrainEvent::DrainComplete => {
                self.state = SupervisorState::Terminated;
                None
            },
            DrainEvent::OperatorSignal(_) => {
                self.state = SupervisorState::ImmediateShutdown;
                Some(SupervisorAction::DiscardTopology)
            },
        }
    }
}

} // verus!
