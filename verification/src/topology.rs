//! The topology handle: the supervisor's model of the live pipeline.
//!
//! The running component set is keyed by name and identified with the
//! configuration generation it was spawned from. Spawning, task wiring and
//! health probing are performed by external machinery; their verdicts enter
//! here as arguments, and this model guarantees the transition discipline:
//! an accepted reload installs the new generation in full, a rejected one is
//! a no-op on the live pipeline, and reloading an unchanged generation
//! changes nothing.

use vstd::prelude::*;
use crate::config::ConfigAggregate;
use crate::diff::{ConfigDiff, lemma_empty_diff_same_components};

verus! {

/// What the external spawn machinery reports when asked to apply a
/// non-empty diff.
#[derive(Clone, Copy, PartialEq, Eq, Structural, Debug)]
pub enum RespawnOutcome {
    /// Every added or changed component was built, spawned and, where
    /// required, found healthy; removed components were torn down.
    Succeeded,
    /// Construction or health verification failed and the previous
    /// generation was left fully running.
    FailedRestored,
    /// Failure from which the previous generation could not be restored.
    FailedUnrecoverable,
}

/// The verdict of a reload, as the control loop sees it.
#[derive(Clone, Copy, PartialEq, Eq, Structural, Debug)]
pub enum ReloadResult {
    Accepted,
    Rejected,
    Unrecoverable,
}

/// The live pipeline, as observed through its running component set: the
/// configuration generation currently in force.
pub struct Topology {
    pub config: ConfigAggregate,
}

impl Topology {
    /// The handle is well-formed when its generation is.
    pub open spec fn wf(self) -> bool {
        self.config.wf()
    }

    /// Starts a validated configuration. `all_healthy` is the external
    /// verdict of the initial health verification; under `require_healthy`
    /// an unhealthy sink prevents the start.
    pub fn start_validated(config: ConfigAggregate, require_healthy: bool, all_healthy: bool) -> (r:
        Option<Topology>)
        requires
            config.wf(),
        ensures
            r is Some <==> (all_healthy || !require_healthy),
            r matches Some(t) ==> t.config == config && t.wf(),
    {
        if all_healthy || !require_healthy {
            Some(Topology { config })
        } else {
            None
        }
    }

    /// Replaces, adds and removes exactly the task subsets named by the diff
    /// against `new_config`. The external spawn machinery's verdict enters
    /// as `outcome`; it is consulted only when the diff is non-empty.
    ///
    /// Guarantees, whatever the outcome: an accepted reload leaves exactly
    /// the new generation's components running; a rejected reload is a
    /// no-op on the live pipeline — never a partial apply; and reloading an
    /// unchanged generation is accepted and changes nothing.
    pub fn reload_config_and_respawn(
        &mut self,
        new_config: ConfigAggregate,
        outcome: RespawnOutcome,
    ) -> (r: ReloadResult)
        requires
            old(self).wf(),
            new_config.wf(),
        ensures
            final(self).wf(),
            r is Accepted ==> final(self).config.same_components(new_config),
            r is Rejected ==> final(self).config == old(self).config,
            (r is Accepted || r is Rejected) ==> (final(self).config == old(self).config
                || final(self).config == new_config),
            old(self).config.same_components(new_config) ==> (r is Accepted && final(self).config
                == old(self).config),
            !old(self).config.same_components(new_config) ==> ((r is Accepted <==> outcome
                is Succeeded) && (r is Rejected <==> outcome is FailedRestored) && (r
                is Unrecoverable <==> outcome is FailedUnrecoverable)),
    {
        let d = ConfigDiff::diff(&self.config, &new_config);
        proof {
            lemma_empty_diff_same_components(d, self.config, new_config);
        }
        if d.is_empty() {
            return ReloadResult::Accepted;
        }
        match outcome {
            RespawnOutcome::Succeeded => {
                self.config = new_config;
                ReloadResult::Accepted
            },
            RespawnOutcome::FailedRestored => ReloadResult::Rejected,
            RespawnOutcome::FailedUnrecoverable => ReloadResult::Unrecoverable,
        }
    }
}

} // verus!
