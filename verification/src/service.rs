//! The scheduler service and its cycle.
use vstd::prelude::*;

use crate::dead_nodes::DeadNodeCleanup;
use crate::dialogue::{Dialogue, Scripted, Step};
use crate::orphaned_jobs::OrphanedJobCleanup;
use crate::placement::Placement;
use crate::preempted_jobs::PreemptedJobCleanup;
use crate::protocol::Reply;
#[allow(unused_imports)]
use crate::script::{
    lemma_settles_at_once, lemma_taken_regardless, lemma_with_clock_regardless, regardless,
    settles, taken, told, with_clock, Script,
};
use crate::stale_jobs::StaleJobCleanup;
#[allow(unused_imports)]
use crate::{
    dead_nodes::dead_node_cleanup, orphaned_jobs::orphaned_job_cleanup, placement::placement,
    preempted_jobs::preempted_job_cleanup, stale_jobs::stale_job_cleanup,
};
#[allow(unused_imports)]
use crate::clock::{times_of, Reading};

verus! {

/// A cycle: the four cleanups in order, each whatever became of those before it, and then
/// the placement, whose result is that of the cycle.
pub open spec fn cycle() -> Script {
    regardless(dead_node_cleanup(), behind_dead_nodes())
}

/// The part of [`cycle`] behind the cleanup of dead nodes.
pub open spec fn behind_dead_nodes() -> Script {
    regardless(stale_job_cleanup(), behind_stale_jobs())
}

/// The part of [`cycle`] behind the cleanup of stale jobs.
pub open spec fn behind_stale_jobs() -> Script {
    regardless(preempted_job_cleanup(), behind_preempted_jobs())
}

/// The part of [`cycle`] behind the cleanup of preempted jobs.
pub open spec fn behind_preempted_jobs() -> Script {
    regardless(orphaned_job_cleanup(), placement())
}

#[derive(Debug)]
enum Phase {
    DeadNodes(DeadNodeCleanup),
    StaleJobs(StaleJobCleanup),
    PreemptedJobs(PreemptedJobCleanup),
    OrphanedJobs(OrphanedJobCleanup),
    Queues(Placement),
}

/// Runs [`cycle`].
#[derive(Debug)]
pub struct Cycle {
    phase: Phase,
}

impl Scripted for Cycle {
    closed spec fn script(&self) -> Script {
        match self.phase {
            Phase::DeadNodes(cleanup) => regardless(cleanup.script(), behind_dead_nodes()),
            Phase::StaleJobs(cleanup) => regardless(cleanup.script(), behind_stale_jobs()),
            Phase::PreemptedJobs(cleanup) => regardless(cleanup.script(), behind_preempted_jobs()),
            Phase::OrphanedJobs(cleanup) => regardless(cleanup.script(), placement()),
            Phase::Queues(placement) => placement.script(),
        }
    }

    closed spec fn well_formed(&self) -> bool {
        match self.phase {
            Phase::DeadNodes(cleanup) => cleanup.well_formed() && cleanup.script() is Ask,
            Phase::StaleJobs(cleanup) => cleanup.well_formed() && cleanup.script() is Ask,
            Phase::PreemptedJobs(cleanup) => cleanup.well_formed() && cleanup.script() is Ask,
            Phase::OrphanedJobs(cleanup) => cleanup.well_formed() && cleanup.script() is Ask,
            Phase::Queues(placement) => placement.well_formed(),
        }
    }
}

impl Cycle {
    /// Starts the cycle.
    fn begin() -> (step: Step<Cycle>)
        ensures
            step.well_formed(),
            step.script() == cycle(),
    {
        Self::clean_dead_nodes(DeadNodeCleanup::begin())
    }

    /// Goes on from a step of the cleanup of dead nodes.
    fn clean_dead_nodes(inner: Step<DeadNodeCleanup>) -> (step: Step<Cycle>)
        requires
            inner.well_formed(),
        ensures
            step.well_formed(),
            step.script() == regardless(inner.script(), behind_dead_nodes()),
    {
        match inner {
            Step::Ask(request, cleanup) => Step::Ask(
                request,
                Cycle { phase: Phase::DeadNodes(cleanup) },
            ),
            Step::Done(_) => Self::clean_stale_jobs(StaleJobCleanup::begin()),
        }
    }

    /// Goes on from a step of the cleanup of stale jobs.
    fn clean_stale_jobs(inner: Step<StaleJobCleanup>) -> (step: Step<Cycle>)
        requires
            inner.well_formed(),
        ensures
            step.well_formed(),
            step.script() == regardless(inner.script(), behind_stale_jobs()),
    {
        match inner {
            Step::Ask(request, cleanup) => Step::Ask(
                request,
                Cycle { phase: Phase::StaleJobs(cleanup) },
            ),
            Step::Done(_) => Self::clean_preempted_jobs(PreemptedJobCleanup::begin()),
        }
    }

    /// Goes on from a step of the cleanup of preempted jobs.
    fn clean_preempted_jobs(inner: Step<PreemptedJobCleanup>) -> (step: Step<Cycle>)
        requires
            inner.well_formed(),
        ensures
            step.well_formed(),
            step.script() == regardless(inner.script(), behind_preempted_jobs()),
    {
        match inner {
            Step::Ask(request, cleanup) => Step::Ask(
                request,
                Cycle { phase: Phase::PreemptedJobs(cleanup) },
            ),
            Step::Done(_) => Self::clean_orphaned_jobs(OrphanedJobCleanup::begin()),
        }
    }

    /// Goes on from a step of the cleanup of orphaned jobs.
    fn clean_orphaned_jobs(inner: Step<OrphanedJobCleanup>) -> (step: Step<Cycle>)
        requires
            inner.well_formed(),
        ensures
            step.well_formed(),
            step.script() == regardless(inner.script(), placement()),
    {
        match inner {
            Step::Ask(request, cleanup) => Step::Ask(
                request,
                Cycle { phase: Phase::OrphanedJobs(cleanup) },
            ),
            Step::Done(_) => Self::place_jobs(Placement::begin()),
        }
    }

    /// Goes on from a step of the placement.
    fn place_jobs(inner: Step<Placement>) -> (step: Step<Cycle>)
        requires
            inner.well_formed(),
        ensures
            step.well_formed(),
            step.script() == inner.script(),
    {
        match inner {
            Step::Ask(request, placement) => Step::Ask(
                request,
                Cycle { phase: Phase::Queues(placement) },
            ),
            Step::Done(result) => Step::Done(result),
        }
    }
}

/// What settles alone settles as the first part of a sequence.
proof fn lemma_settles_regardless(s: Script, reply: Reply, t: Script, next: Script)
    requires
        settles(s, reply, t),
        next is Ask,
    ensures
        settles(regardless(s, next), reply, regardless(t, next)),
{
    let readings = choose|readings: Seq<Reading>| #[trigger]
        taken(s, reply, readings) && with_clock(s, times_of(readings)) == t;
    lemma_taken_regardless(s, next, reply, readings);
    lemma_with_clock_regardless(s, next, times_of(readings));
}

impl Dialogue for Cycle {
    fn resume(self, reply: Reply) -> (step: Step<Self>) {
        proof {
            if told(self.script(), reply) !is Clock {
                lemma_settles_at_once(told(self.script(), reply), reply);
            }
        }
        match self.phase {
            Phase::DeadNodes(cleanup) => {
                let ghost before = cleanup.script();
                let inner = cleanup.resume(reply);
                proof {
                    lemma_settles_regardless(
                        told(before, reply),
                        reply,
                        inner.script(),
                        behind_dead_nodes(),
                    );
                }
                Self::clean_dead_nodes(inner)
            },
            Phase::StaleJobs(cleanup) => {
                let ghost before = cleanup.script();
                let inner = cleanup.resume(reply);
                proof {
                    lemma_settles_regardless(
                        told(before, reply),
                        reply,
                        inner.script(),
                        behind_stale_jobs(),
                    );
                }
                Self::clean_stale_jobs(inner)
            },
            Phase::PreemptedJobs(cleanup) => {
                let ghost before = cleanup.script();
                let inner = cleanup.resume(reply);
                proof {
                    lemma_settles_regardless(
                        told(before, reply),
                        reply,
                        inner.script(),
                        behind_preempted_jobs(),
                    );
                }
                Self::clean_preempted_jobs(inner)
            },
            Phase::OrphanedJobs(cleanup) => {
                let ghost before = cleanup.script();
                let inner = cleanup.resume(reply);
                proof {
                    lemma_settles_regardless(
                        told(before, reply),
                        reply,
                        inner.script(),
                        placement(),
                    );
                }
                Self::clean_orphaned_jobs(inner)
            },
            Phase::Queues(placement) => Self::place_jobs(placement.resume(reply)),
        }
    }
}

/// The scheduler, with the repositories and the agent adapter that do its requests. The
/// service hands out what is to be done; whoever drives it turns to these.
pub struct SchedulerService<J, Q, C, A> {
    pub job_repo: J,
    pub queue_repo: Q,
    pub cluster_repo: C,
    pub agent_adapter: A,
}

impl<J, Q, C, A> SchedulerService<J, Q, C, A> {
    pub fn new(job_repo: J, queue_repo: Q, cluster_repo: C, agent_adapter: A) -> (service: Self)
        ensures
            service.job_repo == job_repo,
            service.queue_repo == queue_repo,
            service.cluster_repo == cluster_repo,
            service.agent_adapter == agent_adapter,
    {
        SchedulerService { job_repo, queue_repo, cluster_repo, agent_adapter }
    }

    /// Removes the nodes that have stopped sending heartbeats and requeues their jobs.
    pub fn cleanup_dead_nodes(&self) -> (step: Step<DeadNodeCleanup>)
        ensures
            step.well_formed(),
            step.script() == dead_node_cleanup(),
    {
        DeadNodeCleanup::begin()
    }

    /// Cancels the starting jobs whose queue is gone and requeues those whose node is gone.
    pub fn cleanup_stale_starting_jobs(&self) -> (step: Step<StaleJobCleanup>)
        ensures
            step.well_formed(),
            step.script() == stale_job_cleanup(),
    {
        StaleJobCleanup::begin()
    }

    /// Requeues the jobs that nodes report but are no longer assigned.
    pub fn cleanup_preempted_jobs(&self) -> (step: Step<PreemptedJobCleanup>)
        ensures
            step.well_formed(),
            step.script() == preempted_job_cleanup(),
    {
        PreemptedJobCleanup::begin()
    }

    /// Cancels the queued jobs that belong to no queue.
    pub fn cleanup_orphaned_queued_jobs(&self) -> (step: Step<OrphanedJobCleanup>)
        ensures
            step.well_formed(),
            step.script() == orphaned_job_cleanup(),
    {
        OrphanedJobCleanup::begin()
    }

    /// Cleans up, then places the queued jobs.
    pub fn run_cycle(&self) -> (step: Step<Cycle>)
        ensures
            step.well_formed(),
            step.script() == cycle(),
    {
        Cycle::begin()
    }
}

} // verus!
