//! The cleanup of jobs that nodes still report after the scheduler took the node away.
use vstd::pervasive::unreached;
use vstd::prelude::*;

use crate::dialogue::{Dialogue, Scripted, Step};
use crate::error::SchedulerServiceError;
#[allow(unused_imports)]
use crate::model::{ClusterNode, JobId, TrainingJob};
use crate::protocol::{Reply, Request};
#[allow(unused_imports)]
use crate::script::{
    and_then, finished, for_each, lemma_for_each_at, lemma_settles_at_once, requeue, told, Script,
};

verus! {

/// The job that the node was made to give up: it reports one while none is assigned to it.
pub open spec fn preempted_job(node: ClusterNode) -> Option<JobId> {
    if node.assigned_job_id is None {
        node.reported_job_id
    } else {
        None
    }
}

/// Puts the job back into its queue unless it is over.
pub open spec fn requeue_unless_over(job: TrainingJob) -> Script {
    if job.status.terminal() {
        finished()
    } else {
        requeue(job.id)
    }
}

/// Looks the preempted job of the node up, if there is one, and requeues it unless it is over.
pub open spec fn examine_preemption(node: ClusterNode) -> Script {
    match preempted_job(node) {
        Some(job_id) => Script::Ask(
            Request::GetTrainingJobById(job_id),
            |reply: Reply|
                match reply->Job_0 {
                    Ok(job) => requeue_unless_over(job),
                    Err(error) => Script::Done(Err(SchedulerServiceError::Job(error))),
                },
        ),
        None => finished(),
    }
}

/// Looks at the nodes in turn.
pub open spec fn examine_preemptions(nodes: Seq<ClusterNode>) -> Script {
    for_each(nodes, |node: ClusterNode| examine_preemption(node))
}

/// Requeues the preempted jobs of all nodes.
pub open spec fn preempted_job_cleanup() -> Script {
    Script::Ask(
        Request::ListAllNodes,
        |reply: Reply|
            match reply->Nodes_0 {
                Ok(nodes) => examine_preemptions(nodes@),
                Err(error) => Script::Done(Err(SchedulerServiceError::Cluster(error))),
            },
    )
}

/// What is under way for the current node.
#[derive(Clone, Copy, Debug)]
enum Stage {
    /// Looks the preempted job up.
    Lookup,
    /// Puts the job back into its queue.
    Requeue(JobId),
}

#[derive(Debug)]
enum State {
    /// Waits for the list of nodes.
    Listing,
    /// Works on the node at `current`.
    Examining { nodes: Vec<ClusterNode>, current: usize, stage: Stage },
}

/// Runs [`preempted_job_cleanup`].
#[derive(Debug)]
pub struct PreemptedJobCleanup {
    state: State,
}

impl Scripted for PreemptedJobCleanup {
    closed spec fn script(&self) -> Script {
        match self.state {
            State::Listing => preempted_job_cleanup(),
            State::Examining { nodes, current, stage } => and_then(
                match stage {
                    Stage::Lookup => examine_preemption(nodes@[current as int]),
                    Stage::Requeue(job_id) => requeue(job_id),
                },
                examine_preemptions(nodes@.skip(current + 1)),
            ),
        }
    }

    closed spec fn well_formed(&self) -> bool {
        match self.state {
            State::Listing => true,
            State::Examining { nodes, current, stage } => {
                &&& current < nodes.len()
                &&& stage is Lookup ==> preempted_job(nodes@[current as int]) is Some
            },
        }
    }
}

impl PreemptedJobCleanup {
    /// Starts the cleanup.
    pub(crate) fn begin() -> (step: Step<PreemptedJobCleanup>)
        ensures
            step.well_formed(),
            step.script() == preempted_job_cleanup(),
    {
        Step::Ask(Request::ListAllNodes, PreemptedJobCleanup { state: State::Listing })
    }

    /// Passes over the nodes from `from` on, up to the first with a preempted job.
    fn examine(nodes: Vec<ClusterNode>, from: usize) -> (step: Step<PreemptedJobCleanup>)
        requires
            from <= nodes.len(),
        ensures
            step.well_formed(),
            step.script() == examine_preemptions(nodes@.skip(from as int)),
    {
        let ghost body = |node: ClusterNode| examine_preemption(node);
        let mut current: usize = from;
        while current < nodes.len()
            invariant
                from <= current <= nodes.len(),
                body == (|node: ClusterNode| examine_preemption(node)),
                examine_preemptions(nodes@.skip(from as int)) == examine_preemptions(
                    nodes@.skip(current as int),
                ),
            decreases nodes.len() - current,
        {
            proof {
                lemma_for_each_at(nodes@, body, current as int);
            }
            if nodes[current].assigned_job_id.is_none() {
                if let Some(job_id) = nodes[current].reported_job_id {
                    let state = State::Examining { nodes, current, stage: Stage::Lookup };
                    return Step::Ask(
                        Request::GetTrainingJobById(job_id),
                        PreemptedJobCleanup { state },
                    );
                }
            }
            current = current + 1;
        }
        Step::Done(Ok(()))
    }
}

impl Dialogue for PreemptedJobCleanup {
    fn resume(self, reply: Reply) -> (step: Step<Self>) {
        reveal_with_fuel(and_then, 3);
        proof {
            if told(self.script(), reply) !is Clock {
                lemma_settles_at_once(told(self.script(), reply), reply);
            }
        }
        match (self.state, reply) {
            (State::Listing, Reply::Nodes(Ok(nodes))) => {
                assert(nodes@.skip(0) =~= nodes@);
                Self::examine(nodes, 0)
            },
            (State::Listing, Reply::Nodes(Err(error))) => Step::Done(
                Err(SchedulerServiceError::from(error)),
            ),
            (State::Examining { nodes, current, .. }, Reply::Job(Ok(job))) => {
                if job.status.is_terminal() {
                    Self::examine(nodes, current + 1)
                } else {
                    let state = State::Examining { nodes, current, stage: Stage::Requeue(job.id) };
                    Step::Ask(Request::ResetJobStatus(job.id), PreemptedJobCleanup { state })
                }
            },
            (State::Examining { .. }, Reply::Job(Err(error))) => Step::Done(
                Err(SchedulerServiceError::from(error)),
            ),
            (State::Examining { nodes, current, .. }, Reply::JobWrite(Ok(_))) => Self::examine(
                nodes,
                current + 1,
            ),
            (State::Examining { .. }, Reply::JobWrite(Err(error))) => Step::Done(
                Err(SchedulerServiceError::from(error)),
            ),
            _ => unreached(),
        }
    }
}

} // verus!
