//! The placement of queued jobs on the clusters of their queues.
use vstd::pervasive::unreached;
use vstd::prelude::*;

use crate::dialogue::{Dialogue, Scripted, Step};
use crate::error::SchedulerServiceError;
#[allow(unused_imports)]
use crate::model::{ClusterId, NodeId, Queue, TrainingJob};
use crate::protocol::{Reply, Request};
#[allow(unused_imports)]
use crate::script::{
    and_then, change_job, finished, for_each, lemma_for_each_at, lemma_settles_at_once, told,
    Script,
};

verus! {

/// Tries the clusters in turn until one has a node for the job, and records that the job
/// starts there. A failed search counts as finding no node.
pub open spec fn place_job(job: TrainingJob, targets: Seq<ClusterId>) -> Script
    decreases targets.len(),
{
    if targets.len() == 0 {
        finished()
    } else {
        Script::Ask(
            Request::FindAndAllocateJob(job.id, targets[0], job.resource_requirements),
            |reply: Reply|
                match reply->Allocation_0 {
                    Ok(Some(node_id)) => change_job(Request::MarkAsStarting(job.id, node_id)),
                    _ => place_job(job, targets.drop_first()),
                },
        )
    }
}

/// Places the jobs in turn.
pub open spec fn place_jobs(jobs: Seq<TrainingJob>, targets: Seq<ClusterId>) -> Script {
    for_each(jobs, |job: TrainingJob| place_job(job, targets))
}

/// Places the jobs that wait in the queue.
pub open spec fn serve_queue(queue: Queue) -> Script {
    Script::Ask(
        Request::GetQueuedJobsForQueue(queue.id),
        |reply: Reply|
            match reply->Jobs_0 {
                Ok(jobs) => place_jobs(jobs@, queue.cluster_targets@),
                Err(error) => Script::Done(Err(SchedulerServiceError::Job(error))),
            },
    )
}

/// Serves the queues in turn.
pub open spec fn serve_queues(queues: Seq<Queue>) -> Script {
    for_each(queues, |queue: Queue| serve_queue(queue))
}

/// Serves all queues, the most important one first.
pub open spec fn placement() -> Script {
    Script::Ask(
        Request::GetAllQueuesSorted,
        |reply: Reply|
            match reply->Queues_0 {
                Ok(queues) => serve_queues(queues@),
                Err(error) => Script::Done(Err(SchedulerServiceError::Queue(error))),
            },
    )
}

/// What is under way for the current job.
#[derive(Clone, Copy, Debug)]
enum Stage {
    /// Tries the cluster at this position of the queue's targets.
    Search { target: usize },
    /// Records that the job starts on the node.
    Mark(NodeId),
}

#[derive(Debug)]
enum State {
    /// Waits for the list of queues.
    ListingQueues,
    /// Waits for the jobs of the queue at `queue`.
    ListingJobs { queues: Vec<Queue>, queue: usize },
    /// Places the job at `job`.
    Placing { queues: Vec<Queue>, queue: usize, jobs: Vec<TrainingJob>, job: usize, stage: Stage },
}

/// Runs [`placement`].
#[derive(Debug)]
pub struct Placement {
    state: State,
}

impl Scripted for Placement {
    closed spec fn script(&self) -> Script {
        match self.state {
            State::ListingQueues => placement(),
            State::ListingJobs { queues, queue } => serve_queues(queues@.skip(queue as int)),
            State::Placing { queues, queue, jobs, job, stage } => {
                let current = jobs@[job as int];
                let targets = queues@[queue as int].cluster_targets@;
                and_then(
                    and_then(
                        match stage {
                            Stage::Search { target } => place_job(
                                current,
                                targets.skip(target as int),
                            ),
                            Stage::Mark(node_id) => change_job(
                                Request::MarkAsStarting(current.id, node_id),
                            ),
                        },
                        place_jobs(jobs@.skip(job + 1), targets),
                    ),
                    serve_queues(queues@.skip(queue + 1)),
                )
            },
        }
    }

    closed spec fn well_formed(&self) -> bool {
        match self.state {
            State::ListingQueues => true,
            State::ListingJobs { queues, queue } => queue < queues.len(),
            State::Placing { queues, queue, jobs, job, stage } => {
                &&& queue < queues.len()
                &&& job < jobs.len()
                &&& stage matches Stage::Search { target } ==> target
                    < queues@[queue as int].cluster_targets.len()
            },
        }
    }
}

impl Placement {
    /// Starts the placement.
    pub(crate) fn begin() -> (step: Step<Placement>)
        ensures
            step.well_formed(),
            step.script() == placement(),
    {
        Step::Ask(Request::GetAllQueuesSorted, Placement { state: State::ListingQueues })
    }

    /// Serves the queues from `queue` on.
    fn serve(queues: Vec<Queue>, queue: usize) -> (step: Step<Placement>)
        requires
            queue <= queues.len(),
        ensures
            step.well_formed(),
            step.script() == serve_queues(queues@.skip(queue as int)),
    {
        if queue < queues.len() {
            proof {
                lemma_for_each_at(queues@, |queue: Queue| serve_queue(queue), queue as int);
            }
            let request = Request::GetQueuedJobsForQueue(queues[queue].id);
            Step::Ask(request, Placement { state: State::ListingJobs { queues, queue } })
        } else {
            Step::Done(Ok(()))
        }
    }

    /// Places the jobs from `job` on, of the queue at `queue`, and serves the queues behind it.
    fn place(queues: Vec<Queue>, queue: usize, jobs: Vec<TrainingJob>, job: usize) -> (step: Step<
        Placement,
    >)
        requires
            queue < queues.len(),
            job <= jobs.len(),
        ensures
            step.well_formed(),
            step.script() == and_then(
                place_jobs(jobs@.skip(job as int), queues@[queue as int].cluster_targets@),
                serve_queues(queues@.skip(queue + 1)),
            ),
    {
        let ghost targets = queues@[queue as int].cluster_targets@;
        let ghost body = |job: TrainingJob| place_job(job, targets);
        if queues[queue].cluster_targets.len() > 0 && job < jobs.len() {
            proof {
                lemma_for_each_at(jobs@, body, job as int);
                assert(targets.skip(0) =~= targets);
                reveal_with_fuel(and_then, 3);
            }
            Self::search(queues, queue, jobs, job, 0)
        } else {
            proof {
                if targets.len() == 0 {
                    assert(targets =~= Seq::empty());
                    lemma_no_targets(jobs@.skip(job as int));
                }
            }
            Self::serve(queues, queue + 1)
        }
    }

    /// Tries the cluster at `target` for the job at `job`.
    fn search(
        queues: Vec<Queue>,
        queue: usize,
        jobs: Vec<TrainingJob>,
        job: usize,
        target: usize,
    ) -> (step: Step<Placement>)
        requires
            queue < queues.len(),
            job < jobs.len(),
            target < queues@[queue as int].cluster_targets.len(),
        ensures
            step.well_formed(),
            step.script() == and_then(
                and_then(
                    place_job(
                        jobs@[job as int],
                        queues@[queue as int].cluster_targets@.skip(target as int),
                    ),
                    place_jobs(jobs@.skip(job + 1), queues@[queue as int].cluster_targets@),
                ),
                serve_queues(queues@.skip(queue + 1)),
            ),
    {
        let request = Request::FindAndAllocateJob(
            jobs[job].id,
            queues[queue].cluster_targets[target],
            jobs[job].resource_requirements,
        );
        let stage = Stage::Search { target };
        Step::Ask(request, Placement { state: State::Placing { queues, queue, jobs, job, stage } })
    }
}

/// Where there is no cluster to try, nothing is done for any job.
proof fn lemma_no_targets(jobs: Seq<TrainingJob>)
    ensures
        place_jobs(jobs, Seq::empty()) == finished(),
    decreases jobs.len(),
{
    if jobs.len() > 0 {
        lemma_no_targets(jobs.drop_first());
    }
}

impl Dialogue for Placement {
    fn resume(self, reply: Reply) -> (step: Step<Self>) {
        reveal_with_fuel(and_then, 4);
        proof {
            if told(self.script(), reply) !is Clock {
                lemma_settles_at_once(told(self.script(), reply), reply);
            }
        }
        match (self.state, reply) {
            (State::ListingQueues, Reply::Queues(Ok(queues))) => {
                assert(queues@.skip(0) =~= queues@);
                Self::serve(queues, 0)
            },
            (State::ListingQueues, Reply::Queues(Err(error))) => Step::Done(
                Err(SchedulerServiceError::from(error)),
            ),
            (State::ListingJobs { queues, queue }, Reply::Jobs(Ok(jobs))) => {
                proof {
                    lemma_for_each_at(queues@, |queue: Queue| serve_queue(queue), queue as int);
                    assert(jobs@.skip(0) =~= jobs@);
                }
                Self::place(queues, queue, jobs, 0)
            },
            (State::ListingJobs { queues, queue }, Reply::Jobs(Err(error))) => {
                proof {
                    lemma_for_each_at(queues@, |queue: Queue| serve_queue(queue), queue as int);
                }
                Step::Done(Err(SchedulerServiceError::from(error)))
            },
            (
                State::Placing { queues, queue, jobs, job, .. },
                Reply::Allocation(Ok(Some(node_id))),
            ) => {
                let request = Request::MarkAsStarting(jobs[job].id, node_id);
                let stage = Stage::Mark(node_id);
                let state = State::Placing { queues, queue, jobs, job, stage };
                Step::Ask(request, Placement { state })
            },
            (
                State::Placing { queues, queue, jobs, job, stage: Stage::Search { target } },
                Reply::Allocation(_),
            ) => {
                proof {
                    let targets = queues@[queue as int].cluster_targets@;
                    assert(targets.skip(target as int).drop_first() =~= targets.skip(target + 1));
                }
                if target + 1 < queues[queue].cluster_targets.len() {
                    Self::search(queues, queue, jobs, job, target + 1)
                } else {
                    Self::place(queues, queue, jobs, job + 1)
                }
            },
            (State::Placing { queues, queue, jobs, job, .. }, Reply::JobWrite(Ok(_))) => {
                Self::place(queues, queue, jobs, job + 1)
            },
            (State::Placing { .. }, Reply::JobWrite(Err(error))) => Step::Done(
                Err(SchedulerServiceError::from(error)),
            ),
            _ => unreached(),
        }
    }
}

} // verus!
