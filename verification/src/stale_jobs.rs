//! The cleanup of starting jobs whose node or queue is gone.
use vstd::pervasive::unreached;
use vstd::prelude::*;

use crate::dialogue::{Dialogue, Scripted, Step};
use crate::error::SchedulerServiceError;
use crate::model::{TrainingJob, TrainingJobStatus};
use crate::protocol::{Reply, Request};
#[allow(unused_imports)]
use crate::script::{
    and_then, cancel, finished, for_each, lemma_for_each_at, lemma_settles_at_once, requeue, told,
    Script,
};

verus! {

/// What becomes of a starting job: it is cancelled if its queue is gone, else put back into
/// its queue if its node is gone, else left alone.
pub open spec fn settle_job(job: TrainingJob, node_gone: bool, queue_gone: bool) -> Script {
    if queue_gone {
        cancel(job.id)
    } else if node_gone {
        requeue(job.id)
    } else {
        finished()
    }
}

/// Looks the queue of the job up, if it has one, and settles the job.
pub open spec fn examine_queue(job: TrainingJob, node_gone: bool) -> Script {
    match job.queue_id {
        Some(queue_id) => Script::Ask(
            Request::GetQueueById(queue_id),
            |reply: Reply| settle_job(job, node_gone, reply->Queue_0 is Err),
        ),
        None => settle_job(job, node_gone, false),
    }
}

/// Looks the node of the job up, if it has one, then its queue, and settles the job. A lookup
/// that fails counts as finding nothing.
pub open spec fn examine_starting_job(job: TrainingJob) -> Script {
    match job.node_id {
        Some(node_id) => Script::Ask(
            Request::GetClusterNodeById(node_id),
            |reply: Reply| examine_queue(job, reply->Node_0 is Err),
        ),
        None => examine_queue(job, false),
    }
}

/// Looks at the starting jobs in turn.
pub open spec fn examine_starting_jobs(jobs: Seq<TrainingJob>) -> Script {
    for_each(jobs, |job: TrainingJob| examine_starting_job(job))
}

/// Cancels or requeues the starting jobs whose queue or node is gone.
pub open spec fn stale_job_cleanup() -> Script {
    Script::Ask(
        Request::GetJobsByStatus(TrainingJobStatus::Starting),
        |reply: Reply|
            match reply->Jobs_0 {
                Ok(jobs) => examine_starting_jobs(jobs@),
                Err(error) => Script::Done(Err(SchedulerServiceError::Job(error))),
            },
    )
}

/// What is under way for the current job.
#[derive(Clone, Copy, Debug)]
enum Stage {
    /// Looks the node up.
    Node,
    /// Looks the queue up, and knows whether the node is gone.
    Queue { node_gone: bool },
    /// Cancels the job.
    Cancel,
    /// Puts the job back into its queue.
    Requeue,
}

#[derive(Debug)]
enum State {
    /// Waits for the list of starting jobs.
    Listing,
    /// Works on the job at `current`.
    Examining { jobs: Vec<TrainingJob>, current: usize, stage: Stage },
}

/// Runs [`stale_job_cleanup`].
#[derive(Debug)]
pub struct StaleJobCleanup {
    state: State,
}

impl Scripted for StaleJobCleanup {
    closed spec fn script(&self) -> Script {
        match self.state {
            State::Listing => stale_job_cleanup(),
            State::Examining { jobs, current, stage } => {
                let job = jobs@[current as int];
                and_then(
                    match stage {
                        Stage::Node => examine_starting_job(job),
                        Stage::Queue { node_gone } => examine_queue(job, node_gone),
                        Stage::Cancel => cancel(job.id),
                        Stage::Requeue => requeue(job.id),
                    },
                    examine_starting_jobs(jobs@.skip(current + 1)),
                )
            },
        }
    }

    closed spec fn well_formed(&self) -> bool {
        match self.state {
            State::Listing => true,
            State::Examining { jobs, current, stage } => {
                &&& current < jobs.len()
                &&& stage is Node ==> jobs@[current as int].node_id is Some
                &&& stage is Queue ==> jobs@[current as int].queue_id is Some
            },
        }
    }
}

impl StaleJobCleanup {
    /// Starts the cleanup.
    pub(crate) fn begin() -> (step: Step<StaleJobCleanup>)
        ensures
            step.well_formed(),
            step.script() == stale_job_cleanup(),
    {
        Step::Ask(
            Request::GetJobsByStatus(TrainingJobStatus::Starting),
            StaleJobCleanup { state: State::Listing },
        )
    }

    /// Looks at the jobs from `from` on, up to the first that needs a request.
    fn examine(jobs: Vec<TrainingJob>, from: usize) -> (step: Step<StaleJobCleanup>)
        requires
            from <= jobs.len(),
        ensures
            step.well_formed(),
            step.script() == examine_starting_jobs(jobs@.skip(from as int)),
    {
        let ghost body = |job: TrainingJob| examine_starting_job(job);
        let mut current: usize = from;
        while current < jobs.len()
            invariant
                from <= current <= jobs.len(),
                body == (|job: TrainingJob| examine_starting_job(job)),
                examine_starting_jobs(jobs@.skip(from as int)) == examine_starting_jobs(
                    jobs@.skip(current as int),
                ),
            decreases jobs.len() - current,
        {
            proof {
                lemma_for_each_at(jobs@, body, current as int);
            }
            if let Some(node_id) = jobs[current].node_id {
                let state = State::Examining { jobs, current, stage: Stage::Node };
                return Step::Ask(Request::GetClusterNodeById(node_id), StaleJobCleanup { state });
            }
            if let Some(queue_id) = jobs[current].queue_id {
                let stage = Stage::Queue { node_gone: false };
                let state = State::Examining { jobs, current, stage };
                return Step::Ask(Request::GetQueueById(queue_id), StaleJobCleanup { state });
            }
            current = current + 1;
        }
        Step::Done(Ok(()))
    }

    /// Goes on with the job at `current` once its node was looked up.
    fn examine_behind_node(jobs: Vec<TrainingJob>, current: usize, node_gone: bool) -> (step: Step<
        StaleJobCleanup,
    >)
        requires
            current < jobs.len(),
        ensures
            step.well_formed(),
            step.script() == and_then(
                examine_queue(jobs@[current as int], node_gone),
                examine_starting_jobs(jobs@.skip(current + 1)),
            ),
    {
        match jobs[current].queue_id {
            Some(queue_id) => {
                let stage = Stage::Queue { node_gone };
                let state = State::Examining { jobs, current, stage };
                Step::Ask(Request::GetQueueById(queue_id), StaleJobCleanup { state })
            },
            None => Self::settle(jobs, current, node_gone, false),
        }
    }

    /// Goes on with the job at `current` once all was looked up.
    fn settle(jobs: Vec<TrainingJob>, current: usize, node_gone: bool, queue_gone: bool) -> (step:
        Step<StaleJobCleanup>)
        requires
            current < jobs.len(),
        ensures
            step.well_formed(),
            step.script() == and_then(
                settle_job(jobs@[current as int], node_gone, queue_gone),
                examine_starting_jobs(jobs@.skip(current + 1)),
            ),
    {
        let job_id = jobs[current].id;
        if queue_gone {
            let state = State::Examining { jobs, current, stage: Stage::Cancel };
            Step::Ask(
                Request::UpdateStatus(job_id, TrainingJobStatus::Cancelled),
                StaleJobCleanup { state },
            )
        } else if node_gone {
            let state = State::Examining { jobs, current, stage: Stage::Requeue };
            Step::Ask(Request::ResetJobStatus(job_id), StaleJobCleanup { state })
        } else {
            Self::examine(jobs, current + 1)
        }
    }
}

impl Dialogue for StaleJobCleanup {
    fn resume(self, reply: Reply) -> (step: Step<Self>) {
        reveal_with_fuel(and_then, 3);
        proof {
            if told(self.script(), reply) !is Clock {
                lemma_settles_at_once(told(self.script(), reply), reply);
            }
        }
        match (self.state, reply) {
            (State::Listing, Reply::Jobs(Ok(jobs))) => {
                assert(jobs@.skip(0) =~= jobs@);
                Self::examine(jobs, 0)
            },
            (State::Listing, Reply::Jobs(Err(error))) => Step::Done(
                Err(SchedulerServiceError::from(error)),
            ),
            (State::Examining { jobs, current, .. }, Reply::Node(node)) => {
                Self::examine_behind_node(jobs, current, node.is_err())
            },
            (
                State::Examining { jobs, current, stage: Stage::Queue { node_gone } },
                Reply::Queue(queue),
            ) => Self::settle(jobs, current, node_gone, queue.is_err()),
            (State::Examining { jobs, current, .. }, Reply::JobWrite(Ok(_))) => Self::examine(
                jobs,
                current + 1,
            ),
            (State::Examining { .. }, Reply::JobWrite(Err(error))) => Step::Done(
                Err(SchedulerServiceError::from(error)),
            ),
            _ => unreached(),
        }
    }
}

} // verus!
