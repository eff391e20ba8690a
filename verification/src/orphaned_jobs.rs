//! The cleanup of queued jobs that belong to no queue.
use vstd::pervasive::unreached;
use vstd::prelude::*;

use crate::dialogue::{Dialogue, Scripted, Step};
use crate::error::SchedulerServiceError;
use crate::model::{TrainingJob, TrainingJobStatus};
use crate::protocol::{Reply, Request};
#[allow(unused_imports)]
use crate::script::{
    and_then, cancel, finished, for_each, lemma_for_each_at, lemma_settles_at_once, told, Script,
};

verus! {

/// Cancels the job if it belongs to no queue.
pub open spec fn examine_queued_job(job: TrainingJob) -> Script {
    if job.queue_id is None {
        cancel(job.id)
    } else {
        finished()
    }
}

/// Looks at the queued jobs in turn.
pub open spec fn examine_queued_jobs(jobs: Seq<TrainingJob>) -> Script {
    for_each(jobs, |job: TrainingJob| examine_queued_job(job))
}

/// Cancels the queued jobs that belong to no queue.
pub open spec fn orphaned_job_cleanup() -> Script {
    Script::Ask(
        Request::GetJobsByStatus(TrainingJobStatus::Queued),
        |reply: Reply|
            match reply->Jobs_0 {
                Ok(jobs) => examine_queued_jobs(jobs@),
                Err(error) => Script::Done(Err(SchedulerServiceError::Job(error))),
            },
    )
}

#[derive(Debug)]
enum State {
    /// Waits for the list of queued jobs.
    Listing,
    /// Cancels the job at `current`.
    Cancelling { jobs: Vec<TrainingJob>, current: usize },
}

/// Runs [`orphaned_job_cleanup`].
#[derive(Debug)]
pub struct OrphanedJobCleanup {
    state: State,
}

impl Scripted for OrphanedJobCleanup {
    closed spec fn script(&self) -> Script {
        match self.state {
            State::Listing => orphaned_job_cleanup(),
            State::Cancelling { jobs, current } => and_then(
                cancel(jobs@[current as int].id),
                examine_queued_jobs(jobs@.skip(current + 1)),
            ),
        }
    }

    closed spec fn well_formed(&self) -> bool {
        match self.state {
            State::Listing => true,
            State::Cancelling { jobs, current } => current < jobs.len(),
        }
    }
}

impl OrphanedJobCleanup {
    /// Starts the cleanup.
    pub(crate) fn begin() -> (step: Step<OrphanedJobCleanup>)
        ensures
            step.well_formed(),
            step.script() == orphaned_job_cleanup(),
    {
        Step::Ask(
            Request::GetJobsByStatus(TrainingJobStatus::Queued),
            OrphanedJobCleanup { state: State::Listing },
        )
    }

    /// Passes over the jobs from `from` on, up to the first that belongs to no queue.
    fn examine(jobs: Vec<TrainingJob>, from: usize) -> (step: Step<OrphanedJobCleanup>)
        requires
            from <= jobs.len(),
        ensures
            step.well_formed(),
            step.script() == examine_queued_jobs(jobs@.skip(from as int)),
    {
        let ghost body = |job: TrainingJob| examine_queued_job(job);
        let mut current: usize = from;
        while current < jobs.len()
            invariant
                from <= current <= jobs.len(),
                body == (|job: TrainingJob| examine_queued_job(job)),
                examine_queued_jobs(jobs@.skip(from as int)) == examine_queued_jobs(
                    jobs@.skip(current as int),
                ),
            decreases jobs.len() - current,
        {
            proof {
                lemma_for_each_at(jobs@, body, current as int);
            }
            if jobs[current].queue_id.is_none() {
                let request = Request::UpdateStatus(
                    jobs[current].id,
                    TrainingJobStatus::Cancelled,
                );
                let state = State::Cancelling { jobs, current };
                return Step::Ask(request, OrphanedJobCleanup { state });
            }
            current = current + 1;
        }
        Step::Done(Ok(()))
    }
}

impl Dialogue for OrphanedJobCleanup {
    fn resume(self, reply: Reply) -> (step: Step<Self>) {
        reveal_with_fuel(and_then, 3);
        proof {
            if told(self.script(), reply) !is Clock {
                lemma_settles_at_once(told(self.script(), reply), reply);
            }
        }
        match (self.state, reply) {
            (State::Listing, Reply::Jobs(Ok(jobs))) => {
                assert(jobs@.skip(0) =~= jobs@);
                Self::examine(jobs, 0)
            },
            (State::Listing, Reply::Jobs(Err(error))) => Step::Done(
                Err(SchedulerServiceError::from(error)),
            ),
            (State::Cancelling { jobs, current }, Reply::JobWrite(Ok(_))) => Self::examine(
                jobs,
                current + 1,
            ),
            (State::Cancelling { .. }, Reply::JobWrite(Err(error))) => Step::Done(
                Err(SchedulerServiceError::from(error)),
            ),
            _ => unreached(),
        }
    }
}

} // verus!
