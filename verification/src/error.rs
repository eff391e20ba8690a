//! What the repositories and the agent adapter report when they fail, and what the
//! scheduler makes of it.
use vstd::prelude::*;
use vstd::std_specs::convert::FromSpecImpl;

verus! {

/// A failure of the repository of training jobs.
#[derive(Debug, PartialEq, Eq)]
pub enum TrainingJobRepositoryError {
    NotFound(String),
    Unknown(String),
}

/// A failure of the repository of queues.
#[derive(Debug, PartialEq, Eq)]
pub enum QueueRepositoryError {
    NotFound(String),
    Unknown(String),
}

/// A failure of the repository of cluster nodes.
#[derive(Debug, PartialEq, Eq)]
pub enum ClusterRepositoryError {
    NotFound(String),
    Unknown(String),
}

/// A failure of the agent adapter while it looks for capacity.
#[derive(Debug, PartialEq, Eq)]
pub enum AgentSchedulerError {
    Cluster(ClusterRepositoryError),
    Unknown(String),
}

/// Why an operation of the scheduler failed.
#[derive(Debug, PartialEq, Eq)]
pub enum SchedulerServiceError {
    Job(TrainingJobRepositoryError),
    Queue(QueueRepositoryError),
    Cluster(ClusterRepositoryError),
    Agent(AgentSchedulerError),
    Unknown(String),
}

impl From<TrainingJobRepositoryError> for SchedulerServiceError {
    fn from(error: TrainingJobRepositoryError) -> (wrapped: SchedulerServiceError) {
        SchedulerServiceError::Job(error)
    }
}

impl FromSpecImpl<TrainingJobRepositoryError> for SchedulerServiceError {
    open spec fn obeys_from_spec() -> bool {
        true
    }

    open spec fn from_spec(error: TrainingJobRepositoryError) -> SchedulerServiceError {
        SchedulerServiceError::Job(error)
    }
}

impl From<QueueRepositoryError> for SchedulerServiceError {
    fn from(error: QueueRepositoryError) -> (wrapped: SchedulerServiceError) {
        SchedulerServiceError::Queue(error)
    }
}

impl FromSpecImpl<QueueRepositoryError> for SchedulerServiceError {
    open spec fn obeys_from_spec() -> bool {
        true
    }

    open spec fn from_spec(error: QueueRepositoryError) -> SchedulerServiceError {
        SchedulerServiceError::Queue(error)
    }
}

impl From<ClusterRepositoryError> for SchedulerServiceError {
    fn from(error: ClusterRepositoryError) -> (wrapped: SchedulerServiceError) {
        SchedulerServiceError::Cluster(error)
    }
}

impl FromSpecImpl<ClusterRepositoryError> for SchedulerServiceError {
    open spec fn obeys_from_spec() -> bool {
        true
    }

    open spec fn from_spec(error: ClusterRepositoryError) -> SchedulerServiceError {
        SchedulerServiceError::Cluster(error)
    }
}

impl From<AgentSchedulerError> for SchedulerServiceError {
    fn from(error: AgentSchedulerError) -> (wrapped: SchedulerServiceError) {
        SchedulerServiceError::Agent(error)
    }
}

impl FromSpecImpl<AgentSchedulerError> for SchedulerServiceError {
    open spec fn obeys_from_spec() -> bool {
        true
    }

    open spec fn from_spec(error: AgentSchedulerError) -> SchedulerServiceError {
        SchedulerServiceError::Agent(error)
    }
}

} // verus!
