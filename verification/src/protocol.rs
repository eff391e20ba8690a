//! What the scheduler asks of the repositories and the agent adapter, and what they answer.
use vstd::prelude::*;

use crate::error::{
    AgentSchedulerError, ClusterRepositoryError, QueueRepositoryError, SchedulerServiceError,
    TrainingJobRepositoryError,
};
use crate::model::{
    ClusterId, ClusterNode, JobId, NodeId, Queue, QueueId, ResourceRequirements, TrainingJob,
    TrainingJobStatus,
};

verus! {

/// A piece of work for a repository or the agent adapter.
#[derive(Clone, Copy, Debug, PartialEq, Eq, Structural)]
pub enum Request {
    /// The nodes of all clusters.
    ListAllNodes,
    /// The node with this id.
    GetClusterNodeById(NodeId),
    /// Removes the node.
    DeleteClusterNode(NodeId),
    /// The jobs with this status.
    GetJobsByStatus(TrainingJobStatus),
    /// The job with this id.
    GetTrainingJobById(JobId),
    /// The jobs that wait in this queue.
    GetQueuedJobsForQueue(QueueId),
    /// Puts the job back into its queue.
    ResetJobStatus(JobId),
    /// Gives the job this status.
    UpdateStatus(JobId, TrainingJobStatus),
    /// Records that the job starts on the node.
    MarkAsStarting(JobId, NodeId),
    /// All queues, the most important one first.
    GetAllQueuesSorted,
    /// The queue with this id.
    GetQueueById(QueueId),
    /// Looks for a node of the cluster that has what the job needs and allocates the job to it.
    FindAndAllocateJob(JobId, ClusterId, ResourceRequirements),
}

/// The answer to a [`Request`].
#[derive(Debug)]
pub enum Reply {
    Nodes(Result<Vec<ClusterNode>, ClusterRepositoryError>),
    Node(Result<ClusterNode, ClusterRepositoryError>),
    ClusterWrite(Result<(), ClusterRepositoryError>),
    Jobs(Result<Vec<TrainingJob>, TrainingJobRepositoryError>),
    Job(Result<TrainingJob, TrainingJobRepositoryError>),
    JobWrite(Result<(), TrainingJobRepositoryError>),
    Queues(Result<Vec<Queue>, QueueRepositoryError>),
    Queue(Result<Queue, QueueRepositoryError>),
    Allocation(Result<Option<NodeId>, AgentSchedulerError>),
}

impl Request {
    /// The searches and lookups whose failure is not one of the operation: it counts as
    /// finding nothing.
    pub open spec fn may_fail(self) -> bool {
        self is GetClusterNodeById || self is GetQueueById || self is FindAndAllocateJob
    }
}

impl Reply {
    /// Whether the reply is of the kind that the request calls for.
    pub open spec fn answers(self, request: Request) -> bool {
        match request {
            Request::ListAllNodes => self is Nodes,
            Request::GetClusterNodeById(_) => self is Node,
            Request::DeleteClusterNode(_) => self is ClusterWrite,
            Request::GetJobsByStatus(_) | Request::GetQueuedJobsForQueue(_) => self is Jobs,
            Request::GetTrainingJobById(_) => self is Job,
            Request::ResetJobStatus(_) | Request::UpdateStatus(_, _) | Request::MarkAsStarting(
                _,
                _,
            ) => self is JobWrite,
            Request::GetAllQueuesSorted => self is Queues,
            Request::GetQueueById(_) => self is Queue,
            Request::FindAndAllocateJob(_, _, _) => self is Allocation,
        }
    }

    /// The failure that the reply reports.
    pub open spec fn failure(self) -> Option<SchedulerServiceError> {
        match self {
            Reply::Nodes(Err(error)) => Some(SchedulerServiceError::Cluster(error)),
            Reply::Node(Err(error)) => Some(SchedulerServiceError::Cluster(error)),
            Reply::ClusterWrite(Err(error)) => Some(SchedulerServiceError::Cluster(error)),
            Reply::Jobs(Err(error)) => Some(SchedulerServiceError::Job(error)),
            Reply::Job(Err(error)) => Some(SchedulerServiceError::Job(error)),
            Reply::JobWrite(Err(error)) => Some(SchedulerServiceError::Job(error)),
            Reply::Queues(Err(error)) => Some(SchedulerServiceError::Queue(error)),
            Reply::Queue(Err(error)) => Some(SchedulerServiceError::Queue(error)),
            Reply::Allocation(Err(error)) => Some(SchedulerServiceError::Agent(error)),
            _ => None,
        }
    }

    /// Whether the reply is of the kind that the request calls for.
    pub fn is_answer_to(&self, request: &Request) -> (fits: bool)
        ensures
            fits == self.answers(*request),
    {
        match request {
            Request::ListAllNodes => matches!(self, Reply::Nodes(_)),
            Request::GetClusterNodeById(_) => matches!(self, Reply::Node(_)),
            Request::DeleteClusterNode(_) => matches!(self, Reply::ClusterWrite(_)),
            Request::GetJobsByStatus(_) | Request::GetQueuedJobsForQueue(_) => matches!(self, Reply::Jobs(_)),
            Request::GetTrainingJobById(_) => matches!(self, Reply::Job(_)),
            Request::ResetJobStatus(_) | Request::UpdateStatus(_, _) | Request::MarkAsStarting(
                _,
                _,
            ) => matches!(self, Reply::JobWrite(_)),
            Request::GetAllQueuesSorted => matches!(self, Reply::Queues(_)),
            Request::GetQueueById(_) => matches!(self, Reply::Queue(_)),
            Request::FindAndAllocateJob(_, _, _) => matches!(self, Reply::Allocation(_)),
        }
    }
}

} // verus!
