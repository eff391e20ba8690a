//! Jobs, queues and nodes, as far as the scheduler looks at them.
use vstd::prelude::*;

use crate::time::Timestamp;
#[allow(unused_imports)]
use crate::time::{elapsed_nanos, Instant, NANOS_PER_SEC};

verus! {

/// Identifies a training job.
#[derive(Clone, Copy, Debug, PartialEq, Eq, Hash, Structural)]
pub struct JobId(pub u128);

/// Identifies a node of a cluster.
#[derive(Clone, Copy, Debug, PartialEq, Eq, Hash, Structural)]
pub struct NodeId(pub u128);

/// Identifies a queue.
#[derive(Clone, Copy, Debug, PartialEq, Eq, Hash, Structural)]
pub struct QueueId(pub u128);

/// Identifies a cluster.
#[derive(Clone, Copy, Debug, PartialEq, Eq, Hash, Structural)]
pub struct ClusterId(pub u128);

/// How far a training job has come.
#[derive(Clone, Copy, Debug, PartialEq, Eq, Hash, Structural)]
pub enum TrainingJobStatus {
    Queued,
    Starting,
    Running,
    Succeeded,
    Failed,
    Cancelled,
}

impl TrainingJobStatus {
    /// The statuses that a job never leaves.
    pub open spec fn terminal(self) -> bool {
        self is Succeeded || self is Failed || self is Cancelled
    }

    /// Whether the job is over.
    pub fn is_terminal(&self) -> (over: bool)
        ensures
            over == self.terminal(),
            over == !(self is Queued || self is Starting || self is Running),
    {
        matches!(
            self,
            TrainingJobStatus::Succeeded | TrainingJobStatus::Failed | TrainingJobStatus::Cancelled
        )
    }
}

/// What a job needs of the node that runs it.
#[derive(Clone, Copy, Debug, PartialEq, Eq, Structural)]
pub struct ResourceRequirements {
    pub cpu_millicores: u64,
    pub memory_mb: u64,
}

/// A training job.
#[derive(Clone, Copy, Debug)]
pub struct TrainingJob {
    pub id: JobId,
    pub status: TrainingJobStatus,
    /// The node that the job was allocated to.
    pub node_id: Option<NodeId>,
    /// The queue that the job was submitted to.
    pub queue_id: Option<QueueId>,
    pub resource_requirements: ResourceRequirements,
}

/// A queue of training jobs.
#[derive(Debug)]
pub struct Queue {
    pub id: QueueId,
    /// The clusters that may run the queue's jobs, the preferred one first.
    pub cluster_targets: Vec<ClusterId>,
}

/// How long a node may go without a heartbeat before it counts as dead.
pub const HEARTBEAT_TIMEOUT_SECS: i64 = 90;

/// A node of a cluster.
#[derive(Clone, Copy, Debug)]
pub struct ClusterNode {
    pub id: NodeId,
    pub heartbeat_timestamp: Timestamp,
    /// The job that the scheduler gave the node.
    pub assigned_job_id: Option<JobId>,
    /// The job that the node says it runs.
    pub reported_job_id: Option<JobId>,
}

/// A node whose last heartbeat was at `heartbeat` is dead at `now` once more than the
/// timeout has passed.
pub open spec fn dead_at(heartbeat: Instant, now: Instant) -> bool {
    elapsed_nanos(now, heartbeat) > HEARTBEAT_TIMEOUT_SECS * NANOS_PER_SEC
}

impl ClusterNode {
    /// Whether the node counts as dead at `now`.
    pub fn is_dead_at(&self, now: &Timestamp) -> (dead: bool)
        ensures
            dead == dead_at(self.heartbeat_timestamp@, now@),
            dead == (elapsed_nanos(now@, self.heartbeat_timestamp@) > 90 * 1_000_000_000),
    {
        now.since(&self.heartbeat_timestamp).exceeds_secs(HEARTBEAT_TIMEOUT_SECS)
    }
}

} // verus!
