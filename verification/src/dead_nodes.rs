//! The cleanup of nodes that have stopped sending heartbeats.
use vstd::pervasive::unreached;
use vstd::prelude::*;

use crate::clock::Reading;
#[allow(unused_imports)]
use crate::clock::times_of;
use crate::dialogue::{Dialogue, Scripted, Step};
use crate::error::SchedulerServiceError;
#[allow(unused_imports)]
use crate::model::{dead_at, ClusterNode, JobId, NodeId};
use crate::protocol::{Reply, Request};
#[allow(unused_imports)]
use crate::script::{
    and_then, finished, for_each, lemma_for_each_at, lemma_settles_at_once, lemma_taken_push,
    requeue, settles, taken, told, with_clock, Script,
};
use crate::time::Timestamp;

verus! {

/// Puts the job back into its queue, if there is one.
pub open spec fn requeue_any(job_id: Option<JobId>) -> Script {
    match job_id {
        Some(job_id) => requeue(job_id),
        None => finished(),
    }
}

/// Removes the node.
pub open spec fn delete_node(node_id: NodeId) -> Script {
    Script::Ask(
        Request::DeleteClusterNode(node_id),
        |reply: Reply|
            match reply->ClusterWrite_0 {
                Ok(_) => finished(),
                Err(error) => Script::Done(Err(SchedulerServiceError::Cluster(error))),
            },
    )
}

/// Gives up a dead node: both of its jobs go back to their queues, then the node is removed.
pub open spec fn give_up_node(node: ClusterNode) -> Script {
    and_then(requeue_any(node.assigned_job_id), give_up_reported(node))
}

/// The part of [`give_up_node`] behind the assigned job.
pub open spec fn give_up_reported(node: ClusterNode) -> Script {
    and_then(requeue_any(node.reported_job_id), delete_node(node.id))
}

/// Looks at one node and gives it up if it is dead by now.
pub open spec fn examine_node(node: ClusterNode) -> Script {
    Script::Clock(
        node,
        |now: Timestamp|
            if dead_at(node.heartbeat_timestamp@, now@) {
                give_up_node(node)
            } else {
                finished()
            },
    )
}

/// Looks at the nodes in turn.
pub open spec fn examine_nodes(nodes: Seq<ClusterNode>) -> Script {
    for_each(nodes, |node: ClusterNode| examine_node(node))
}

/// Gives up every node that is dead when its turn comes.
pub open spec fn dead_node_cleanup() -> Script {
    Script::Ask(
        Request::ListAllNodes,
        |reply: Reply|
            match reply->Nodes_0 {
                Ok(nodes) => examine_nodes(nodes@),
                Err(error) => Script::Done(Err(SchedulerServiceError::Cluster(error))),
            },
    )
}

/// The change that is under way for the current node.
#[derive(Clone, Copy, Debug)]
enum Stage {
    RequeueAssigned(JobId),
    RequeueReported(JobId),
    Delete,
}

#[derive(Debug)]
enum State {
    /// Waits for the list of nodes.
    Listing,
    /// Gives up the node at `current`.
    GivingUp { nodes: Vec<ClusterNode>, current: usize, stage: Stage },
}

/// Runs [`dead_node_cleanup`].
#[derive(Debug)]
pub struct DeadNodeCleanup {
    state: State,
}

impl Scripted for DeadNodeCleanup {
    closed spec fn script(&self) -> Script {
        match self.state {
            State::Listing => dead_node_cleanup(),
            State::GivingUp { nodes, current, stage } => {
                let node = nodes@[current as int];
                and_then(
                    match stage {
                        Stage::RequeueAssigned(job_id) => and_then(
                            requeue(job_id),
                            give_up_reported(node),
                        ),
                        Stage::RequeueReported(job_id) => and_then(
                            requeue(job_id),
                            delete_node(node.id),
                        ),
                        Stage::Delete => delete_node(node.id),
                    },
                    examine_nodes(nodes@.skip(current + 1)),
                )
            },
        }
    }

    closed spec fn well_formed(&self) -> bool {
        match self.state {
            State::Listing => true,
            State::GivingUp { nodes, current, .. } => current < nodes.len(),
        }
    }
}

impl DeadNodeCleanup {
    /// Starts the cleanup.
    pub(crate) fn begin() -> (step: Step<DeadNodeCleanup>)
        ensures
            step.well_formed(),
            step.script() == dead_node_cleanup(),
    {
        Step::Ask(Request::ListAllNodes, DeadNodeCleanup { state: State::Listing })
    }

    /// Requeues the assigned job of the node at `current`, or goes on where it has none.
    fn give_up(nodes: Vec<ClusterNode>, current: usize) -> (step: Step<DeadNodeCleanup>)
        requires
            current < nodes.len(),
        ensures
            step.well_formed(),
            step.script() == and_then(
                give_up_node(nodes@[current as int]),
                examine_nodes(nodes@.skip(current + 1)),
            ),
    {
        reveal_with_fuel(and_then, 4);
        match nodes[current].assigned_job_id {
            Some(job_id) => {
                let stage = Stage::RequeueAssigned(job_id);
                let state = State::GivingUp { nodes, current, stage };
                Step::Ask(Request::ResetJobStatus(job_id), DeadNodeCleanup { state })
            },
            None => Self::give_up_behind_assigned(nodes, current),
        }
    }

    /// Requeues the reported job of the node at `current`, or goes on where it has none.
    fn give_up_behind_assigned(nodes: Vec<ClusterNode>, current: usize) -> (step: Step<
        DeadNodeCleanup,
    >)
        requires
            current < nodes.len(),
        ensures
            step.well_formed(),
            step.script() == and_then(
                give_up_reported(nodes@[current as int]),
                examine_nodes(nodes@.skip(current + 1)),
            ),
    {
        reveal_with_fuel(and_then, 4);
        match nodes[current].reported_job_id {
            Some(job_id) => {
                let stage = Stage::RequeueReported(job_id);
                let state = State::GivingUp { nodes, current, stage };
                Step::Ask(Request::ResetJobStatus(job_id), DeadNodeCleanup { state })
            },
            None => Self::delete(nodes, current),
        }
    }

    /// Removes the node at `current`.
    fn delete(nodes: Vec<ClusterNode>, current: usize) -> (step: Step<DeadNodeCleanup>)
        requires
            current < nodes.len(),
        ensures
            step.well_formed(),
            step.script() == and_then(
                delete_node(nodes@[current as int].id),
                examine_nodes(nodes@.skip(current + 1)),
            ),
    {
        let request = Request::DeleteClusterNode(nodes[current].id);
        let state = State::GivingUp { nodes, current, stage: Stage::Delete };
        Step::Ask(request, DeadNodeCleanup { state })
    }

    /// Looks at the node at `current` when the clock shows `now`: a dead node is given up, and
    /// the step is the first for that; for a live one, the nodes are handed back as they are.
    pub fn look_at(nodes: Vec<ClusterNode>, current: usize, now: Timestamp) -> (seen: Result<
        Step<DeadNodeCleanup>,
        Vec<ClusterNode>,
    >)
        requires
            current < nodes.len(),
        ensures
            match seen {
                Ok(step) => {
                    &&& dead_at(nodes@[current as int].heartbeat_timestamp@, now@)
                    &&& step.well_formed()
                    &&& step.script() == and_then(
                        give_up_node(nodes@[current as int]),
                        examine_nodes(nodes@.skip(current + 1)),
                    )
                },
                Err(back) => {
                    &&& !dead_at(nodes@[current as int].heartbeat_timestamp@, now@)
                    &&& back == nodes
                },
            },
    {
        if nodes[current].is_dead_at(&now) {
            Ok(Self::give_up(nodes, current))
        } else {
            Err(nodes)
        }
    }

    /// Passes over the nodes from `from` on that are alive, up to the first dead one. The clock is
    /// read for each of them.
    fn examine(nodes: Vec<ClusterNode>, from: usize, reply: Ghost<Reply>) -> (step: Step<
        DeadNodeCleanup,
    >)
        requires
            from <= nodes.len(),
        ensures
            step.well_formed(),
            settles(examine_nodes(nodes@.skip(from as int)), reply@, step.script()),
    {
        let ghost listed = nodes@;
        let ghost start = examine_nodes(listed.skip(from as int));
        let ghost body = |node: ClusterNode| examine_node(node);
        let ghost mut readings: Seq<Reading> = Seq::empty();
        let mut held = nodes;
        let mut current: usize = from;
        assert(with_clock(start, times_of(readings)) == start);
        while current < held.len()
            invariant
                from <= current <= held.len(),
                held@ == listed,
                listed == nodes@,
                start == examine_nodes(listed.skip(from as int)),
                taken(start, reply@, readings),
                body == (|node: ClusterNode| examine_node(node)),
                with_clock(start, times_of(readings)) == examine_nodes(
                    listed.skip(current as int),
                ),
            decreases held.len() - current,
        {
            let ghost node = listed[current as int];
            let reading = Reading::take(reply, Ghost(node));
            let now = reading.shown();
            proof {
                let rest = examine_nodes(listed.skip(current + 1));
                lemma_for_each_at(listed, body, current as int);
                assert(examine_nodes(listed.skip(current as int)) == and_then(
                    examine_node(node),
                    rest,
                ));
                reveal_with_fuel(and_then, 2);
                lemma_taken_push(start, reply@, readings, reading);
                readings = readings.push(reading);
            }
            match Self::look_at(held, current, now) {
                Ok(step) => {
                    assert(with_clock(start, times_of(readings)) == step.script());
                    return step;
                },
                Err(back) => {
                    held = back;
                },
            }
            current = current + 1;
        }
        assert(with_clock(start, times_of(readings)) == finished());
        Step::Done(Ok(()))
    }
}

impl Dialogue for DeadNodeCleanup {
    fn resume(self, reply: Reply) -> (step: Step<Self>) {
        reveal_with_fuel(and_then, 4);
        let ghost given = reply;
        proof {
            if told(self.script(), reply) !is Clock {
                lemma_settles_at_once(told(self.script(), reply), reply);
            }
        }
        match (self.state, reply) {
            (State::Listing, Reply::Nodes(Ok(nodes))) => {
                assert(nodes@.skip(0) =~= nodes@);
                Self::examine(nodes, 0, Ghost(given))
            },
            (State::Listing, Reply::Nodes(Err(error))) => Step::Done(
                Err(SchedulerServiceError::from(error)),
            ),
            (State::GivingUp { nodes, current, stage }, Reply::JobWrite(Ok(_))) => match stage {
                Stage::RequeueAssigned(_) => Self::give_up_behind_assigned(nodes, current),
                _ => Self::delete(nodes, current),
            },
            (State::GivingUp { .. }, Reply::JobWrite(Err(error))) => Step::Done(
                Err(SchedulerServiceError::from(error)),
            ),
            (State::GivingUp { nodes, current, .. }, Reply::ClusterWrite(Ok(_))) => Self::examine(
                nodes,
                current + 1,
                Ghost(given),
            ),
            (State::GivingUp { .. }, Reply::ClusterWrite(Err(error))) => Step::Done(
                Err(SchedulerServiceError::from(error)),
            ),
            _ => unreached(),
        }
    }
}

} // verus!
