//! What the operations do, told by the fields of what they are given and by the replies.
//!
//! The scripts say how an operation is put together. The laws here say what comes of it: which
//! request follows which reply, with which ids, and which result, for all inputs.
use vstd::prelude::*;
use vstd::std_specs::convert::FromSpec;

use crate::clock::{times_of, Reading};
use crate::dead_nodes::{dead_node_cleanup, examine_node, examine_nodes};
use crate::dialogue::{Scripted, Step};
use crate::error::{
    AgentSchedulerError, ClusterRepositoryError, QueueRepositoryError, SchedulerServiceError,
    TrainingJobRepositoryError,
};
use crate::laws::{in_turn, law_items_have_their_turn};
use crate::log::{after, head, legal, Event, Next};
use crate::model::{
    dead_at, ClusterId, ClusterNode, JobId, NodeId, Queue, TrainingJob, TrainingJobStatus,
};
use crate::orphaned_jobs::{examine_queued_job, orphaned_job_cleanup};
use crate::placement::{place_job, placement, serve_queue};
use crate::preempted_jobs::{examine_preemption, preempted_job_cleanup};
use crate::protocol::{Reply, Request};
use crate::script::{
    and_then, awaits, for_each, lemma_settles_at_once, lemma_with_clock_regardless,
    regardless, settles, taken, told, with_clock, Script,
};
use crate::service::cycle;
use crate::stale_jobs::{examine_starting_job, stale_job_cleanup};
use crate::time::{elapsed_nanos, Instant, TimeSpan, Timestamp};
use crate::user::{has_key, ApiKey, ApiKeyId};

verus! {

// Time

/// The time between two instants is the difference of their seconds and nanoseconds. A leap
/// second that the earlier one lies in counts as one second more where the later one is at a later
/// time of day, and one that the later one lies in as one less where it is at an earlier time.
pub proof fn law_elapsed_time_is_the_difference(later: Instant, earlier: Instant)
    ensures
        earlier.nanos < 1_000_000_000 && later.nanos < 1_000_000_000 ==> elapsed_nanos(
            later,
            earlier,
        ) == (later.secs - earlier.secs) * 1_000_000_000 + (later.nanos - earlier.nanos),
        elapsed_nanos(later, earlier) == (later.secs - earlier.secs) * 1_000_000_000 + (later.nanos
            - earlier.nanos) + (if later.secs % 86_400 > earlier.secs % 86_400 && earlier.nanos
            >= 1_000_000_000 {
            1_000_000_000int
        } else if later.secs % 86_400 < earlier.secs % 86_400 && later.nanos >= 1_000_000_000 {
            -1_000_000_000int
        } else {
            0int
        }),
{
}

/// Elapsed times add up: outside leap seconds, the way to a third instant is the way to the
/// second and on from there, and the way back is as long.
pub proof fn law_elapsed_times_add_up(a: Instant, b: Instant, c: Instant)
    requires
        a.nanos < 1_000_000_000,
        b.nanos < 1_000_000_000,
        c.nanos < 1_000_000_000,
    ensures
        elapsed_nanos(c, a) == elapsed_nanos(c, b) + elapsed_nanos(b, a),
        elapsed_nanos(a, b) == -elapsed_nanos(b, a),
{
}

/// A length of time is its seconds and the rest.
pub proof fn law_span_is_seconds_and_rest(span: TimeSpan)
    ensures
        span.total_nanos() == span.secs * 1_000_000_000 + span.nanos,
{
}

/// The instants of the calendar lie between the first second of the year -262143 and the last of
/// the year 262142, and a second may be followed by a leap second. Those that a clock shows are not
/// before the Unix epoch and not in a leap second.
pub proof fn law_instants_of_calendar_and_clock(instant: Instant)
    ensures
        instant.in_range() <==> -8_334_601_228_800 <= instant.secs <= 8_210_266_876_799 && 0
            <= instant.nanos < 2_000_000_000,
        instant.readable() <==> 0 <= instant.secs <= 8_210_266_876_799 && 0 <= instant.nanos
            < 1_000_000_000,
        instant.in_leap_second() <==> instant.nanos >= 1_000_000_000,
        instant.second_of_day() == instant.secs % 86_400,
{
}

/// A node is dead exactly when more than ninety seconds lie between its last heartbeat and now,
/// whenever that is. A leap second that the heartbeat lies in, or now does, is counted as in
/// [`law_elapsed_time_is_the_difference`].
pub proof fn law_node_is_dead_after_ninety_seconds(heartbeat: Instant, now: Instant)
    ensures
        heartbeat.nanos < 1_000_000_000 && now.nanos < 1_000_000_000 ==> (dead_at(heartbeat, now)
            <==> (now.secs - heartbeat.secs) * 1_000_000_000 + (now.nanos - heartbeat.nanos)
            > 90 * 1_000_000_000),
        dead_at(heartbeat, now) <==> (now.secs - heartbeat.secs) * 1_000_000_000 + (now.nanos
            - heartbeat.nanos) + (if now.secs % 86_400 > heartbeat.secs % 86_400 && heartbeat.nanos
            >= 1_000_000_000 {
            1_000_000_000int
        } else if now.secs % 86_400 < heartbeat.secs % 86_400 && now.nanos >= 1_000_000_000 {
            -1_000_000_000int
        } else {
            0int
        }) > 90 * 1_000_000_000,
{
}

/// What counts is how long ago the heartbeat was, not when: two nodes whose heartbeats are equally
/// long ago are both dead or both alive.
pub proof fn law_only_the_age_of_a_heartbeat_counts(
    heartbeat: Instant,
    now: Instant,
    other_heartbeat: Instant,
    other_now: Instant,
)
    requires
        heartbeat.nanos < 1_000_000_000,
        now.nanos < 1_000_000_000,
        other_heartbeat.nanos < 1_000_000_000,
        other_now.nanos < 1_000_000_000,
        (now.secs - heartbeat.secs) * 1_000_000_000 + (now.nanos - heartbeat.nanos) == (
        other_now.secs - other_heartbeat.secs) * 1_000_000_000 + (other_now.nanos
            - other_heartbeat.nanos),
    ensures
        dead_at(heartbeat, now) == dead_at(other_heartbeat, other_now),
{
}

// Kinds of replies and failures

/// Each request has one kind of reply, and every value of that kind answers it.
pub proof fn law_each_request_has_its_kind_of_reply(
    reply: Reply,
    node_id: NodeId,
    job_id: JobId,
    status: TrainingJobStatus,
    queue: Queue,
    job: TrainingJob,
    cluster_id: ClusterId,
)
    ensures
        reply.answers(Request::ListAllNodes) <==> reply is Nodes,
        reply.answers(Request::GetClusterNodeById(node_id)) <==> reply is Node,
        reply.answers(Request::DeleteClusterNode(node_id)) <==> reply is ClusterWrite,
        reply.answers(Request::GetJobsByStatus(status)) <==> reply is Jobs,
        reply.answers(Request::GetTrainingJobById(job_id)) <==> reply is Job,
        reply.answers(Request::GetQueuedJobsForQueue(queue.id)) <==> reply is Jobs,
        reply.answers(Request::ResetJobStatus(job_id)) <==> reply is JobWrite,
        reply.answers(Request::UpdateStatus(job_id, status)) <==> reply is JobWrite,
        reply.answers(Request::MarkAsStarting(job_id, node_id)) <==> reply is JobWrite,
        reply.answers(Request::GetAllQueuesSorted) <==> reply is Queues,
        reply.answers(Request::GetQueueById(queue.id)) <==> reply is Queue,
        reply.answers(
            Request::FindAndAllocateJob(job_id, cluster_id, job.resource_requirements),
        ) <==> reply is Allocation,
{
}

/// A failure of a repository or of the adapter keeps its kind and all that it says.
pub proof fn law_failures_keep_what_they_say(
    job: TrainingJobRepositoryError,
    queue: QueueRepositoryError,
    cluster: ClusterRepositoryError,
    agent: AgentSchedulerError,
)
    ensures
        <SchedulerServiceError as FromSpec<TrainingJobRepositoryError>>::from_spec(job)
            == SchedulerServiceError::Job(job),
        <SchedulerServiceError as FromSpec<QueueRepositoryError>>::from_spec(queue)
            == SchedulerServiceError::Queue(queue),
        <SchedulerServiceError as FromSpec<ClusterRepositoryError>>::from_spec(cluster)
            == SchedulerServiceError::Cluster(cluster),
        <SchedulerServiceError as FromSpec<AgentSchedulerError>>::from_spec(agent)
            == SchedulerServiceError::Agent(agent),
{
}

/// A reply reports a failure exactly where it holds one, and reports that very failure.
pub proof fn law_reply_reports_its_failure(reply: Reply)
    ensures
        reply.failure() == (match reply {
            Reply::Nodes(Err(e)) => Some(SchedulerServiceError::Cluster(e)),
            Reply::Node(Err(e)) => Some(SchedulerServiceError::Cluster(e)),
            Reply::ClusterWrite(Err(e)) => Some(SchedulerServiceError::Cluster(e)),
            Reply::Jobs(Err(e)) => Some(SchedulerServiceError::Job(e)),
            Reply::Job(Err(e)) => Some(SchedulerServiceError::Job(e)),
            Reply::JobWrite(Err(e)) => Some(SchedulerServiceError::Job(e)),
            Reply::Queues(Err(e)) => Some(SchedulerServiceError::Queue(e)),
            Reply::Queue(Err(e)) => Some(SchedulerServiceError::Queue(e)),
            Reply::Allocation(Err(e)) => Some(SchedulerServiceError::Agent(e)),
            Reply::Nodes(Ok(_)) => None,
            Reply::Node(Ok(_)) => None,
            Reply::ClusterWrite(Ok(_)) => None,
            Reply::Jobs(Ok(_)) => None,
            Reply::Job(Ok(_)) => None,
            Reply::JobWrite(Ok(_)) => None,
            Reply::Queues(Ok(_)) => None,
            Reply::Queue(Ok(_)) => None,
            Reply::Allocation(Ok(_)) => None,
        }),
{
}

/// A job is over when it has succeeded, failed or been cancelled, and not before.
pub proof fn law_jobs_that_are_over(status: TrainingJobStatus)
    ensures
        status.terminal() == (match status {
            TrainingJobStatus::Queued => false,
            TrainingJobStatus::Starting => false,
            TrainingJobStatus::Running => false,
            TrainingJobStatus::Succeeded => true,
            TrainingJobStatus::Failed => true,
            TrainingJobStatus::Cancelled => true,
        }),
{
}

// The beginnings of the operations

/// What an operation asks first, what becomes of it where that fails, and that it works on the
/// items of the list just as they were listed: all of them, unchanged and in their order.
pub proof fn law_operations_work_on_what_is_listed(
    nodes: Vec<ClusterNode>,
    jobs: Vec<TrainingJob>,
    queues: Vec<Queue>,
    cluster_error: ClusterRepositoryError,
    job_error: TrainingJobRepositoryError,
    queue_error: QueueRepositoryError,
)
    ensures
        head(dead_node_cleanup()) == Next::Ask(Request::ListAllNodes),
        told(dead_node_cleanup(), Reply::Nodes(Err(cluster_error))) == Script::Done(
            Err(SchedulerServiceError::Cluster(cluster_error)),
        ),
        told(dead_node_cleanup(), Reply::Nodes(Ok(nodes))) == for_each(
            nodes@,
            |node: ClusterNode| examine_node(node),
        ),
        head(stale_job_cleanup()) == Next::Ask(
            Request::GetJobsByStatus(TrainingJobStatus::Starting),
        ),
        told(stale_job_cleanup(), Reply::Jobs(Err(job_error))) == Script::Done(
            Err(SchedulerServiceError::Job(job_error)),
        ),
        told(stale_job_cleanup(), Reply::Jobs(Ok(jobs))) == for_each(
            jobs@,
            |job: TrainingJob| examine_starting_job(job),
        ),
        head(preempted_job_cleanup()) == Next::Ask(Request::ListAllNodes),
        told(preempted_job_cleanup(), Reply::Nodes(Err(cluster_error))) == Script::Done(
            Err(SchedulerServiceError::Cluster(cluster_error)),
        ),
        told(preempted_job_cleanup(), Reply::Nodes(Ok(nodes))) == for_each(
            nodes@,
            |node: ClusterNode| examine_preemption(node),
        ),
        head(orphaned_job_cleanup()) == Next::Ask(
            Request::GetJobsByStatus(TrainingJobStatus::Queued),
        ),
        told(orphaned_job_cleanup(), Reply::Jobs(Err(job_error))) == Script::Done(
            Err(SchedulerServiceError::Job(job_error)),
        ),
        told(orphaned_job_cleanup(), Reply::Jobs(Ok(jobs))) == for_each(
            jobs@,
            |job: TrainingJob| examine_queued_job(job),
        ),
        head(placement()) == Next::Ask(Request::GetAllQueuesSorted),
        told(placement(), Reply::Queues(Err(queue_error))) == Script::Done(
            Err(SchedulerServiceError::Queue(queue_error)),
        ),
        told(placement(), Reply::Queues(Ok(queues))) == for_each(
            queues@,
            |queue: Queue| serve_queue(queue),
        ),
        head(cycle()) == Next::Ask(Request::ListAllNodes),
{
}

/// Asking is nothing but handing the reply on: what is done behind a reply is what the script has
/// for that very reply.
pub proof fn law_reply_is_taken_as_it_is(request: Request, k: spec_fn(Reply) -> Script, reply: Reply)
    ensures
        told(Script::Ask(request, k), reply) == k(reply),
{
}

/// A step of a machine asks just what is due by its script, or has ended with the result of the
/// script. A reply may be handed to it exactly where it answers that request.
pub proof fn law_step_does_what_is_due<M: Scripted>(step: Step<M>, reply: Reply)
    requires
        step.well_formed(),
    ensures
        head(step.script()) == (match step {
            Step::Ask(request, _) => Next::Ask(request),
            Step::Done(result) => Next::Done(result),
        }),
        step matches Step::Ask(request, machine) ==> {
            &&& machine.well_formed()
            &&& machine.script() == step.script()
            &&& awaits(machine.script(), reply) <==> reply.answers(request)
        },
{
}

/// Where the clock is not to be read, there is one way to go on.
pub proof fn law_only_the_clock_leaves_a_choice(s: Script, reply: Reply, t: Script)
    requires
        s !is Clock,
    ensures
        settles(s, reply, t) <==> t == s,
{
    lemma_settles_at_once(s, reply);
}

/// One part follows another: every question of the first is asked as it is, and where the first
/// has succeeded, the second begins; a failure ends both, unless the second is to follow
/// regardless.
pub proof fn law_parts_follow_each_other(
    request: Request,
    k: spec_fn(Reply) -> Script,
    reply: Reply,
    node: ClusterNode,
    c: spec_fn(Timestamp) -> Script,
    now: Timestamp,
    next: Script,
    error: SchedulerServiceError,
)
    ensures
        and_then(Script::Clock(node, c), next) is Clock,
        and_then(Script::Clock(node, c), next)->Clock_0 == node,
        (and_then(Script::Clock(node, c), next)->Clock_1)(now) == and_then(c(now), next),
        regardless(Script::Clock(node, c), next) is Clock,
        regardless(Script::Clock(node, c), next)->Clock_0 == node,
        (regardless(Script::Clock(node, c), next)->Clock_1)(now) == regardless(c(now), next),
        head(regardless(Script::Ask(request, k), next)) == Next::Ask(request),
        told(regardless(Script::Ask(request, k), next), reply) == regardless(k(reply), next),
        regardless(Script::Done(Ok(())), next) == next,
        regardless(Script::Done(Err(error)), next) == next,
        head(and_then(Script::Ask(request, k), next)) == Next::Ask(request),
        told(and_then(Script::Ask(request, k), next), reply) == and_then(k(reply), next),
        and_then(Script::Done(Ok(())), next) == next,
        and_then(Script::Done(Err(error)), next) == Script::Done(Err(error)),
{
}

// Placement

/// Serving a queue begins with the question for the jobs of that very queue. Where they cannot be
/// listed, that failure is the result; else the jobs are placed on the clusters of that queue.
pub proof fn law_queue_is_asked_for_its_own_jobs(
    queue: Queue,
    jobs: Vec<TrainingJob>,
    error: TrainingJobRepositoryError,
)
    ensures
        head(serve_queue(queue)) == Next::Ask(Request::GetQueuedJobsForQueue(queue.id)),
        told(serve_queue(queue), Reply::Jobs(Err(error))) == Script::Done(
            Err(SchedulerServiceError::Job(error)),
        ),
        told(serve_queue(queue), Reply::Jobs(Ok(jobs))) == for_each(
            jobs@,
            |job: TrainingJob| place_job(job, queue.cluster_targets@),
        ),
{
}

/// Two queues are asked for the same jobs only if they are the same queue.
pub proof fn law_different_queues_are_asked_for_different_jobs(a: Queue, b: Queue)
    requires
        head(serve_queue(a)) == head(serve_queue(b)),
    ensures
        a.id == b.id,
{
}

/// A job is searched a node for in the first of the clusters, with its own id and needs. Where a
/// node is found, it is marked as starting on that very node, and the result is that of the mark.
/// Where none is found, or the search fails, it goes on with the clusters behind that one. Where
/// no cluster is left, nothing is asked and nothing has failed.
pub proof fn law_job_is_searched_a_node_for(
    job: TrainingJob,
    targets: Seq<ClusterId>,
    node_id: NodeId,
    search_error: AgentSchedulerError,
    mark_error: TrainingJobRepositoryError,
)
    ensures
        targets.len() == 0 ==> head(place_job(job, targets)) == Next::Done(Ok(())),
        targets.len() > 0 ==> {
            let found = told(place_job(job, targets), Reply::Allocation(Ok(Some(node_id))));
            &&& head(place_job(job, targets)) == Next::Ask(
                Request::FindAndAllocateJob(job.id, targets[0], job.resource_requirements),
            )
            &&& head(found) == Next::Ask(Request::MarkAsStarting(job.id, node_id))
            &&& head(told(found, Reply::JobWrite(Ok(())))) == Next::Done(Ok(()))
            &&& head(told(found, Reply::JobWrite(Err(mark_error)))) == Next::Done(
                Err(SchedulerServiceError::Job(mark_error)),
            )
            &&& told(place_job(job, targets), Reply::Allocation(Ok(None))) == place_job(
                job,
                targets.skip(1),
            )
            &&& told(place_job(job, targets), Reply::Allocation(Err(search_error))) == place_job(
                job,
                targets.skip(1),
            )
        },
{
    if targets.len() > 0 {
        assert(targets.skip(1) =~= targets.drop_first());
    }
}

// Stale jobs

/// What is done for a starting job behind any beginning of its run. Its node is looked up if it
/// has one, then its queue if it has one, whatever became of the first lookup. A job whose queue
/// was not found is then cancelled; a job whose node alone was not found is put back into its
/// queue; every other job is left alone. The result is that of the change.
pub proof fn law_starting_job_is_settled(job: TrainingJob, log: Seq<Event>)
    requires
        legal(examine_starting_job(job), log),
    ensures
        head(after(examine_starting_job(job), log)) == ({
            let node_lookups: int = if job.node_id is Some { 1 } else { 0 };
            let lookups: int = node_lookups + if job.queue_id is Some { 1int } else { 0int };
            let node_gone = job.node_id is Some && log[0]->Exchange_1->Node_0 is Err;
            let queue_gone = job.queue_id is Some
                && log[node_lookups]->Exchange_1->Queue_0 is Err;
            if log.len() < node_lookups {
                Next::Ask(Request::GetClusterNodeById(job.node_id->0))
            } else if log.len() < lookups {
                Next::Ask(Request::GetQueueById(job.queue_id->0))
            } else if log.len() == lookups {
                if queue_gone {
                    Next::Ask(Request::UpdateStatus(job.id, TrainingJobStatus::Cancelled))
                } else if node_gone {
                    Next::Ask(Request::ResetJobStatus(job.id))
                } else {
                    Next::Done(Ok(()))
                }
            } else {
                match log[lookups]->Exchange_1->JobWrite_0 {
                    Ok(_) => Next::Done(Ok(())),
                    Err(error) => Next::Done(Err(SchedulerServiceError::Job(error))),
                }
            }
        }),
{
    reveal_with_fuel(legal, 5);
    reveal_with_fuel(after, 5);
}

// Preempted jobs

/// What is done for a node behind any beginning of its run. A node that has an assigned job, or
/// reports none, is passed over. Of any other, the reported job is looked up; if it was found and
/// is queued, starting or running, that job is put back into its queue.
pub proof fn law_reported_job_is_requeued(node: ClusterNode, log: Seq<Event>)
    requires
        legal(examine_preemption(node), log),
    ensures
        node.assigned_job_id is Some || node.reported_job_id is None ==> log.len() == 0 && head(
            after(examine_preemption(node), log),
        ) == Next::Done(Ok(())),
        node.assigned_job_id is None && node.reported_job_id is Some ==> head(
            after(examine_preemption(node), log),
        ) == (if log.len() == 0 {
            Next::Ask(Request::GetTrainingJobById(node.reported_job_id->0))
        } else {
            match log[0]->Exchange_1->Job_0 {
                Err(error) => Next::Done(Err(SchedulerServiceError::Job(error))),
                Ok(job) => match job.status {
                    TrainingJobStatus::Succeeded
                    | TrainingJobStatus::Failed
                    | TrainingJobStatus::Cancelled => Next::Done(Ok(())),
                    TrainingJobStatus::Queued
                    | TrainingJobStatus::Starting
                    | TrainingJobStatus::Running => if log.len() == 1 {
                        Next::Ask(Request::ResetJobStatus(job.id))
                    } else {
                        match log[1]->Exchange_1->JobWrite_0 {
                            Ok(_) => Next::Done(Ok(())),
                            Err(error) => Next::Done(Err(SchedulerServiceError::Job(error))),
                        }
                    },
                },
            }
        }),
{
    reveal_with_fuel(legal, 4);
    reveal_with_fuel(after, 4);
}

// Orphaned jobs

/// A queued job that belongs to a queue is left alone. One that belongs to none is cancelled, and
/// the result is that of the cancellation.
pub proof fn law_job_without_queue_is_cancelled(job: TrainingJob, log: Seq<Event>)
    requires
        legal(examine_queued_job(job), log),
    ensures
        head(after(examine_queued_job(job), log)) == (if job.queue_id is Some {
            Next::Done(Ok(()))
        } else if log.len() == 0 {
            Next::Ask(Request::UpdateStatus(job.id, TrainingJobStatus::Cancelled))
        } else {
            match log[0]->Exchange_1->JobWrite_0 {
                Ok(_) => Next::Done(Ok(())),
                Err(error) => Next::Done(Err(SchedulerServiceError::Job(error))),
            }
        }),
{
    reveal_with_fuel(legal, 3);
    reveal_with_fuel(after, 3);
}

/// The cleanup of orphaned jobs works on the listed jobs one by one, up to the first failure.
pub proof fn law_queued_jobs_have_their_turn(jobs: Vec<TrainingJob>, log: Seq<Event>) -> (parts:
    Seq<Seq<Event>>)
    requires
        legal(orphaned_job_cleanup(), log),
        log.len() > 0,
        log[0] == Event::Exchange(
            Request::GetJobsByStatus(TrainingJobStatus::Queued),
            Reply::Jobs(Ok(jobs)),
        ),
    ensures
        log == seq![log[0]] + parts.flatten(),
        in_turn(
            jobs@,
            |job: TrainingJob| examine_queued_job(job),
            parts,
            after(orphaned_job_cleanup(), log),
        ),
{
    let body = |job: TrainingJob| examine_queued_job(job);
    let parts = law_items_have_their_turn(jobs@, body, log.drop_first());
    assert(log =~= seq![log[0]] + parts.flatten());
    parts
}

// Dead nodes

/// What is done for a node behind any beginning of its run. The clock is read; if the heartbeat is
/// then ninety seconds ago or less, nothing more is done. Else its assigned job is put back into
/// its queue if there is one, then its reported job if there is one, then the node is removed. The
/// first of these that fails is the result.
pub proof fn law_dead_node_is_given_up(node: ClusterNode, log: Seq<Event>)
    requires
        legal(examine_node(node), log),
    ensures
        examine_node(node) is Clock && examine_node(node)->Clock_0 == node,
        log.len() > 0 ==> log[0] is Reading,
        log.len() > 0 ==> head(after(examine_node(node), log)) == ({
            let heartbeat = node.heartbeat_timestamp@;
            let now = log[0]->Reading_0@;
            let leap: int = if now.secs % 86_400 > heartbeat.secs % 86_400 && heartbeat.nanos
                >= 1_000_000_000 {
                1
            } else if now.secs % 86_400 < heartbeat.secs % 86_400 && now.nanos >= 1_000_000_000 {
                -1
            } else {
                0
            };
            let reported: int = if node.assigned_job_id is Some { 2 } else { 1 };
            let removal: int = reported + if node.reported_job_id is Some { 1int } else { 0int };
            let last = log[log.len() - 1];
            if (now.secs - heartbeat.secs + leap) * 1_000_000_000 + (now.nanos - heartbeat.nanos)
                <= 90 * 1_000_000_000 {
                Next::Done(Ok(()))
            } else if last is Exchange && last->Exchange_1 is JobWrite
                && last->Exchange_1->JobWrite_0 is Err {
                Next::Done(Err(SchedulerServiceError::Job(last->Exchange_1->JobWrite_0->Err_0)))
            } else if log.len() < reported {
                Next::Ask(Request::ResetJobStatus(node.assigned_job_id->0))
            } else if log.len() < removal {
                Next::Ask(Request::ResetJobStatus(node.reported_job_id->0))
            } else if log.len() == removal {
                Next::Ask(Request::DeleteClusterNode(node.id))
            } else {
                match last->Exchange_1->ClusterWrite_0 {
                    Ok(_) => Next::Done(Ok(())),
                    Err(error) => Next::Done(Err(SchedulerServiceError::Cluster(error))),
                }
            }
        }),
{
    reveal_with_fuel(legal, 6);
    reveal_with_fuel(after, 6);
    reveal_with_fuel(and_then, 5);
}

proof fn lemma_judged(
    nodes: Seq<ClusterNode>,
    reply: Reply,
    t: Script,
    readings: Seq<Reading>,
)
    requires
        t !is Clock,
        taken(examine_nodes(nodes), reply, readings),
        with_clock(examine_nodes(nodes), times_of(readings)) == t,
    ensures
        judged(nodes, reply, t, readings),
    decreases nodes.len(),
{
    if nodes.len() == 0 {
        assert(times_of(readings) =~= Seq::empty());
    } else {
        let node = nodes[0];
        let others = nodes.drop_first();
        assert(examine_nodes(nodes) is Clock) by {
            reveal_with_fuel(and_then, 2);
        }
        let now = readings[0].time();
        let rest = readings.drop_first();
        let next = (examine_nodes(nodes)->Clock_1)(now);
        assert(times_of(readings).drop_first() =~= times_of(rest));
        assert(taken(next, reply, rest));
        assert(with_clock(next, times_of(rest)) == t);
        if dead_at(node.heartbeat_timestamp@, now@) {
            reveal_with_fuel(and_then, 5);
            assert(next is Ask);
            assert(rest.len() == 0);
        } else {
            reveal_with_fuel(and_then, 2);
            assert(next == examine_nodes(others));
            lemma_judged(others, reply, t, rest);
            assert forall|i: int| 0 < i < readings.len() implies #[trigger] readings[i] == rest[i
                - 1] && nodes[i] == others[i - 1] by {}
        }
    }
}

/// The nodes were judged in their order, each at the time that the clock showed when it was read
/// for that node, behind the reply. All were alive but the last that was judged, if `t` is not the
/// good end: it was dead, and `t` asks for the first thing that is due for it. At the good end, all
/// nodes were judged, and all were alive.
pub open spec fn judged(
    nodes: Seq<ClusterNode>,
    reply: Reply,
    t: Script,
    readings: Seq<Reading>,
) -> bool {
    &&& readings.len() <= nodes.len()
    &&& forall|i: int|
        0 <= i < readings.len() ==> {
            &&& (#[trigger] readings[i]).node() == nodes[i]
            &&& readings[i].behind() == reply
            &&& readings[i].time()@.readable()
        }
    &&& forall|i: int|
        0 <= i < readings.len() - 1 ==> elapsed_nanos(
            (#[trigger] readings[i]).time()@,
            nodes[i].heartbeat_timestamp@,
        ) <= 90 * 1_000_000_000
    &&& if head(t) == Next::Done(Ok(())) {
        &&& readings.len() == nodes.len()
        &&& forall|i: int|
            0 <= i < readings.len() ==> elapsed_nanos(
                (#[trigger] readings[i]).time()@,
                nodes[i].heartbeat_timestamp@,
            ) <= 90 * 1_000_000_000
    } else {
        let dead = nodes[readings.len() - 1];
        &&& readings.len() > 0
        &&& elapsed_nanos(readings.last().time()@, dead.heartbeat_timestamp@) > 90 * 1_000_000_000
        &&& head(t) == Next::Ask(
            match (dead.assigned_job_id, dead.reported_job_id) {
                (Some(job_id), _) => Request::ResetJobStatus(job_id),
                (None, Some(job_id)) => Request::ResetJobStatus(job_id),
                (None, None) => Request::DeleteClusterNode(dead.id),
            },
        )
    }
}

/// Each node is judged at a reading of the clock that is made for it in its turn, whatever jobs it
/// has: no other time takes its place. Given out are the readings.
pub proof fn law_each_node_is_judged_by_the_clock(
    nodes: Seq<ClusterNode>,
    reply: Reply,
    t: Script,
) -> (readings: Seq<Reading>)
    requires
        settles(examine_nodes(nodes), reply, t),
    ensures
        judged(nodes, reply, t, readings),
{
    let readings = choose|readings: Seq<Reading>| #[trigger]
        taken(examine_nodes(nodes), reply, readings) && with_clock(
            examine_nodes(nodes),
            times_of(readings),
        ) == t;
    lemma_judged(nodes, reply, t, readings);
    readings
}

proof fn lemma_taken_in_first_part(s: Script, next: Script, reply: Reply, readings: Seq<Reading>)
    requires
        next is Ask,
        taken(regardless(s, next), reply, readings),
    ensures
        taken(s, reply, readings),
    decreases readings.len(),
{
    if readings.len() > 0 {
        let now = readings[0].time();
        assert(s is Clock);
        assert((regardless(s, next)->Clock_1)(now) == regardless((s->Clock_1)(now), next));
        lemma_taken_in_first_part((s->Clock_1)(now), next, reply, readings.drop_first());
    }
}

/// The same holds where more is to follow behind the cleanup, as in a cycle. Given out are the
/// readings, and where the cleanup itself stands.
pub proof fn law_each_node_is_judged_by_the_clock_in_a_cycle(
    nodes: Seq<ClusterNode>,
    next: Script,
    reply: Reply,
    t: Script,
) -> (judgement: (Seq<Reading>, Script))
    requires
        next is Ask,
        settles(regardless(examine_nodes(nodes), next), reply, t),
    ensures
        judged(nodes, reply, judgement.1, judgement.0),
        t == regardless(judgement.1, next),
{
    let s = examine_nodes(nodes);
    let readings = choose|readings: Seq<Reading>| #[trigger]
        taken(regardless(s, next), reply, readings) && with_clock(
            regardless(s, next),
            times_of(readings),
        ) == t;
    let inner = with_clock(s, times_of(readings));
    lemma_taken_in_first_part(s, next, reply, readings);
    lemma_with_clock_regardless(s, next, times_of(readings));
    lemma_judged(nodes, reply, inner, readings);
    (readings, inner)
}

/// The cleanup of dead nodes works on the listed nodes one by one, up to the first failure.
pub proof fn law_listed_nodes_have_their_turn(nodes: Vec<ClusterNode>, log: Seq<Event>) -> (parts:
    Seq<Seq<Event>>)
    requires
        legal(dead_node_cleanup(), log),
        log.len() > 0,
        log[0] == Event::Exchange(Request::ListAllNodes, Reply::Nodes(Ok(nodes))),
    ensures
        log == seq![log[0]] + parts.flatten(),
        in_turn(
            nodes@,
            |node: ClusterNode| examine_node(node),
            parts,
            after(dead_node_cleanup(), log),
        ),
{
    let body = |node: ClusterNode| examine_node(node);
    let parts = law_items_have_their_turn(nodes@, body, log.drop_first());
    assert(log =~= seq![log[0]] + parts.flatten());
    parts
}

// API keys

/// A key is among the keys exactly where its id is the id of one of them, whatever else is known
/// of that key.
pub proof fn law_key_is_known_by_its_id(keys: Seq<ApiKey>, key_id: ApiKeyId)
    ensures
        has_key(keys, key_id) <==> keys.map_values(|key: ApiKey| key.id).contains(key_id),
        forall|i: int| 0 <= i < keys.len() ==> has_key(keys, (#[trigger] keys[i]).id),
        has_key(keys, key_id) ==> exists|i: int|
            0 <= i < keys.len() && (#[trigger] keys[i]).id == key_id,
{
    let ids = keys.map_values(|key: ApiKey| key.id);
    if has_key(keys, key_id) {
        let i = choose|i: int| 0 <= i < keys.len() && (#[trigger] keys[i]).id == key_id;
        assert(ids[i] == key_id);
    }
    if ids.contains(key_id) {
        let i = choose|i: int| 0 <= i < ids.len() && ids[i] == key_id;
        assert(keys[i].id == key_id);
    }
}

/// Two lists of keys with the same ids allow the same deletions.
pub proof fn law_only_ids_of_keys_count(a: Seq<ApiKey>, b: Seq<ApiKey>, key_id: ApiKeyId)
    requires
        a.len() == b.len(),
        forall|i: int| 0 <= i < a.len() ==> (#[trigger] a[i]).id == b[i].id,
    ensures
        has_key(a, key_id) == has_key(b, key_id),
{
    law_key_is_known_by_its_id(a, key_id);
    law_key_is_known_by_its_id(b, key_id);
    assert(a.map_values(|key: ApiKey| key.id) =~= b.map_values(|key: ApiKey| key.id));
}

} // verus!
