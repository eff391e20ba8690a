//! What holds of every run of the scheduler's operations.
use vstd::prelude::*;

use crate::clock::{times_of, Reading};
use crate::dead_nodes::{
    dead_node_cleanup, delete_node, examine_node, examine_nodes, give_up_node, give_up_reported,
    requeue_any,
};
use crate::error::SchedulerServiceError;
use crate::log::{
    after, behind, complete, every_event, fits, head, legal, lemma_after_add, lemma_and_then_splits,
    lemma_every_and_then, lemma_every_for_each, lemma_every_regardless, lemma_every_weakened,
    lemma_fits_at, lemma_regardless_splits, lemma_requests_add, lemma_rule_at, outcome, readings,
    requests, Event, Next,
};
use crate::model::{
    dead_at, ClusterId, ClusterNode, JobId, NodeId, Queue, TrainingJob, TrainingJobStatus,
    HEARTBEAT_TIMEOUT_SECS,
};
use crate::orphaned_jobs::{examine_queued_job, examine_queued_jobs, orphaned_job_cleanup};
use crate::placement::{place_job, placement, serve_queue};
use crate::preempted_jobs::{examine_preemption, preempted_job, preempted_job_cleanup};
use crate::protocol::{Reply, Request};
use crate::script::{
    all_readable, and_then, awaits, change_job, finished, for_each, job_result, settles, taken,
    told, with_clock, Script,
};
use crate::service::{behind_dead_nodes, behind_preempted_jobs, behind_stale_jobs, cycle};
use crate::stale_jobs::{examine_queue, examine_starting_job, stale_job_cleanup};
use crate::time::{Instant, Timestamp, NANOS_PER_SEC};

verus! {

// Machines and logs

/// The readings of the clock as events.
pub open spec fn reading_events(times: Seq<Timestamp>) -> Seq<Event> {
    times.map_values(|now: Timestamp| Event::Reading(now))
}

proof fn lemma_clock_log(s: Script, reply: Reply, readings: Seq<Reading>)
    requires
        taken(s, reply, readings),
    ensures
        all_readable(times_of(readings)),
        legal(s, reading_events(times_of(readings))),
        after(s, reading_events(times_of(readings))) == with_clock(s, times_of(readings)),
    decreases readings.len(),
{
    let events = reading_events(times_of(readings));
    if readings.len() > 0 {
        let rest = readings.drop_first();
        lemma_clock_log((s->Clock_1)(readings[0].time()), reply, rest);
        assert(times_of(readings).drop_first() =~= times_of(rest));
        assert(events.drop_first() =~= reading_events(times_of(rest)));
        assert forall|i: int| 0 <= i < times_of(readings).len() implies (#[trigger] times_of(
            readings,
        )[i])@.readable() by {
            if i > 0 {
                assert(times_of(readings)[i] == times_of(rest)[i - 1]);
            }
        }
    } else {
        assert(events =~= Seq::empty());
    }
}

/// A machine that stands where a log of its script has led and takes a reply comes to stand
/// where a longer log leads: the exchange follows, and then as many readings of the clock as
/// are made before the next request or the end. So whatever holds of all logs of a script
/// holds of all runs of its machine. The times in the log are those that the clock showed when it
/// was read behind this reply, for the nodes that the script looks at.
pub proof fn law_resume_extends_the_log(
    s: Script,
    log: Seq<Event>,
    reply: Reply,
    t: Script,
) -> (readings: Seq<Reading>)
    requires
        legal(s, log),
        awaits(after(s, log), reply),
        settles(told(after(s, log), reply), reply, t),
    ensures
        taken(told(after(s, log), reply), reply, readings),
        all_readable(times_of(readings)),
        ({
            let exchange = Event::Exchange(after(s, log)->Ask_0, reply);
            let longer = log + (seq![exchange] + reading_events(times_of(readings)));
            legal(s, longer) && after(s, longer) == t
        }),
{
    let here = after(s, log);
    let exchange = Event::Exchange(here->Ask_0, reply);
    let readings = choose|readings: Seq<Reading>| #[trigger]
        taken(told(here, reply), reply, readings) && with_clock(
            told(here, reply),
            times_of(readings),
        ) == t;
    lemma_clock_log(told(here, reply), reply, readings);
    let tail = seq![exchange] + reading_events(times_of(readings));
    assert(tail.drop_first() =~= reading_events(times_of(readings)));
    lemma_after_add(s, log, tail);
    readings
}

/// Every event brings an operation closer to its end, in an order in which nothing descends
/// forever: no operation asks without end, whatever the replies are.
pub proof fn law_every_event_brings_the_end_closer(s: Script, event: Event)
    requires
        fits(s, event),
    ensures
        decreases_to!(s => behind(s, event)),
{
    match s {
        Script::Ask(_, k) => {
            let reply = event->Exchange_1;
            assert(decreases_to!(s => k(reply)));
        },
        Script::Clock(_, k) => {
            let now = event->Reading_0;
            assert(decreases_to!(s => k(now)));
        },
        Script::Done(_) => {},
    }
}

// The cycle

/// A cycle cleans up dead nodes, then stale, preempted and orphaned jobs, and then places jobs.
/// Each phase begins only once the one before it is whole. A whole cycle is made of all five, and
/// its result is that of the placement: no failure of a cleanup keeps the rest from being done,
/// and none becomes the result.
pub proof fn law_cycle_runs_all_phases(log: Seq<Event>) -> (parts: (
    Seq<Event>,
    Seq<Event>,
    Seq<Event>,
    Seq<Event>,
    Seq<Event>,
))
    requires
        legal(cycle(), log),
    ensures
        log == parts.0 + parts.1 + parts.2 + parts.3 + parts.4,
        legal(dead_node_cleanup(), parts.0),
        legal(stale_job_cleanup(), parts.1),
        legal(preempted_job_cleanup(), parts.2),
        legal(orphaned_job_cleanup(), parts.3),
        legal(placement(), parts.4),
        parts.1.len() > 0 ==> complete(dead_node_cleanup(), parts.0),
        parts.2.len() > 0 ==> complete(stale_job_cleanup(), parts.1),
        parts.3.len() > 0 ==> complete(preempted_job_cleanup(), parts.2),
        parts.4.len() > 0 ==> complete(orphaned_job_cleanup(), parts.3),
        complete(cycle(), log) ==> {
            &&& complete(dead_node_cleanup(), parts.0)
            &&& complete(stale_job_cleanup(), parts.1)
            &&& complete(preempted_job_cleanup(), parts.2)
            &&& complete(orphaned_job_cleanup(), parts.3)
            &&& complete(placement(), parts.4)
            &&& outcome(cycle(), log) == outcome(placement(), parts.4)
        },
{
    let a = lemma_regardless_splits(dead_node_cleanup(), behind_dead_nodes(), log);
    let log1 = log.skip(a);
    let b = lemma_regardless_splits(stale_job_cleanup(), behind_stale_jobs(), log1);
    let log2 = log1.skip(b);
    let c = lemma_regardless_splits(preempted_job_cleanup(), behind_preempted_jobs(), log2);
    let log3 = log2.skip(c);
    let d = lemma_regardless_splits(orphaned_job_cleanup(), placement(), log3);
    let parts = (log.take(a), log1.take(b), log2.take(c), log3.take(d), log3.skip(d));
    assert(log =~= parts.0 + parts.1 + parts.2 + parts.3 + parts.4);
    parts
}

// Lists

/// The items were looked at one by one, in their order and without a gap, and `parts` tells what
/// happened for each. Every part but the last is a whole run that succeeded; the last is a legal
/// beginning of its item's script. Where the list has come to a good end, all items had their turn
/// and succeeded; where it has failed, the last part is whole and its failure is that of the list;
/// else the last part is not over, and what is done next is what is due in it.
pub open spec fn in_turn<T>(
    items: Seq<T>,
    body: spec_fn(T) -> Script,
    parts: Seq<Seq<Event>>,
    end: Script,
) -> bool {
    &&& parts.len() <= items.len()
    &&& forall|i: int| 0 <= i < parts.len() ==> legal(body(items[i]), #[trigger] parts[i])
    &&& forall|i: int|
        0 <= i < parts.len() - 1 ==> after(body(items[i]), #[trigger] parts[i]) == finished()
    &&& match end {
        Script::Done(Ok(_)) => {
            &&& parts.len() == items.len()
            &&& forall|i: int|
                0 <= i < parts.len() ==> after(body(items[i]), #[trigger] parts[i]) == finished()
        },
        Script::Done(Err(error)) => {
            &&& parts.len() > 0
            &&& after(body(items[parts.len() - 1]), parts.last()) == Script::Done(Err(error))
        },
        _ => {
            &&& parts.len() > 0
            &&& after(body(items[parts.len() - 1]), parts.last()) !is Done
            &&& head(after(body(items[parts.len() - 1]), parts.last())) == head(end)
        },
    }
}

/// A run over a list of items, whole or cut off, is made of runs for single items, in the order
/// of the list. The first failure is the end, and the items behind it are not looked at.
pub proof fn law_items_have_their_turn<T>(
    items: Seq<T>,
    body: spec_fn(T) -> Script,
    log: Seq<Event>,
) -> (parts: Seq<Seq<Event>>)
    requires
        legal(for_each(items, body), log),
    ensures
        log == parts.flatten(),
        in_turn(items, body, parts, after(for_each(items, body), log)),
    decreases items.len(),
{
    if items.len() == 0 {
        assert(log =~= Seq::empty());
        Seq::empty()
    } else {
        let rest = items.drop_first();
        let cut = lemma_and_then_splits(body(items[0]), for_each(rest, body), log);
        let first = log.take(cut);
        if after(body(items[0]), first) is Done && outcome(body(items[0]), first) is Ok {
            assert(outcome(body(items[0]), first)->Ok_0 == ());
            let tail = law_items_have_their_turn(rest, body, log.skip(cut));
            let parts = seq![first] + tail;
            assert(parts.drop_first() =~= tail);
            assert(log =~= first + log.skip(cut));
            assert(forall|i: int|
                0 < i < parts.len() ==> #[trigger] parts[i] == tail[i - 1] && items[i] == rest[i - 1]);
            parts
        } else {
            let parts = seq![first];
            assert(first =~= log);
            parts.lemma_flatten_one_element();
            parts
        }
    }
}

// Plans

/// `s` makes the requests of `plan` in order, up to the first that fails.
pub open spec fn performs(s: Script, plan: Seq<Request>) -> bool
    decreases plan.len(),
{
    if plan.len() == 0 {
        s == finished()
    } else {
        &&& s is Ask
        &&& s->Ask_0 == plan[0]
        &&& forall|reply: Reply| #[trigger]
            reply.answers(plan[0]) ==> match reply.failure() {
                Some(error) => told(s, reply) == Script::Done(Err(error)),
                None => performs(told(s, reply), plan.drop_first()),
            }
    }
}

proof fn lemma_performs_and_then(
    s: Script,
    plan: Seq<Request>,
    next: Script,
    next_plan: Seq<Request>,
)
    requires
        performs(s, plan),
        performs(next, next_plan),
    ensures
        performs(and_then(s, next), plan + next_plan),
    decreases plan.len(),
{
    if plan.len() == 0 {
        assert(plan + next_plan =~= next_plan);
    } else {
        let joined = and_then(s, next);
        assert((plan + next_plan).drop_first() =~= plan.drop_first() + next_plan);
        assert forall|reply: Reply| #[trigger] reply.answers(plan[0]) implies match reply.failure() {
            Some(error) => told(joined, reply) == Script::Done(Err(error)),
            None => performs(told(joined, reply), (plan + next_plan).drop_first()),
        } by {
            assert(told(joined, reply) == and_then(told(s, reply), next));
            if reply.failure() is None {
                lemma_performs_and_then(told(s, reply), plan.drop_first(), next, next_plan);
            }
        }
    }
}

proof fn lemma_performs_log(s: Script, plan: Seq<Request>, log: Seq<Event>)
    requires
        performs(s, plan),
        legal(s, log),
    ensures
        requests(log).is_prefix_of(plan),
        readings(log).len() == 0,
        complete(s, log) && outcome(s, log) is Ok ==> requests(log) == plan,
    decreases log.len(),
{
    if log.len() > 0 {
        if plan.len() > 0 {
            let reply = log[0]->Exchange_1;
            assert(reply.answers(plan[0]));
            let rest = log.drop_first();
            match reply.failure() {
                Some(_) => {
                    assert(rest.len() == 0) by {
                        reveal_with_fuel(legal, 2);
                    }
                    reveal_with_fuel(after, 2);
                    reveal_with_fuel(requests, 2);
                    reveal_with_fuel(readings, 2);
                    assert(requests(log) =~= seq![plan[0]]);
                },
                None => {
                    lemma_performs_log(told(s, reply), plan.drop_first(), rest);
                    assert(requests(log) =~= plan.subrange(0, requests(log).len() as int));
                    if requests(rest) == plan.drop_first() {
                        assert(requests(log) =~= plan);
                    }
                },
            }
        }
    } else {
        assert(requests(log) =~= plan.subrange(0, 0));
        assert(plan.len() == 0 ==> requests(log) =~= plan);
    }
}

// Dead nodes

/// The request to put the job back into its queue, if there is a job.
pub open spec fn requeue_plan(job_id: Option<JobId>) -> Seq<Request> {
    match job_id {
        Some(job_id) => seq![Request::ResetJobStatus(job_id)],
        None => Seq::empty(),
    }
}

/// What is asked for a node that is looked at when the clock shows `now`: nothing if it is
/// alive; else its assigned job and its reported job are put back into their queues, and the
/// node is removed.
pub open spec fn node_plan(node: ClusterNode, now: Timestamp) -> Seq<Request> {
    if dead_at(node.heartbeat_timestamp@, now@) {
        requeue_plan(node.assigned_job_id) + requeue_plan(node.reported_job_id)
            + seq![Request::DeleteClusterNode(node.id)]
    } else {
        Seq::empty()
    }
}

/// What is asked for the nodes, each looked at when the clock shows the time of its position.
pub open spec fn nodes_plan(nodes: Seq<ClusterNode>, times: Seq<Timestamp>) -> Seq<Request>
    decreases times.len(),
{
    if times.len() == 0 || nodes.len() == 0 {
        Seq::empty()
    } else {
        node_plan(nodes[0], times[0]) + nodes_plan(nodes.drop_first(), times.drop_first())
    }
}

proof fn lemma_requeue_performs(job_id: Option<JobId>)
    ensures
        performs(requeue_any(job_id), requeue_plan(job_id)),
{
    reveal_with_fuel(performs, 2);
    assert(requeue_plan(job_id).len() > 0 ==> requeue_plan(job_id).drop_first() =~= Seq::empty());
}

proof fn lemma_node_performs(node: ClusterNode, now: Timestamp)
    requires
        dead_at(node.heartbeat_timestamp@, now@),
    ensures
        performs(give_up_node(node), node_plan(node, now)),
{
    let delete_plan = seq![Request::DeleteClusterNode(node.id)];
    assert(performs(delete_node(node.id), delete_plan)) by {
        reveal_with_fuel(performs, 2);
        assert(delete_plan.drop_first() =~= Seq::empty());
    }
    lemma_requeue_performs(node.assigned_job_id);
    lemma_requeue_performs(node.reported_job_id);
    let reported = requeue_plan(node.reported_job_id);
    let assigned = requeue_plan(node.assigned_job_id);
    lemma_performs_and_then(
        requeue_any(node.reported_job_id),
        reported,
        delete_node(node.id),
        delete_plan,
    );
    lemma_performs_and_then(
        requeue_any(node.assigned_job_id),
        assigned,
        give_up_reported(node),
        reported + delete_plan,
    );
    assert(assigned + (reported + delete_plan) =~= node_plan(node, now));
}

proof fn lemma_nodes_log(nodes: Seq<ClusterNode>, log: Seq<Event>)
    requires
        legal(examine_nodes(nodes), log),
    ensures
        readings(log).len() <= nodes.len(),
        requests(log).is_prefix_of(nodes_plan(nodes, readings(log))),
        complete(examine_nodes(nodes), log) && outcome(examine_nodes(nodes), log) is Ok ==> {
            &&& readings(log).len() == nodes.len()
            &&& requests(log) == nodes_plan(nodes, readings(log))
        },
    decreases nodes.len(),
{
    if nodes.len() > 0 && log.len() > 0 {
        let node = nodes[0];
        let others = nodes.drop_first();
        let now = log[0]->Reading_0;
        let rest = log.drop_first();
        let this = if dead_at(node.heartbeat_timestamp@, now@) {
            give_up_node(node)
        } else {
            finished()
        };
        let plan = node_plan(node, now);
        assert(behind(examine_nodes(nodes), log[0]) == and_then(this, examine_nodes(others))) by {
            reveal_with_fuel(and_then, 2);
        }
        if dead_at(node.heartbeat_timestamp@, now@) {
            lemma_node_performs(node, now);
        }
        let cut = lemma_and_then_splits(this, examine_nodes(others), rest);
        let first = rest.take(cut);
        let second = rest.skip(cut);
        assert(rest =~= first + second);
        lemma_requests_add(first, second);
        lemma_performs_log(this, plan, first);
        assert(readings(first) =~= Seq::empty());
        assert(readings(log) =~= seq![now] + readings(second));
        assert(readings(log).drop_first() =~= readings(second));
        assert(requests(log) =~= requests(first) + requests(second));
        let whole = nodes_plan(nodes, readings(log));
        assert(whole == plan + nodes_plan(others, readings(second)));
        if after(this, first) is Done && outcome(this, first) is Ok {
            lemma_nodes_log(others, second);
            assert(requests(log) =~= whole.subrange(0, requests(log).len() as int));
        } else {
            assert(second =~= Seq::empty());
            assert(requests(log) =~= whole.subrange(0, requests(log).len() as int));
        }
    } else {
        assert(requests(log) =~= Seq::empty());
        if nodes.len() == 0 {
            assert(log.len() == 0);
        }
        assert(requests(log) =~= nodes_plan(nodes, readings(log)).subrange(0, 0));
    }
}

/// The cleanup of dead nodes looks at the listed nodes in their order, each at a time of its
/// own. It asks for nothing but the requeueing of the jobs of dead nodes, and the removal of
/// the node behind them; and where it succeeds, it has done so for all of them.
pub proof fn law_dead_nodes_are_given_up(nodes: Vec<ClusterNode>, log: Seq<Event>)
    requires
        legal(dead_node_cleanup(), log),
        log.len() > 0,
        log[0] == Event::Exchange(Request::ListAllNodes, Reply::Nodes(Ok(nodes))),
    ensures
        readings(log).len() <= nodes@.len(),
        requests(log).is_prefix_of(
            seq![Request::ListAllNodes] + nodes_plan(nodes@, readings(log)),
        ),
        complete(dead_node_cleanup(), log) && outcome(dead_node_cleanup(), log) is Ok ==> {
            &&& readings(log).len() == nodes@.len()
            &&& requests(log) == seq![Request::ListAllNodes] + nodes_plan(nodes@, readings(log))
        },
{
    let rest = log.drop_first();
    lemma_nodes_log(nodes@, rest);
    let whole = seq![Request::ListAllNodes] + nodes_plan(nodes@, readings(log));
    assert(requests(log) =~= whole.subrange(0, requests(log).len() as int));
}

/// The heartbeat lies in a leap second that is counted as passed at `t1`, but not at `t2`, which
/// is at an earlier time of another day, and without it the timeout has not passed at `t2`.
pub open spec fn leap_second_lapses(heartbeat: Instant, t1: Instant, t2: Instant) -> bool {
    &&& heartbeat.in_leap_second()
    &&& t2.second_of_day() <= heartbeat.second_of_day() < t1.second_of_day()
    &&& (t2.secs - heartbeat.secs) * NANOS_PER_SEC + (t2.nanos - heartbeat.nanos)
        <= HEARTBEAT_TIMEOUT_SECS * NANOS_PER_SEC
}

/// A node that counts as dead at one time counts as dead at every later time, as long as it
/// sends no heartbeat. Left out is a heartbeat in a leap second that is counted before a midnight
/// and not behind it.
pub proof fn law_dead_node_stays_dead(heartbeat: Instant, t1: Instant, t2: Instant)
    requires
        t1.readable(),
        t2.readable(),
        t1.not_after(t2),
        dead_at(heartbeat, t1),
        !leap_second_lapses(heartbeat, t1, t2),
    ensures
        dead_at(heartbeat, t2),
{
}

/// `few` is made of elements of `many`, in their order.
pub open spec fn subsequence<T>(few: Seq<T>, many: Seq<T>) -> bool
    decreases many.len(),
{
    ||| few.len() == 0
    ||| many.len() > 0 && few[0] == many[0] && subsequence(few.drop_first(), many.drop_first())
    ||| many.len() > 0 && subsequence(few, many.drop_first())
}

proof fn lemma_subsequence_of_itself<T>(s: Seq<T>)
    ensures
        subsequence(s, s),
    decreases s.len(),
{
    if s.len() > 0 {
        lemma_subsequence_of_itself(s.drop_first());
    }
}

proof fn lemma_subsequence_add<T>(few: Seq<T>, many: Seq<T>, few2: Seq<T>, many2: Seq<T>)
    requires
        subsequence(few, many),
        subsequence(few2, many2),
    ensures
        subsequence(few + few2, many + many2),
    decreases many.len(),
{
    if many.len() == 0 {
        assert(few + few2 =~= few2);
        assert(many + many2 =~= many2);
    } else {
        let rest = many.drop_first();
        assert((many + many2).drop_first() =~= rest + many2);
        if few.len() > 0 && few[0] == many[0] && subsequence(few.drop_first(), rest) {
            assert((few + few2).drop_first() =~= few.drop_first() + few2);
            lemma_subsequence_add(few.drop_first(), rest, few2, many2);
        } else {
            lemma_subsequence_add(few, rest, few2, many2);
        }
    }
}

proof fn lemma_subsequence_prefix<T>(prefix: Seq<T>, few: Seq<T>, many: Seq<T>)
    requires
        prefix.is_prefix_of(few),
        subsequence(few, many),
    ensures
        subsequence(prefix, many),
    decreases many.len(),
{
    if prefix.len() > 0 {
        let rest = many.drop_first();
        if few[0] == many[0] && subsequence(few.drop_first(), rest) {
            assert(prefix.drop_first() =~= few.drop_first().subrange(0, prefix.len() - 1));
            lemma_subsequence_prefix(prefix.drop_first(), few.drop_first(), rest);
        } else {
            lemma_subsequence_prefix(prefix, few, rest);
        }
    }
}

/// What `select` takes from the requests, in order.
pub open spec fn selected<T>(requests: Seq<Request>, select: spec_fn(Request) -> Option<T>) -> Seq<T>
    decreases requests.len(),
{
    if requests.len() == 0 {
        Seq::empty()
    } else {
        (match select(requests[0]) {
            Some(item) => seq![item],
            None => Seq::empty(),
        }) + selected(requests.drop_first(), select)
    }
}

/// The nodes that the requests remove, in order.
pub open spec fn removed_nodes(requests: Seq<Request>) -> Seq<NodeId> {
    selected(
        requests,
        |request: Request|
            match request {
                Request::DeleteClusterNode(node_id) => Some(node_id),
                _ => None,
            },
    )
}

/// The jobs that the requests put back into their queues, in order.
pub open spec fn requeued_jobs(requests: Seq<Request>) -> Seq<JobId> {
    selected(
        requests,
        |request: Request|
            match request {
                Request::ResetJobStatus(job_id) => Some(job_id),
                _ => None,
            },
    )
}

proof fn lemma_subsequence_selected<T>(
    few: Seq<Request>,
    many: Seq<Request>,
    select: spec_fn(Request) -> Option<T>,
)
    requires
        subsequence(few, many),
    ensures
        subsequence(selected(few, select), selected(many, select)),
    decreases many.len(),
{
    if few.len() > 0 {
        let rest = many.drop_first();
        let head: Seq<T> = match select(many[0]) {
            Some(item) => seq![item],
            None => Seq::empty(),
        };
        if few[0] == many[0] && subsequence(few.drop_first(), rest) {
            lemma_subsequence_selected(few.drop_first(), rest, select);
            lemma_subsequence_of_itself(head);
            lemma_subsequence_add(
                head,
                head,
                selected(few.drop_first(), select),
                selected(rest, select),
            );
        } else {
            lemma_subsequence_selected(few, rest, select);
            lemma_subsequence_add(
                Seq::empty(),
                head,
                selected(few, select),
                selected(rest, select),
            );
            assert(Seq::empty() + selected(few, select) =~= selected(few, select));
        }
    }
}

/// `later` has a reading for each of `earlier` that is not before it, and the node of that
/// position, if dead at the one, is not brought back at the other by a leap second.
pub open spec fn read_later(
    nodes: Seq<ClusterNode>,
    earlier: Seq<Timestamp>,
    later: Seq<Timestamp>,
) -> bool {
    &&& earlier.len() <= later.len()
    &&& forall|i: int|
        0 <= i < earlier.len() ==> {
            &&& (#[trigger] earlier[i])@.not_after(later[i]@)
            &&& !leap_second_lapses(nodes[i].heartbeat_timestamp@, earlier[i]@, later[i]@)
        }
}

proof fn lemma_later_plan_has_more(
    nodes: Seq<ClusterNode>,
    earlier: Seq<Timestamp>,
    later: Seq<Timestamp>,
)
    requires
        earlier.len() <= nodes.len(),
        all_readable(earlier),
        all_readable(later),
        read_later(nodes, earlier, later),
    ensures
        subsequence(nodes_plan(nodes, earlier), nodes_plan(nodes, later)),
    decreases earlier.len(),
{
    if earlier.len() > 0 {
        let others = nodes.drop_first();
        let few = node_plan(nodes[0], earlier[0]);
        let many = node_plan(nodes[0], later[0]);
        assert(subsequence(few, many)) by {
            assert(earlier[0]@.readable() && later[0]@.readable());
            if dead_at(nodes[0].heartbeat_timestamp@, earlier[0]@) {
                law_dead_node_stays_dead(
                    nodes[0].heartbeat_timestamp@,
                    earlier[0]@,
                    later[0]@,
                );
                lemma_subsequence_of_itself(few);
            }
        }
        lemma_later_plan_has_more(others, earlier.drop_first(), later.drop_first());
        lemma_subsequence_add(
            few,
            many,
            nodes_plan(others, earlier.drop_first()),
            nodes_plan(others, later.drop_first()),
        );
    }
}

/// Of two cleanups of the same nodes, the one that looks at each node later removes all nodes
/// that the other removes, and puts all jobs back into their queues that the other puts back, in
/// the same order. The later one has succeeded; the earlier one may have failed or be under way.
pub proof fn law_later_cleanup_gives_up_more(
    nodes: Vec<ClusterNode>,
    earlier: Seq<Event>,
    later: Seq<Event>,
)
    requires
        legal(dead_node_cleanup(), earlier),
        complete(dead_node_cleanup(), later),
        outcome(dead_node_cleanup(), later) is Ok,
        earlier.len() > 0,
        earlier[0] == Event::Exchange(Request::ListAllNodes, Reply::Nodes(Ok(nodes))),
        later[0] == earlier[0],
        all_readable(readings(earlier)),
        all_readable(readings(later)),
        read_later(nodes@, readings(earlier), readings(later)),
    ensures
        subsequence(requests(earlier), requests(later)),
        subsequence(removed_nodes(requests(earlier)), removed_nodes(requests(later))),
        subsequence(requeued_jobs(requests(earlier)), requeued_jobs(requests(later))),
{
    assert(later.len() > 0);
    law_dead_nodes_are_given_up(nodes, earlier);
    law_dead_nodes_are_given_up(nodes, later);
    let listing = seq![Request::ListAllNodes];
    let few = nodes_plan(nodes@, readings(earlier));
    let many = nodes_plan(nodes@, readings(later));
    lemma_later_plan_has_more(nodes@, readings(earlier), readings(later));
    lemma_subsequence_of_itself(listing);
    lemma_subsequence_add(listing, listing, few, many);
    lemma_subsequence_prefix(requests(earlier), listing + few, listing + many);
    lemma_subsequence_selected(
        requests(earlier),
        requests(later),
        |request: Request|
            match request {
                Request::DeleteClusterNode(node_id) => Some(node_id),
                _ => None,
            },
    );
    lemma_subsequence_selected(
        requests(earlier),
        requests(later),
        |request: Request|
            match request {
                Request::ResetJobStatus(job_id) => Some(job_id),
                _ => None,
            },
    );
}

// Orphaned jobs

/// The cancellations of the jobs that belong to no queue, in the order of the list.
pub open spec fn orphan_plan(jobs: Seq<TrainingJob>) -> Seq<Request> {
    jobs.filter(|job: TrainingJob| job.queue_id is None).map_values(
        |job: TrainingJob| Request::UpdateStatus(job.id, TrainingJobStatus::Cancelled),
    )
}

proof fn lemma_orphans_performed(jobs: Seq<TrainingJob>)
    ensures
        performs(examine_queued_jobs(jobs), orphan_plan(jobs)),
    decreases jobs.len(),
{
    let orphaned = |job: TrainingJob| job.queue_id is None;
    if jobs.len() == 0 {
        assert(jobs.filter(orphaned).len() == 0) by {
            reveal(Seq::filter);
        }
    } else {
        let job = jobs[0];
        let others = jobs.drop_first();
        lemma_orphans_performed(others);
        assert(jobs =~= seq![job] + others);
        others.lemma_filter_prepend(job, orphaned);
        let plan = if orphaned(job) {
            seq![Request::UpdateStatus(job.id, TrainingJobStatus::Cancelled)]
        } else {
            Seq::empty()
        };
        assert(orphan_plan(jobs) =~= plan + orphan_plan(others));
        assert(performs(examine_queued_job(job), plan)) by {
            reveal_with_fuel(performs, 2);
            assert(plan.len() > 0 ==> plan.drop_first() =~= Seq::empty());
        }
        lemma_performs_and_then(
            examine_queued_job(job),
            plan,
            examine_queued_jobs(others),
            orphan_plan(others),
        );
    }
}

/// The cleanup of orphaned jobs cancels the listed jobs that belong to no queue, in their
/// order, up to the first cancellation that fails, and asks for nothing else.
pub proof fn law_orphans_are_cancelled(jobs: Vec<TrainingJob>, log: Seq<Event>)
    requires
        legal(orphaned_job_cleanup(), log),
        log.len() > 0,
        log[0] == Event::Exchange(
            Request::GetJobsByStatus(TrainingJobStatus::Queued),
            Reply::Jobs(Ok(jobs)),
        ),
    ensures
        requests(log).is_prefix_of(
            seq![Request::GetJobsByStatus(TrainingJobStatus::Queued)] + orphan_plan(jobs@),
        ),
        complete(orphaned_job_cleanup(), log) && outcome(orphaned_job_cleanup(), log) is Ok
            ==> requests(log) == seq![Request::GetJobsByStatus(TrainingJobStatus::Queued)]
            + orphan_plan(jobs@),
{
    let rest = log.drop_first();
    lemma_orphans_performed(jobs@);
    lemma_performs_log(examine_queued_jobs(jobs@), orphan_plan(jobs@), rest);
    let whole = seq![Request::GetJobsByStatus(TrainingJobStatus::Queued)] + orphan_plan(jobs@);
    assert(requests(log) =~= whole.subrange(0, requests(log).len() as int));
}

// Stale jobs

/// The lookups for a starting job: of its node, if it has one, and of its queue, if it has one.
pub open spec fn lookup_plan(job: TrainingJob) -> Seq<Request> {
    (match job.node_id {
        Some(node_id) => seq![Request::GetClusterNodeById(node_id)],
        None => Seq::empty(),
    }) + (match job.queue_id {
        Some(queue_id) => seq![Request::GetQueueById(queue_id)],
        None => Seq::empty(),
    })
}

/// The change to a starting job: it is cancelled if its queue is gone, and only else requeued
/// if its node is gone.
pub open spec fn settle_plan(job: TrainingJob, node_gone: bool, queue_gone: bool) -> Seq<Request> {
    if queue_gone {
        seq![Request::UpdateStatus(job.id, TrainingJobStatus::Cancelled)]
    } else if node_gone {
        seq![Request::ResetJobStatus(job.id)]
    } else {
        Seq::empty()
    }
}

/// Whether the exchange at `i` was made and failed.
pub open spec fn failed_at(log: Seq<Event>, i: int) -> bool {
    i < log.len() && log[i]->Exchange_1.failure() is Some
}

/// What is asked for a starting job: all lookups, and then the change that their replies in `log`
/// call for.
pub open spec fn starting_job_plan(job: TrainingJob, log: Seq<Event>) -> Seq<Request> {
    let node_gone = job.node_id is Some && failed_at(log, 0);
    let queue_gone = job.queue_id is Some && failed_at(log, lookup_plan(job).len() - 1);
    lookup_plan(job) + settle_plan(job, node_gone, queue_gone)
}

/// The log of a starting job keeps to its plan, and has carried it out where the job is settled.
pub open spec fn starting_job_log(job: TrainingJob, log: Seq<Event>) -> bool {
    &&& requests(log).is_prefix_of(starting_job_plan(job, log))
    &&& complete(examine_starting_job(job), log) ==> requests(log) == starting_job_plan(job, log)
}

proof fn lemma_starting_job_log(job: TrainingJob, log: Seq<Event>)
    requires
        legal(examine_starting_job(job), log),
    ensures
        starting_job_log(job, log),
{
    reveal_with_fuel(legal, 5);
    reveal_with_fuel(after, 5);
    reveal_with_fuel(requests, 5);
    let plan = starting_job_plan(job, log);
    assert(requests(log) =~= plan.subrange(0, requests(log).len() as int));
    assert(complete(examine_starting_job(job), log) ==> requests(log) =~= plan);
}

/// The cleanup of stale jobs works on the listed jobs one by one, up to the first change that
/// fails. For each it makes all lookups and then at most one change: a job whose queue is gone
/// is cancelled, never requeued, and a job whose node and queue are found is left alone.
pub proof fn law_stale_jobs_are_settled(jobs: Vec<TrainingJob>, log: Seq<Event>) -> (parts: Seq<
    Seq<Event>,
>)
    requires
        legal(stale_job_cleanup(), log),
        log.len() > 0,
        log[0] == Event::Exchange(
            Request::GetJobsByStatus(TrainingJobStatus::Starting),
            Reply::Jobs(Ok(jobs)),
        ),
    ensures
        log == seq![log[0]] + parts.flatten(),
        in_turn(
            jobs@,
            |job: TrainingJob| examine_starting_job(job),
            parts,
            after(stale_job_cleanup(), log),
        ),
        forall|i: int|
            0 <= i < parts.len() ==> starting_job_log(jobs@[i], #[trigger] parts[i]),
{
    let body = |job: TrainingJob| examine_starting_job(job);
    let parts = law_items_have_their_turn(jobs@, body, log.drop_first());
    assert(log =~= seq![log[0]] + parts.flatten());
    assert forall|i: int| 0 <= i < parts.len() implies starting_job_log(
        jobs@[i],
        #[trigger] parts[i],
    ) by {
        lemma_starting_job_log(jobs@[i], parts[i]);
    }
    parts
}

// Preempted jobs

/// What is asked for a node: nothing if no job was preempted on it; else the job is looked up, and
/// requeued if `log` shows that it was found and is not over.
pub open spec fn preemption_plan(node: ClusterNode, log: Seq<Event>) -> Seq<Request> {
    match preempted_job(node) {
        None => Seq::empty(),
        Some(job_id) => {
            let lookup = seq![Request::GetTrainingJobById(job_id)];
            match log[0]->Exchange_1 {
                Reply::Job(Ok(job)) if log.len() > 0 && !job.status.terminal() => lookup + seq![
                    Request::ResetJobStatus(job.id),
                ],
                _ => lookup,
            }
        },
    }
}

/// The log of a node keeps to its plan, and has carried it out where the node is done with.
pub open spec fn preemption_log(node: ClusterNode, log: Seq<Event>) -> bool {
    &&& requests(log).is_prefix_of(preemption_plan(node, log))
    &&& complete(examine_preemption(node), log) ==> requests(log) == preemption_plan(node, log)
}

proof fn lemma_preemption_log(node: ClusterNode, log: Seq<Event>)
    requires
        legal(examine_preemption(node), log),
    ensures
        preemption_log(node, log),
{
    reveal_with_fuel(legal, 4);
    reveal_with_fuel(after, 4);
    reveal_with_fuel(requests, 4);
    let plan = preemption_plan(node, log);
    assert(requests(log) =~= plan.subrange(0, requests(log).len() as int));
    assert(complete(examine_preemption(node), log) ==> requests(log) =~= plan);
}

/// The cleanup of preempted jobs works on the listed nodes one by one, up to the first failure.
/// Only a node that reports a job while none is assigned to it counts, and a job that is over
/// is never put back into its queue.
pub proof fn law_preempted_jobs_are_requeued(nodes: Vec<ClusterNode>, log: Seq<Event>) -> (parts:
    Seq<Seq<Event>>)
    requires
        legal(preempted_job_cleanup(), log),
        log.len() > 0,
        log[0] == Event::Exchange(Request::ListAllNodes, Reply::Nodes(Ok(nodes))),
    ensures
        log == seq![log[0]] + parts.flatten(),
        in_turn(
            nodes@,
            |node: ClusterNode| examine_preemption(node),
            parts,
            after(preempted_job_cleanup(), log),
        ),
        forall|i: int|
            0 <= i < parts.len() ==> preemption_log(nodes@[i], #[trigger] parts[i]),
        forall|i: int|
            0 <= i < parts.len() && nodes@[i].assigned_job_id is Some ==> (
            #[trigger] parts[i]).len() == 0,
        forall|i: int|
            0 <= i < parts.len() && nodes@[i].assigned_job_id is None && (
            #[trigger] parts[i]).len() > 0 ==> {
                &&& nodes@[i].reported_job_id is Some
                &&& parts[i][0] is Exchange
                &&& parts[i][0]->Exchange_0 == Request::GetTrainingJobById(
                    nodes@[i].reported_job_id->0,
                )
            },
{
    let body = |node: ClusterNode| examine_preemption(node);
    let parts = law_items_have_their_turn(nodes@, body, log.drop_first());
    assert(log =~= seq![log[0]] + parts.flatten());
    assert forall|i: int| 0 <= i < parts.len() implies preemption_log(
        nodes@[i],
        #[trigger] parts[i],
    ) by {
        lemma_preemption_log(nodes@[i], parts[i]);
    }
    parts
}

// Placement

/// The node that the event allocated a job to.
pub open spec fn allocated(event: Event) -> Option<NodeId> {
    match event {
        Event::Exchange(_, Reply::Allocation(Ok(node_id))) => node_id,
        _ => None,
    }
}

/// The log of a job with `tries` searches: the clusters are tried in the order of the targets,
/// none behind the first that has a node. Where one has, all that follows is that the job is
/// marked as starting on that node, and the log is whole with that; else nothing follows, and the
/// log is whole once all clusters were tried.
pub open spec fn placement_log(
    job: TrainingJob,
    targets: Seq<ClusterId>,
    log: Seq<Event>,
    tries: int,
) -> bool {
    let placed = tries > 0 && allocated(log[tries - 1]) is Some;
    &&& 0 <= tries <= targets.len()
    &&& tries <= log.len()
    &&& forall|i: int|
        0 <= i < tries ==> (#[trigger] log[i]) is Exchange && log[i]->Exchange_0
            == Request::FindAndAllocateJob(job.id, targets[i], job.resource_requirements)
    &&& forall|i: int| 0 <= i < tries - 1 ==> allocated(#[trigger] log[i]) is None
    &&& log.len() > tries ==> {
        &&& placed
        &&& log.len() == tries + 1
        &&& log[tries] is Exchange
        &&& log[tries]->Exchange_0 == Request::MarkAsStarting(
            job.id,
            allocated(log[tries - 1])->0,
        )
    }
    &&& complete(place_job(job, targets), log) <==> (if placed {
        log.len() == tries + 1
    } else {
        tries == targets.len()
    })
}

/// The log of a job.
pub open spec fn job_log(job: TrainingJob, targets: Seq<ClusterId>, log: Seq<Event>) -> bool {
    exists|tries: int| placement_log(job, targets, log, tries)
}

/// A job tries the clusters of its queue in order, up to the first that has a node for it, and
/// is marked as starting once at most: on that node. The placement of the job succeeds unless
/// the mark fails. Given out is the number of clusters that were tried.
pub proof fn law_job_is_placed_once(
    job: TrainingJob,
    targets: Seq<ClusterId>,
    log: Seq<Event>,
) -> (tries: int)
    requires
        legal(place_job(job, targets), log),
    ensures
        placement_log(job, targets, log, tries),
        complete(place_job(job, targets), log) ==> outcome(place_job(job, targets), log) == (
        if log.len() > tries {
            job_result(log[tries]->Exchange_1)
        } else {
            Ok(())
        }),
    decreases targets.len(),
{
    if targets.len() == 0 || log.len() == 0 {
        assert(log.len() == 0);
        0
    } else {
        let rest = log.drop_first();
        match log[0]->Exchange_1 {
            Reply::Allocation(Ok(Some(node_id))) => {
                reveal_with_fuel(legal, 4);
                reveal_with_fuel(after, 4);
                1
            },
            _ => {
                let others = targets.drop_first();
                let tries = law_job_is_placed_once(job, others, rest);
                assert forall|i: int| 0 <= i < tries + 1 implies (#[trigger] log[i]) is Exchange
                    && log[i]->Exchange_0 == Request::FindAndAllocateJob(
                    job.id,
                    targets[i],
                    job.resource_requirements,
                ) by {
                    if i > 0 {
                        assert(log[i] == rest[i - 1]);
                        assert(targets[i] == others[i - 1]);
                    }
                }
                assert forall|i: int| 0 <= i < tries implies allocated(
                    #[trigger] log[i],
                ) is None by {
                    if i > 0 {
                        assert(log[i] == rest[i - 1]);
                    }
                }
                if tries > 0 {
                    assert(log[tries] == rest[tries - 1]);
                }
                tries + 1
            },
        }
    }
}

/// Serving a queue gives each of its jobs one turn, in the order in which they wait, on the
/// clusters of the queue. A job that no cluster has a node for does not hold up those behind it.
pub proof fn law_queue_is_served_in_order(
    queue: Queue,
    jobs: Vec<TrainingJob>,
    log: Seq<Event>,
) -> (parts: Seq<Seq<Event>>)
    requires
        legal(serve_queue(queue), log),
        log.len() > 0,
        log[0] == Event::Exchange(
            Request::GetQueuedJobsForQueue(queue.id),
            Reply::Jobs(Ok(jobs)),
        ),
    ensures
        log == seq![log[0]] + parts.flatten(),
        in_turn(
            jobs@,
            |job: TrainingJob| place_job(job, queue.cluster_targets@),
            parts,
            after(serve_queue(queue), log),
        ),
        forall|i: int|
            0 <= i < parts.len() ==> job_log(jobs@[i], queue.cluster_targets@, #[trigger] parts[i]),
{
    let targets = queue.cluster_targets@;
    let body = |job: TrainingJob| place_job(job, targets);
    let parts = law_items_have_their_turn(jobs@, body, log.drop_first());
    assert(log =~= seq![log[0]] + parts.flatten());
    assert forall|i: int| 0 <= i < parts.len() implies job_log(
        jobs@[i],
        targets,
        #[trigger] parts[i],
    ) by {
        let tries = law_job_is_placed_once(jobs@[i], targets, parts[i]);
        assert(placement_log(jobs@[i], targets, parts[i], tries));
    }
    parts
}

/// The placement serves the listed queues one by one, in their order, up to the first failure,
/// which is then its result.
pub proof fn law_queues_are_served_in_order(queues: Vec<Queue>, log: Seq<Event>) -> (parts: Seq<
    Seq<Event>,
>)
    requires
        legal(placement(), log),
        log.len() > 0,
        log[0] == Event::Exchange(Request::GetAllQueuesSorted, Reply::Queues(Ok(queues))),
    ensures
        log == seq![log[0]] + parts.flatten(),
        in_turn(queues@, |queue: Queue| serve_queue(queue), parts, after(placement(), log)),
        forall|i: int|
            0 <= i < parts.len() && (#[trigger] parts[i]).len() > 0 ==> {
                &&& parts[i][0] is Exchange
                &&& parts[i][0]->Exchange_0 == Request::GetQueuedJobsForQueue(queues@[i].id)
            },
{
    let body = |queue: Queue| serve_queue(queue);
    let parts = law_items_have_their_turn(queues@, body, log.drop_first());
    assert(log =~= seq![log[0]] + parts.flatten());
    parts
}

// Failures

/// The operations that a cycle is made of.
pub open spec fn is_operation(s: Script) -> bool {
    ||| s == dead_node_cleanup()
    ||| s == stale_job_cleanup()
    ||| s == preempted_job_cleanup()
    ||| s == orphaned_job_cleanup()
    ||| s == placement()
}

/// The failure that the event is of an operation: that of an exchange which may not fail.
pub open spec fn fatal(event: Event) -> Option<SchedulerServiceError> {
    match event {
        Event::Exchange(request, reply) if !request.may_fail() => reply.failure(),
        _ => None,
    }
}

/// A fatal event is followed by the end with its failure, and no other event by a failure.
pub open spec fn ends_at_failure(event: Event, next: Next) -> bool {
    match fatal(event) {
        Some(error) => next == Next::Done(Err(error)),
        None => next is Done ==> next->Done_0 is Ok,
    }
}

/// The event allocates the job to the node.
pub open spec fn allocates(event: Event, job_id: JobId, node_id: NodeId) -> bool {
    &&& event is Exchange
    &&& event->Exchange_0 is FindAndAllocateJob
    &&& event->Exchange_0->FindAndAllocateJob_0 == job_id
    &&& event->Exchange_1 == Reply::Allocation(Ok(Some(node_id)))
}

/// The event is the mark that the job starts on the node.
pub open spec fn marks(event: Event, job_id: JobId, node_id: NodeId) -> bool {
    &&& event is Exchange
    &&& event->Exchange_0 == Request::MarkAsStarting(job_id, node_id)
}

/// A job is marked as starting on a node right behind its allocation to that node, and only
/// there.
pub open spec fn marks_allocation(event: Event, next: Next) -> bool {
    forall|job_id: JobId, node_id: NodeId| #[trigger]
        allocates(event, job_id, node_id) <==> next == Next::Ask(
            Request::MarkAsStarting(job_id, node_id),
        )
}

/// The only status that is given to a job is that of a cancelled one.
pub open spec fn only_cancels(next: Next) -> bool {
    next is Ask && next->Ask_0 is UpdateStatus ==> next->Ask_0->UpdateStatus_1 is Cancelled
}

/// What holds of every event of the operations.
spec fn operation_rule() -> spec_fn(Event, Next) -> bool {
    |event: Event, next: Next|
        ends_at_failure(event, next) && marks_allocation(event, next) && only_cancels(next)
}

proof fn lemma_change_obeys(request: Request)
    requires
        request is ResetJobStatus || request is UpdateStatus || request is MarkAsStarting,
    ensures
        every_event(change_job(request), operation_rule()),
{
    reveal_with_fuel(every_event, 2);
}

proof fn lemma_dead_node_cleanup_obeys()
    ensures
        every_event(dead_node_cleanup(), operation_rule()),
{
    let rule = operation_rule();
    let body = |node: ClusterNode| examine_node(node);
    assert forall|node: ClusterNode| every_event(#[trigger] body(node), rule) by {
        let k = examine_node(node)->Clock_1;
        assert(every_event(delete_node(node.id), rule)) by {
            reveal_with_fuel(every_event, 2);
        }
        if node.assigned_job_id is Some {
            lemma_change_obeys(Request::ResetJobStatus(node.assigned_job_id->0));
        }
        if node.reported_job_id is Some {
            lemma_change_obeys(Request::ResetJobStatus(node.reported_job_id->0));
        }
        lemma_every_and_then(requeue_any(node.reported_job_id), delete_node(node.id), rule);
        lemma_every_and_then(requeue_any(node.assigned_job_id), give_up_reported(node), rule);
        assert forall|now: Timestamp|
            rule(Event::Reading(now), head(k(now))) && every_event(#[trigger] k(now), rule) by {}
    }
    let k = dead_node_cleanup()->Ask_1;
    assert forall|reply: Reply| #[trigger] reply.answers(Request::ListAllNodes) implies rule(
        Event::Exchange(Request::ListAllNodes, reply),
        head(k(reply)),
    ) && every_event(k(reply), rule) by {
        match reply {
            Reply::Nodes(Ok(nodes)) => {
                lemma_every_for_each(nodes@, body, rule);
                assert(rule(Event::Exchange(Request::ListAllNodes, reply), Next::Done(Ok(()))));
            },
            _ => {},
        }
    }
}

proof fn lemma_examine_queue_obeys(job: TrainingJob, node_gone: bool)
    ensures
        every_event(examine_queue(job, node_gone), operation_rule()),
{
    lemma_change_obeys(Request::ResetJobStatus(job.id));
    lemma_change_obeys(Request::UpdateStatus(job.id, TrainingJobStatus::Cancelled));
    assert(every_event(finished(), operation_rule()));
}

proof fn lemma_stale_job_cleanup_obeys()
    ensures
        every_event(stale_job_cleanup(), operation_rule()),
{
    let rule = operation_rule();
    let body = |job: TrainingJob| examine_starting_job(job);
    assert forall|job: TrainingJob| every_event(#[trigger] body(job), rule) by {
        lemma_examine_queue_obeys(job, true);
        lemma_examine_queue_obeys(job, false);
    }
    let request = Request::GetJobsByStatus(TrainingJobStatus::Starting);
    let k = stale_job_cleanup()->Ask_1;
    assert forall|reply: Reply| #[trigger] reply.answers(request) implies rule(
        Event::Exchange(request, reply),
        head(k(reply)),
    ) && every_event(k(reply), rule) by {
        match reply {
            Reply::Jobs(Ok(jobs)) => {
                lemma_every_for_each(jobs@, body, rule);
                assert(rule(Event::Exchange(request, reply), Next::Done(Ok(()))));
            },
            _ => {},
        }
    }
}

proof fn lemma_preempted_job_cleanup_obeys()
    ensures
        every_event(preempted_job_cleanup(), operation_rule()),
{
    let rule = operation_rule();
    let body = |node: ClusterNode| examine_preemption(node);
    assert forall|node: ClusterNode| every_event(#[trigger] body(node), rule) by {
        if preempted_job(node) is Some {
            let request = Request::GetTrainingJobById(preempted_job(node)->0);
            let k = examine_preemption(node)->Ask_1;
            assert forall|reply: Reply| #[trigger] reply.answers(request) implies rule(
                Event::Exchange(request, reply),
                head(k(reply)),
            ) && every_event(k(reply), rule) by {
                match reply {
                    Reply::Job(Ok(job)) => {
                        lemma_change_obeys(Request::ResetJobStatus(job.id));
                    },
                    _ => {},
                }
            }
        }
    }
    let k = preempted_job_cleanup()->Ask_1;
    assert forall|reply: Reply| #[trigger] reply.answers(Request::ListAllNodes) implies rule(
        Event::Exchange(Request::ListAllNodes, reply),
        head(k(reply)),
    ) && every_event(k(reply), rule) by {
        match reply {
            Reply::Nodes(Ok(nodes)) => {
                lemma_every_for_each(nodes@, body, rule);
                assert(rule(Event::Exchange(Request::ListAllNodes, reply), Next::Done(Ok(()))));
            },
            _ => {},
        }
    }
}

proof fn lemma_orphaned_job_cleanup_obeys()
    ensures
        every_event(orphaned_job_cleanup(), operation_rule()),
{
    let rule = operation_rule();
    let body = |job: TrainingJob| examine_queued_job(job);
    assert forall|job: TrainingJob| every_event(#[trigger] body(job), rule) by {
        lemma_change_obeys(Request::UpdateStatus(job.id, TrainingJobStatus::Cancelled));
    }
    let request = Request::GetJobsByStatus(TrainingJobStatus::Queued);
    let k = orphaned_job_cleanup()->Ask_1;
    assert forall|reply: Reply| #[trigger] reply.answers(request) implies rule(
        Event::Exchange(request, reply),
        head(k(reply)),
    ) && every_event(k(reply), rule) by {
        match reply {
            Reply::Jobs(Ok(jobs)) => {
                lemma_every_for_each(jobs@, body, rule);
                assert(rule(Event::Exchange(request, reply), Next::Done(Ok(()))));
            },
            _ => {},
        }
    }
}

proof fn lemma_place_job_obeys(job: TrainingJob, targets: Seq<ClusterId>)
    ensures
        every_event(place_job(job, targets), operation_rule()),
    decreases targets.len(),
{
    let rule = operation_rule();
    if targets.len() > 0 {
        let request = place_job(job, targets)->Ask_0;
        let k = place_job(job, targets)->Ask_1;
        lemma_place_job_obeys(job, targets.drop_first());
        assert forall|reply: Reply| #[trigger] reply.answers(request) implies rule(
            Event::Exchange(request, reply),
            head(k(reply)),
        ) && every_event(k(reply), rule) by {
            match reply {
                Reply::Allocation(Ok(Some(node_id))) => {
                    lemma_change_obeys(Request::MarkAsStarting(job.id, node_id));
                },
                _ => {},
            }
        }
    }
}

proof fn lemma_placement_obeys()
    ensures
        every_event(placement(), operation_rule()),
{
    let rule = operation_rule();
    let serve = |queue: Queue| serve_queue(queue);
    assert forall|queue: Queue| every_event(#[trigger] serve(queue), rule) by {
        let targets = queue.cluster_targets@;
        let place = |job: TrainingJob| place_job(job, targets);
        let request = Request::GetQueuedJobsForQueue(queue.id);
        let k = serve_queue(queue)->Ask_1;
        assert forall|job: TrainingJob| every_event(#[trigger] place(job), rule) by {
            lemma_place_job_obeys(job, targets);
        }
        assert forall|reply: Reply| #[trigger] reply.answers(request) implies rule(
            Event::Exchange(request, reply),
            head(k(reply)),
        ) && every_event(k(reply), rule) by {
            match reply {
                Reply::Jobs(Ok(jobs)) => {
                    lemma_every_for_each(jobs@, place, rule);
                    assert(rule(Event::Exchange(request, reply), Next::Done(Ok(()))));
                },
                _ => {},
            }
        }
    }
    let k = placement()->Ask_1;
    assert forall|reply: Reply| #[trigger] reply.answers(Request::GetAllQueuesSorted) implies rule(
        Event::Exchange(Request::GetAllQueuesSorted, reply),
        head(k(reply)),
    ) && every_event(k(reply), rule) by {
        match reply {
            Reply::Queues(Ok(queues)) => {
                lemma_every_for_each(queues@, serve, rule);
                assert(rule(Event::Exchange(Request::GetAllQueuesSorted, reply), Next::Done(Ok(()))));
            },
            _ => {},
        }
    }
}

proof fn lemma_operation_obeys(s: Script)
    requires
        is_operation(s),
    ensures
        every_event(s, operation_rule()),
{
    lemma_dead_node_cleanup_obeys();
    lemma_stale_job_cleanup_obeys();
    lemma_preempted_job_cleanup_obeys();
    lemma_orphaned_job_cleanup_obeys();
    lemma_placement_obeys();
}

/// The first exchange that fails, of those that may not, ends the operation with its failure:
/// nothing is asked behind it.
pub proof fn law_first_failure_ends_the_operation(s: Script, log: Seq<Event>, i: int)
    requires
        is_operation(s),
        legal(s, log),
        0 <= i < log.len(),
        fatal(log[i]) is Some,
    ensures
        i == log.len() - 1,
        after(s, log) == Script::Done(Err(fatal(log[i])->0)),
{
    lemma_operation_obeys(s);
    lemma_rule_at(s, operation_rule(), log, i);
    if i + 1 < log.len() {
        lemma_fits_at(s, log, i + 1);
    }
    assert(log.take(log.len() as int) =~= log);
}

/// An operation fails with the failure of its last exchange, and it succeeds only where no
/// exchange failed but such as may.
pub proof fn law_result_tells_of_the_last_exchange(s: Script, log: Seq<Event>)
    requires
        is_operation(s),
        complete(s, log),
    ensures
        match outcome(s, log) {
            Ok(_) => forall|i: int| 0 <= i < log.len() ==> fatal(#[trigger] log[i]) is None,
            Err(error) => log.len() > 0 && fatal(log.last()) == Some(error),
        },
{
    lemma_operation_obeys(s);
    assert(log.len() > 0);
    lemma_rule_at(s, operation_rule(), log, log.len() - 1);
    assert(log.take(log.len() as int) =~= log);
    assert forall|i: int| 0 <= i < log.len() && outcome(s, log) is Ok implies fatal(
        #[trigger] log[i],
    ) is None by {
        if fatal(log[i]) is Some {
            law_first_failure_ends_the_operation(s, log, i);
        }
    }
}

/// The requests of the placement.
pub open spec fn is_placement_request(request: Request) -> bool {
    ||| request is GetAllQueuesSorted
    ||| request is GetQueuedJobsForQueue
    ||| request is FindAndAllocateJob
    ||| request is MarkAsStarting
}

spec fn placement_rule() -> spec_fn(Event, Next) -> bool {
    |event: Event, next: Next| event is Exchange && is_placement_request(event->Exchange_0)
}

proof fn lemma_place_job_requests(job: TrainingJob, targets: Seq<ClusterId>)
    ensures
        every_event(place_job(job, targets), placement_rule()),
    decreases targets.len(),
{
    if targets.len() > 0 {
        lemma_place_job_requests(job, targets.drop_first());
        reveal_with_fuel(every_event, 3);
    }
}

proof fn lemma_placement_requests()
    ensures
        every_event(placement(), placement_rule()),
{
    let rule = placement_rule();
    let serve = |queue: Queue| serve_queue(queue);
    assert forall|queue: Queue| every_event(#[trigger] serve(queue), rule) by {
        let targets = queue.cluster_targets@;
        let place = |job: TrainingJob| place_job(job, targets);
        assert forall|job: TrainingJob| every_event(#[trigger] place(job), rule) by {
            lemma_place_job_requests(job, targets);
        }
        let k = serve_queue(queue)->Ask_1;
        assert forall|reply: Reply| #[trigger]
            reply.answers(Request::GetQueuedJobsForQueue(queue.id)) implies every_event(
            k(reply),
            rule,
        ) by {
            if let Reply::Jobs(Ok(jobs)) = reply {
                lemma_every_for_each(jobs@, place, rule);
            }
        }
    }
    let k = placement()->Ask_1;
    assert forall|reply: Reply| #[trigger]
        reply.answers(Request::GetAllQueuesSorted) implies every_event(k(reply), rule) by {
        if let Reply::Queues(Ok(queues)) = reply {
            lemma_every_for_each(queues@, serve, rule);
        }
    }
}

/// A cycle fails only where the queues, or the jobs of a queue, cannot be listed, or a job
/// cannot be marked as starting. Its failure is that of this last exchange.
pub proof fn law_cycle_fails_only_in_placement(log: Seq<Event>)
    requires
        complete(cycle(), log),
        outcome(cycle(), log) is Err,
    ensures
        log.len() > 0,
        fatal(log.last()) == Some(outcome(cycle(), log)->Err_0),
        log.last()->Exchange_0 is GetAllQueuesSorted || log.last()->Exchange_0 is
            GetQueuedJobsForQueue || log.last()->Exchange_0 is MarkAsStarting,
        outcome(cycle(), log)->Err_0 is Queue || outcome(cycle(), log)->Err_0 is Job,
{
    let parts = law_cycle_runs_all_phases(log);
    law_result_tells_of_the_last_exchange(placement(), parts.4);
    lemma_placement_requests();
    lemma_rule_at(placement(), placement_rule(), parts.4, parts.4.len() - 1);
    lemma_fits_at(placement(), parts.4, parts.4.len() - 1);
    assert(log.last() == parts.4.last());
}

// The whole cycle

spec fn cycle_rule() -> spec_fn(Event, Next) -> bool {
    |event: Event, next: Next| marks_allocation(event, next) && only_cancels(next)
}

proof fn lemma_cycle_obeys()
    ensures
        every_event(cycle(), cycle_rule()),
{
    let rule = cycle_rule();
    assert forall|s: Script| #[trigger] is_operation(s) implies every_event(s, rule) by {
        lemma_operation_obeys(s);
        lemma_every_weakened(s, operation_rule(), rule);
    }
    assert(is_operation(dead_node_cleanup()) && is_operation(stale_job_cleanup()) && is_operation(
        preempted_job_cleanup(),
    ) && is_operation(orphaned_job_cleanup()) && is_operation(placement()));
    lemma_every_regardless(orphaned_job_cleanup(), placement(), rule);
    lemma_every_regardless(preempted_job_cleanup(), behind_preempted_jobs(), rule);
    lemma_every_regardless(stale_job_cleanup(), behind_stale_jobs(), rule);
    lemma_every_regardless(dead_node_cleanup(), behind_dead_nodes(), rule);
}

/// Once a job is allocated to a node, the next thing that a cycle does is to mark it as
/// starting there.
pub proof fn law_allocated_job_is_marked(log: Seq<Event>, i: int, job_id: JobId, node_id: NodeId)
    requires
        legal(cycle(), log),
        0 <= i < log.len(),
        allocates(log[i], job_id, node_id),
    ensures
        head(after(cycle(), log.take(i + 1))) == Next::Ask(
            Request::MarkAsStarting(job_id, node_id),
        ),
        i + 1 < log.len() ==> marks(log[i + 1], job_id, node_id),
{
    lemma_cycle_obeys();
    lemma_rule_at(cycle(), cycle_rule(), log, i);
    if i + 1 < log.len() {
        lemma_fits_at(cycle(), log, i + 1);
    }
}

/// A cycle marks no job as starting but one that was allocated to the very node just before.
pub proof fn law_marked_job_was_allocated(log: Seq<Event>, i: int, job_id: JobId, node_id: NodeId)
    requires
        legal(cycle(), log),
        0 <= i < log.len(),
        marks(log[i], job_id, node_id),
    ensures
        i > 0,
        allocates(log[i - 1], job_id, node_id),
{
    lemma_cycle_obeys();
    lemma_fits_at(cycle(), log, i);
    assert(log.take(0) =~= Seq::empty());
    if i > 0 {
        lemma_rule_at(cycle(), cycle_rule(), log, i - 1);
        assert(log.take(i - 1 + 1) == log.take(i));
        assert(allocates(log[i - 1], job_id, node_id));
    }
}

/// The only status that a cycle gives a job directly is that of a cancelled one.
pub proof fn law_status_is_only_set_to_cancelled(log: Seq<Event>, i: int)
    requires
        legal(cycle(), log),
        0 <= i < log.len(),
        log[i] is Exchange,
        log[i]->Exchange_0 is UpdateStatus,
    ensures
        log[i]->Exchange_0->UpdateStatus_1 is Cancelled,
{
    lemma_cycle_obeys();
    lemma_fits_at(cycle(), log, i);
    assert(log.take(0) =~= Seq::empty());
    if i > 0 {
        lemma_rule_at(cycle(), cycle_rule(), log, i - 1);
        assert(log.take(i - 1 + 1) == log.take(i));
    }
}

/// A search that fails is to the placement of a job what a search without a find is.
pub proof fn law_failed_search_is_no_find(
    job: TrainingJob,
    targets: Seq<ClusterId>,
    failed: Reply,
    empty: Reply,
)
    requires
        targets.len() > 0,
        failed is Allocation && failed->Allocation_0 is Err,
        empty == Reply::Allocation(Ok(None)),
    ensures
        told(place_job(job, targets), failed) == told(place_job(job, targets), empty),
        told(place_job(job, targets), failed) == place_job(job, targets.drop_first()),
{
}

} // verus!
