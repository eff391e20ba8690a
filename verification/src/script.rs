//! What an operation does, as a tree of questions and answers.
//!
//! A [`Script`] says what is asked first and, for every possible answer, how it goes on. The
//! scripts of the scheduler's operations are the meaning of the machines in this crate: a
//! machine is always at some point of its script.
use vstd::prelude::*;

use crate::error::SchedulerServiceError;
#[allow(unused_imports)]
use crate::clock::{times_of, Reading};
#[allow(unused_imports)]
use crate::model::{ClusterNode, JobId, TrainingJobStatus};
use crate::protocol::{Reply, Request};
use crate::time::Timestamp;

verus! {

/// The course of an operation.
pub enum Script {
    /// Makes the request and goes on with the reply.
    Ask(Request, spec_fn(Reply) -> Script),
    /// Reads the clock to look at the node, and goes on with the time that it shows.
    Clock(ClusterNode, spec_fn(Timestamp) -> Script),
    /// Ends with the result.
    Done(Result<(), SchedulerServiceError>),
}

/// The operation that does nothing.
pub open spec fn finished() -> Script {
    Script::Done(Ok(()))
}

/// First `s`. Where it fails, its failure is the end; else `next` follows.
pub open spec fn and_then(s: Script, next: Script) -> Script
    decreases s,
{
    match s {
        Script::Ask(request, k) => Script::Ask(request, |reply: Reply| and_then(k(reply), next)),
        Script::Clock(node, k) => Script::Clock(node, |now: Timestamp| and_then(k(now), next)),
        Script::Done(Ok(_)) => next,
        Script::Done(Err(error)) => Script::Done(Err(error)),
    }
}

/// First `s`, then `next`, whatever the result of `s` was.
pub open spec fn regardless(s: Script, next: Script) -> Script
    decreases s,
{
    match s {
        Script::Ask(request, k) => Script::Ask(request, |reply: Reply| regardless(k(reply), next)),
        Script::Clock(node, k) => Script::Clock(
            node,
            |now: Timestamp| regardless(k(now), next),
        ),
        Script::Done(_) => next,
    }
}

/// `body` for each of the items in turn, up to the first failure.
pub open spec fn for_each<T>(items: Seq<T>, body: spec_fn(T) -> Script) -> Script
    decreases items.len(),
{
    if items.len() == 0 {
        finished()
    } else {
        and_then(body(items[0]), for_each(items.drop_first(), body))
    }
}

/// Where `s` stands once the clock was read as in `readings`, or as often as `s` reads it
/// before it asks or ends.
pub open spec fn with_clock(s: Script, readings: Seq<Timestamp>) -> Script
    decreases readings.len(),
{
    match s {
        Script::Clock(_, k) if readings.len() > 0 => with_clock(
            k(readings[0]),
            readings.drop_first(),
        ),
        _ => s,
    }
}

/// All of the readings are such as a clock gives.
pub open spec fn all_readable(readings: Seq<Timestamp>) -> bool {
    forall|i: int| 0 <= i < readings.len() ==> (#[trigger] readings[i])@.readable()
}

/// The readings are those that `s` calls for, one after the other, and were made behind `reply`:
/// each for the very node that `s` looks at in its turn, and each such as a clock gives.
pub open spec fn taken(s: Script, reply: Reply, readings: Seq<Reading>) -> bool
    decreases readings.len(),
{
    readings.len() > 0 ==> {
        &&& s is Clock
        &&& readings[0].node() == s->Clock_0
        &&& readings[0].behind() == reply
        &&& readings[0].time()@.readable()
        &&& taken((s->Clock_1)(readings[0].time()), reply, readings.drop_first())
    }
}

/// `t` is the question or the end that `s` comes to with the readings of the clock that are made
/// behind `reply`. Where `s` does not read the clock before that, `t` is `s`.
pub open spec fn settles(s: Script, reply: Reply, t: Script) -> bool {
    &&& t !is Clock
    &&& exists|readings: Seq<Reading>| #[trigger]
        taken(s, reply, readings) && with_clock(s, times_of(readings)) == t
}

/// Whether the reply is one that `s` waits for.
pub open spec fn awaits(s: Script, reply: Reply) -> bool {
    s is Ask && reply.answers(s->Ask_0)
}

/// How `s` goes on with the reply to its question.
pub open spec fn told(s: Script, reply: Reply) -> Script
    recommends
        s is Ask,
{
    (s->Ask_1)(reply)
}

/// The result of an operation that ends with this reply to a change of a job.
pub open spec fn job_result(reply: Reply) -> Result<(), SchedulerServiceError> {
    match reply->JobWrite_0 {
        Ok(_) => Ok(()),
        Err(error) => Err(SchedulerServiceError::Job(error)),
    }
}

/// Makes a change to a job.
pub open spec fn change_job(request: Request) -> Script {
    Script::Ask(request, |reply: Reply| Script::Done(job_result(reply)))
}

/// Puts the job back into its queue.
pub open spec fn requeue(job_id: JobId) -> Script {
    change_job(Request::ResetJobStatus(job_id))
}

/// Cancels the job.
pub open spec fn cancel(job_id: JobId) -> Script {
    change_job(Request::UpdateStatus(job_id, TrainingJobStatus::Cancelled))
}

/// Reading the clock for two lists of readings is reading it for one after the other.
pub proof fn lemma_with_clock_add(s: Script, first: Seq<Timestamp>, second: Seq<Timestamp>)
    ensures
        with_clock(s, first + second) == with_clock(with_clock(s, first), second),
    decreases first.len(),
{
    if first.len() == 0 {
        assert(first + second =~= second);
    } else {
        match s {
            Script::Clock(_, k) => {
                assert((first + second).drop_first() =~= first.drop_first() + second);
                lemma_with_clock_add(k(first[0]), first.drop_first(), second);
            },
            _ => {},
        }
    }
}

/// What asks or has ended is not moved by the clock.
pub proof fn lemma_settles_at_once(s: Script, reply: Reply)
    requires
        s !is Clock,
    ensures
        settles(s, reply, s),
        forall|t: Script| settles(s, reply, t) ==> t == s,
{
    assert(taken(s, reply, Seq::empty()));
    assert(with_clock(s, times_of(Seq::empty())) == s);
}

/// One reading more: it is made where those before it have led.
pub proof fn lemma_taken_push(s: Script, reply: Reply, readings: Seq<Reading>, last: Reading)
    requires
        taken(s, reply, readings),
        with_clock(s, times_of(readings)) is Clock,
        last.node() == with_clock(s, times_of(readings))->Clock_0,
        last.behind() == reply,
        last.time()@.readable(),
    ensures
        taken(s, reply, readings.push(last)),
        with_clock(s, times_of(readings.push(last))) == (with_clock(
            s,
            times_of(readings),
        )->Clock_1)(last.time()),
    decreases readings.len(),
{
    let more = readings.push(last);
    if readings.len() == 0 {
        assert(more.drop_first() =~= Seq::empty());
        assert(times_of(readings) =~= Seq::empty());
        assert(times_of(more).drop_first() =~= Seq::empty());
        reveal_with_fuel(taken, 2);
        reveal_with_fuel(with_clock, 2);
    } else {
        let rest = readings.drop_first();
        assert(more.drop_first() =~= rest.push(last));
        assert(times_of(more).drop_first() =~= times_of(rest.push(last)));
        assert(times_of(readings).drop_first() =~= times_of(rest));
        lemma_taken_push((s->Clock_1)(readings[0].time()), reply, rest, last);
    }
}

/// Readings that the first part of a sequence calls for are called for by the sequence.
pub proof fn lemma_taken_regardless(
    s: Script,
    next: Script,
    reply: Reply,
    readings: Seq<Reading>,
)
    requires
        taken(s, reply, readings),
    ensures
        taken(regardless(s, next), reply, readings),
    decreases readings.len(),
{
    if readings.len() > 0 {
        let now = readings[0].time();
        assert((regardless(s, next)->Clock_1)(now) == regardless((s->Clock_1)(now), next));
        lemma_taken_regardless((s->Clock_1)(now), next, reply, readings.drop_first());
    }
}

/// The clock moves the first part of a sequence as it moves that part alone.
pub proof fn lemma_with_clock_regardless(s: Script, next: Script, readings: Seq<Timestamp>)
    requires
        next !is Clock,
    ensures
        with_clock(regardless(s, next), readings) == regardless(with_clock(s, readings), next),
    decreases readings.len(),
{
    match s {
        Script::Clock(_, k) => {
            if readings.len() > 0 {
                lemma_with_clock_regardless(k(readings[0]), next, readings.drop_first());
            }
        },
        _ => {},
    }
}

/// The items from position `i` on are item `i` and those behind it.
pub proof fn lemma_for_each_at<T>(items: Seq<T>, body: spec_fn(T) -> Script, i: int)
    requires
        0 <= i < items.len(),
    ensures
        for_each(items.skip(i), body) == and_then(
            body(items[i]),
            for_each(items.skip(i + 1), body),
        ),
{
    assert(items.skip(i).drop_first() =~= items.skip(i + 1));
}

} // verus!
