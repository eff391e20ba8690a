//! What happened while a script was run.
use vstd::prelude::*;

use crate::error::SchedulerServiceError;
use crate::protocol::{Reply, Request};
#[allow(unused_imports)]
use crate::script::{and_then, for_each, regardless, told, Script};
use crate::time::Timestamp;

verus! {

/// Something that happens while a script is run.
pub enum Event {
    /// A request was made and replied to.
    Exchange(Request, Reply),
    /// The clock was read.
    Reading(Timestamp),
}

/// Whether the event can happen next in `s`.
pub open spec fn fits(s: Script, event: Event) -> bool {
    match event {
        Event::Exchange(request, reply) => {
            &&& s is Ask
            &&& s->Ask_0 == request
            &&& reply.answers(request)
        },
        Event::Reading(_) => s is Clock,
    }
}

/// What is left of `s` behind the event.
pub open spec fn behind(s: Script, event: Event) -> Script {
    match event {
        Event::Exchange(_, reply) => told(s, reply),
        Event::Reading(now) => (s->Clock_1)(now),
    }
}

/// Whether the events can happen in this order from the start of `s`.
pub open spec fn legal(s: Script, log: Seq<Event>) -> bool
    decreases log.len(),
{
    log.len() > 0 ==> fits(s, log[0]) && legal(behind(s, log[0]), log.drop_first())
}

/// What is left of `s` behind the events.
pub open spec fn after(s: Script, log: Seq<Event>) -> Script
    decreases log.len(),
{
    if log.len() == 0 {
        s
    } else {
        after(behind(s, log[0]), log.drop_first())
    }
}

/// Whether the events are a whole run of `s`.
pub open spec fn complete(s: Script, log: Seq<Event>) -> bool {
    legal(s, log) && after(s, log) is Done
}

/// The result of the run.
pub open spec fn outcome(s: Script, log: Seq<Event>) -> Result<(), SchedulerServiceError>
    recommends
        complete(s, log),
{
    after(s, log)->Done_0
}

/// The requests that were made, in order.
pub open spec fn requests(log: Seq<Event>) -> Seq<Request>
    decreases log.len(),
{
    if log.len() == 0 {
        Seq::empty()
    } else {
        match log[0] {
            Event::Exchange(request, _) => seq![request] + requests(log.drop_first()),
            Event::Reading(_) => requests(log.drop_first()),
        }
    }
}

/// The readings of the clock, in order.
pub open spec fn readings(log: Seq<Event>) -> Seq<Timestamp>
    decreases log.len(),
{
    if log.len() == 0 {
        Seq::empty()
    } else {
        match log[0] {
            Event::Exchange(_, _) => readings(log.drop_first()),
            Event::Reading(now) => seq![now] + readings(log.drop_first()),
        }
    }
}

/// What a script does first.
pub enum Next {
    Ask(Request),
    Clock,
    Done(Result<(), SchedulerServiceError>),
}

/// What `s` does first.
pub open spec fn head(s: Script) -> Next {
    match s {
        Script::Ask(request, _) => Next::Ask(request),
        Script::Clock(_, _) => Next::Clock,
        Script::Done(result) => Next::Done(result),
    }
}

/// `rule` holds of every event that can come up in `s` and what is done right behind it.
pub open spec fn every_event(s: Script, rule: spec_fn(Event, Next) -> bool) -> bool
    decreases s,
{
    match s {
        Script::Ask(request, k) => forall|reply: Reply| #[trigger]
            reply.answers(request) ==> rule(Event::Exchange(request, reply), head(k(reply)))
                && every_event(k(reply), rule),
        Script::Clock(_, k) => forall|now: Timestamp|
            rule(Event::Reading(now), head(k(now))) && every_event(#[trigger] k(now), rule),
        Script::Done(_) => true,
    }
}

/// A log in two pieces is a log of the first piece and, behind it, of the second.
pub proof fn lemma_after_add(s: Script, first: Seq<Event>, second: Seq<Event>)
    ensures
        after(s, first + second) == after(after(s, first), second),
        legal(s, first + second) <==> legal(s, first) && legal(after(s, first), second),
    decreases first.len(),
{
    if first.len() == 0 {
        assert(first + second =~= second);
    } else {
        assert((first + second).drop_first() =~= first.drop_first() + second);
        lemma_after_add(behind(s, first[0]), first.drop_first(), second);
    }
}

/// The requests and readings of a log in two pieces are those of the pieces, in order.
pub proof fn lemma_requests_add(first: Seq<Event>, second: Seq<Event>)
    ensures
        requests(first + second) == requests(first) + requests(second),
        readings(first + second) == readings(first) + readings(second),
    decreases first.len(),
{
    if first.len() == 0 {
        assert(first + second =~= second);
        assert(requests(first + second) =~= requests(first) + requests(second));
        assert(readings(first + second) =~= readings(first) + readings(second));
    } else {
        assert((first + second).drop_first() =~= first.drop_first() + second);
        lemma_requests_add(first.drop_first(), second);
        assert(requests(first + second) =~= requests(first) + requests(second));
        assert(readings(first + second) =~= readings(first) + readings(second));
    }
}

/// Every event fits what was left of the script when it happened.
pub proof fn lemma_fits_at(s: Script, log: Seq<Event>, i: int)
    requires
        legal(s, log),
        0 <= i < log.len(),
    ensures
        legal(s, log.take(i)),
        fits(after(s, log.take(i)), log[i]),
        after(s, log.take(i + 1)) == behind(after(s, log.take(i)), log[i]),
{
    assert(log =~= log.take(i) + log.skip(i));
    lemma_after_add(s, log.take(i), log.skip(i));
    assert(log.take(i + 1) =~= log.take(i) + seq![log[i]]);
    lemma_after_add(s, log.take(i), seq![log[i]]);
    assert(seq![log[i]].drop_first() =~= Seq::empty());
    reveal_with_fuel(after, 2);
}

/// A rule for every event of a script holds of every event of its logs.
pub proof fn lemma_rule_at(
    s: Script,
    rule: spec_fn(Event, Next) -> bool,
    log: Seq<Event>,
    i: int,
)
    requires
        legal(s, log),
        every_event(s, rule),
        0 <= i < log.len(),
    ensures
        rule(log[i], head(after(s, log.take(i + 1)))),
    decreases log.len(),
{
    let first = log[0];
    let rest = log.drop_first();
    assert(rule(first, head(behind(s, first))) && every_event(behind(s, first), rule)) by {
        match first {
            Event::Exchange(request, reply) => {
                assert(reply.answers(request));
            },
            Event::Reading(now) => {
                assert(every_event((s->Clock_1)(now), rule));
            },
        }
    }
    assert(log.take(i + 1).drop_first() =~= rest.take(i));
    if i == 0 {
        assert(rest.take(0) =~= Seq::empty());
        reveal_with_fuel(after, 2);
    } else {
        lemma_rule_at(behind(s, first), rule, rest, i - 1);
    }
}

/// What a rule implies holds wherever the rule does.
pub proof fn lemma_every_weakened(
    s: Script,
    rule: spec_fn(Event, Next) -> bool,
    weaker: spec_fn(Event, Next) -> bool,
)
    requires
        every_event(s, rule),
        forall|event: Event, next: Next| #[trigger] rule(event, next) ==> weaker(event, next),
    ensures
        every_event(s, weaker),
    decreases s,
{
    match s {
        Script::Ask(request, k) => {
            assert forall|reply: Reply| #[trigger] reply.answers(request) implies weaker(
                Event::Exchange(request, reply),
                head(k(reply)),
            ) && every_event(k(reply), weaker) by {
                assert(rule(Event::Exchange(request, reply), head(k(reply))));
                lemma_every_weakened(k(reply), rule, weaker);
            }
        },
        Script::Clock(_, k) => {
            assert forall|now: Timestamp|
                weaker(Event::Reading(now), head(k(now))) && every_event(
                    #[trigger] k(now),
                    weaker,
                ) by {
                assert(rule(Event::Reading(now), head(k(now))) && every_event(k(now), rule));
                lemma_every_weakened(k(now), rule, weaker);
            }
        },
        Script::Done(_) => {},
    }
}

/// A rule holds in a sequence if it holds in both parts and what it allows to end the first
/// part it also allows to go on with the second.
pub proof fn lemma_every_and_then(s: Script, next: Script, rule: spec_fn(Event, Next) -> bool)
    requires
        every_event(s, rule),
        every_event(next, rule),
        forall|event: Event| #[trigger]
            rule(event, Next::Done(Ok(()))) ==> rule(event, head(next)),
    ensures
        every_event(and_then(s, next), rule),
    decreases s,
{
    match s {
        Script::Ask(request, k) => {
            let joined = and_then(s, next)->Ask_1;
            assert forall|reply: Reply| #[trigger] reply.answers(request) implies rule(
                Event::Exchange(request, reply),
                head(joined(reply)),
            ) && every_event(joined(reply), rule) by {
                let event = Event::Exchange(request, reply);
                assert(joined(reply) == and_then(k(reply), next));
                assert(rule(event, head(k(reply))));
                if k(reply) is Done && k(reply)->Done_0 is Ok {
                    assert(k(reply)->Done_0->Ok_0 == ());
                    assert(rule(event, Next::Done(Ok(()))));
                }
                lemma_every_and_then(k(reply), next, rule);
            }
        },
        Script::Clock(_, k) => {
            let joined = and_then(s, next)->Clock_1;
            assert forall|now: Timestamp|
                rule(Event::Reading(now), head(joined(now))) && every_event(
                    #[trigger] joined(now),
                    rule,
                ) by {
                let event = Event::Reading(now);
                assert(joined(now) == and_then(k(now), next));
                assert(rule(event, head(k(now))) && every_event(k(now), rule));
                if k(now) is Done && k(now)->Done_0 is Ok {
                    assert(k(now)->Done_0->Ok_0 == ());
                    assert(rule(event, Next::Done(Ok(()))));
                }
                lemma_every_and_then(k(now), next, rule);
            }
        },
        Script::Done(_) => {},
    }
}

/// The same of a sequence that goes on whatever the result of the first part was.
pub proof fn lemma_every_regardless(s: Script, next: Script, rule: spec_fn(Event, Next) -> bool)
    requires
        every_event(s, rule),
        every_event(next, rule),
        forall|event: Event, result: Result<(), SchedulerServiceError>| #[trigger]
            rule(event, Next::Done(result)) ==> rule(event, head(next)),
    ensures
        every_event(regardless(s, next), rule),
    decreases s,
{
    match s {
        Script::Ask(request, k) => {
            let joined = regardless(s, next)->Ask_1;
            assert forall|reply: Reply| #[trigger] reply.answers(request) implies rule(
                Event::Exchange(request, reply),
                head(joined(reply)),
            ) && every_event(joined(reply), rule) by {
                assert(joined(reply) == regardless(k(reply), next));
                assert(rule(Event::Exchange(request, reply), head(k(reply))));
                lemma_every_regardless(k(reply), next, rule);
            }
        },
        Script::Clock(_, k) => {
            let joined = regardless(s, next)->Clock_1;
            assert forall|now: Timestamp|
                rule(Event::Reading(now), head(joined(now))) && every_event(
                    #[trigger] joined(now),
                    rule,
                ) by {
                assert(joined(now) == regardless(k(now), next));
                assert(rule(Event::Reading(now), head(k(now))) && every_event(k(now), rule));
                lemma_every_regardless(k(now), next, rule);
            }
        },
        Script::Done(_) => {},
    }
}

/// The same of a list of items.
pub proof fn lemma_every_for_each<T>(
    items: Seq<T>,
    body: spec_fn(T) -> Script,
    rule: spec_fn(Event, Next) -> bool,
)
    requires
        forall|item: T| every_event(#[trigger] body(item), rule),
        forall|item: T, event: Event|
            rule(event, Next::Done(Ok(()))) ==> #[trigger] rule(event, head(body(item))),
    ensures
        every_event(for_each(items, body), rule),
        forall|event: Event| #[trigger]
            rule(event, Next::Done(Ok(()))) ==> rule(event, head(for_each(items, body))),
    decreases items.len(),
{
    if items.len() > 0 {
        let rest = for_each(items.drop_first(), body);
        lemma_every_for_each(items.drop_first(), body, rule);
        assert(every_event(body(items[0]), rule));
        lemma_every_and_then(body(items[0]), rest, rule);
        assert forall|event: Event| #[trigger] rule(event, Next::Done(Ok(()))) implies rule(
            event,
            head(for_each(items, body)),
        ) by {
            assert(rule(event, head(body(items[0]))));
        }
    }
}

/// A log of a sequence is a log of the first part up to some point and, where that part has
/// succeeded there, a log of the second part behind it.
pub proof fn lemma_and_then_splits(s: Script, next: Script, log: Seq<Event>) -> (cut: int)
    requires
        legal(and_then(s, next), log),
    ensures
        0 <= cut <= log.len(),
        legal(s, log.take(cut)),
        if after(s, log.take(cut)) is Done && outcome(s, log.take(cut)) is Ok {
            &&& legal(next, log.skip(cut))
            &&& after(and_then(s, next), log) == after(next, log.skip(cut))
        } else {
            &&& cut == log.len()
            &&& after(and_then(s, next), log) == and_then(after(s, log), next)
        },
    decreases log.len(),
{
    assert(log.take(0) =~= Seq::empty());
    assert(log.skip(0) =~= log);
    if s is Done || log.len() == 0 {
        assert(log.len() == 0 ==> log.take(0) =~= log);
        0
    } else {
        let rest = log.drop_first();
        assert(behind(and_then(s, next), log[0]) == and_then(behind(s, log[0]), next));
        let cut = lemma_and_then_splits(behind(s, log[0]), next, rest);
        assert(log.take(cut + 1).drop_first() =~= rest.take(cut));
        assert(log.skip(cut + 1) =~= rest.skip(cut));
        cut + 1
    }
}

/// A log of two parts is a log of the first up to some point and, where that part has ended
/// there, a log of the second part behind it.
pub proof fn lemma_regardless_splits(s: Script, next: Script, log: Seq<Event>) -> (cut: int)
    requires
        legal(regardless(s, next), log),
    ensures
        0 <= cut <= log.len(),
        legal(s, log.take(cut)),
        legal(next, log.skip(cut)),
        if after(s, log.take(cut)) is Done {
            after(regardless(s, next), log) == after(next, log.skip(cut))
        } else {
            &&& cut == log.len()
            &&& after(regardless(s, next), log) == regardless(after(s, log), next)
        },
    decreases log.len(),
{
    assert(log.take(0) =~= Seq::empty());
    assert(log.skip(0) =~= log);
    if s is Done || log.len() == 0 {
        assert(log.len() == 0 ==> log.take(0) =~= log);
        0
    } else {
        let rest = log.drop_first();
        assert(behind(regardless(s, next), log[0]) == regardless(behind(s, log[0]), next));
        let cut = lemma_regardless_splits(behind(s, log[0]), next, rest);
        assert(log.take(cut + 1).drop_first() =~= rest.take(cut));
        assert(log.skip(cut + 1) =~= rest.skip(cut));
        cut + 1
    }
}

} // verus!
