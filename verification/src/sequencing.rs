//! Laws of the worker over whole runs: what reaches the device, and in
//! which order.

use crate::presentation::{frame_tokens, toggled, Switches};
use crate::wire::framed;
use crate::worker::{
    command_of, data_token, lemma_tokens_differ, started_after, step, ActionModel, EventModel,
    Phase, WorkerModel,
};
use vstd::prelude::*;

verus! {

/// A run of the worker: its state after the events, and its actions, one for
/// each event.
pub open spec fn run(worker: WorkerModel, events: Seq<EventModel>) -> (
    WorkerModel,
    Seq<ActionModel>,
)
    decreases events.len(),
{
    if events.len() == 0 {
        (worker, Seq::empty())
    } else {
        let (before, actions) = run(worker, events.drop_last());
        let (after, action) = step(before, events.last());
        (after, actions.push(action))
    }
}

/// What the device sees of a sequence of actions: the lines that were
/// written, in the order of the actions.
pub open spec fn wire_log(actions: Seq<ActionModel>) -> Seq<Seq<char>>
    decreases actions.len(),
{
    if actions.len() == 0 {
        Seq::empty()
    } else {
        let earlier = wire_log(actions.drop_last());
        match actions.last() {
            ActionModel::Write(line) => earlier.push(line),
            _ => earlier,
        }
    }
}

/// The line that a token puts on the wire when it is accepted: its command,
/// framed; nothing for a token outside the vocabulary, and nothing for a data
/// query while acquisition is not started.
pub open spec fn wire_line(started: bool, token: Seq<char>) -> Option<Seq<char>> {
    match command_of(token) {
        Some(command) => if token == data_token() && !started {
            None
        } else {
            Some(framed(command))
        },
        None => None,
    }
}

/// Event `at` of the run is a token that the worker accepts while idle and
/// that puts `line` on the wire.
pub open spec fn transmits(
    worker: WorkerModel,
    events: Seq<EventModel>,
    at: int,
    line: Seq<char>,
) -> bool {
    let before = run(worker, events.take(at)).0;
    &&& 0 <= at < events.len()
    &&& before.phase == Phase::Idle
    &&& events[at] matches EventModel::Token(token)
    &&& wire_line(before.started, token) == Some(line)
}

/// How many lines the device has seen before event `at` of the run.
pub open spec fn sent_before(worker: WorkerModel, events: Seq<EventModel>, at: int) -> nat {
    wire_log(run(worker, events.take(at)).1).len()
}

/// A line is written exactly when an idle worker accepts a token that has
/// one, and it is that token's line.
pub proof fn lemma_write_answers_token(worker: WorkerModel, event: EventModel, line: Seq<char>)
    ensures
        step(worker, event).1 == ActionModel::Write(line) <==> {
            &&& worker.phase == Phase::Idle
            &&& event matches EventModel::Token(token)
            &&& wire_line(worker.started, token) == Some(line)
        },
{
}

/// A data query that an idle worker takes while acquisition is not started
/// changes nothing and causes nothing: no line is written and no payload is
/// delivered, however often it is repeated.
pub proof fn lemma_query_without_start(worker: WorkerModel)
    requires
        worker.phase == Phase::Idle,
        !worker.started,
    ensures
        step(worker, EventModel::Token(data_token())) == (worker, ActionModel::Refused),
        wire_line(worker.started, data_token()) is None,
{
    lemma_tokens_differ();
}

/// The worker answers every event with one action.
pub proof fn lemma_run_len(worker: WorkerModel, events: Seq<EventModel>)
    ensures
        run(worker, events).1.len() == events.len(),
    decreases events.len(),
{
    if events.len() > 0 {
        lemma_run_len(worker, events.drop_last());
    }
}

/// Later events do not change what the worker did on earlier ones: the
/// actions of a prefix of the events are a prefix of the actions.
pub proof fn lemma_run_prefix(worker: WorkerModel, events: Seq<EventModel>, at: int)
    requires
        0 <= at <= events.len(),
    ensures
        run(worker, events.take(at)).1 == run(worker, events).1.take(at),
        at < events.len() ==> run(worker, events).1[at] == step(
            run(worker, events.take(at)).0,
            events[at],
        ).1,
    decreases events.len(),
{
    lemma_run_len(worker, events);
    if at == events.len() {
        assert(events.take(at) =~= events);
        assert(run(worker, events).1.take(at) =~= run(worker, events).1);
    } else {
        let shorter = events.drop_last();
        lemma_run_len(worker, shorter);
        assert(shorter.take(at) =~= events.take(at));
        lemma_run_prefix(worker, shorter, at);
        assert(run(worker, events).1.take(at) =~= run(worker, shorter).1.take(at));
        if at == shorter.len() {
            assert(shorter.take(at) =~= shorter);
        }
    }
}

/// What the device has seen after some of the actions stays as it is under
/// the actions that follow: the log only grows at its end.
pub proof fn lemma_wire_log_prefix(actions: Seq<ActionModel>, at: int)
    requires
        0 <= at <= actions.len(),
    ensures
        wire_log(actions.take(at)).len() <= wire_log(actions).len(),
        wire_log(actions).take(wire_log(actions.take(at)).len() as int) == wire_log(
            actions.take(at),
        ),
    decreases actions.len(),
{
    if at == actions.len() {
        assert(actions.take(at) =~= actions);
        assert(wire_log(actions).take(wire_log(actions).len() as int) =~= wire_log(actions));
    } else {
        let shorter = actions.drop_last();
        assert(shorter.take(at) =~= actions.take(at));
        lemma_wire_log_prefix(shorter, at);
        let n = wire_log(actions.take(at)).len() as int;
        assert(wire_log(actions).take(n) =~= wire_log(shorter).take(n));
    }
}

/// The device sees the lines in the order in which their tokens arrived, and
/// each line by itself.
///
/// Where an earlier and a later event of a run each put a line on the wire,
/// the earlier line has its own place in what the device sees, the later line
/// has its own place too, and the earlier line's place comes first. Each line
/// is the one that belongs to its token.
pub proof fn lemma_wire_order(
    worker: WorkerModel,
    events: Seq<EventModel>,
    earlier: int,
    later: int,
    first: Seq<char>,
    second: Seq<char>,
)
    requires
        earlier < later,
        transmits(worker, events, earlier, first),
        transmits(worker, events, later, second),
    ensures
        sent_before(worker, events, earlier) < sent_before(worker, events, later) < wire_log(
            run(worker, events).1,
        ).len(),
        wire_log(run(worker, events).1)[sent_before(worker, events, earlier) as int] == first,
        wire_log(run(worker, events).1)[sent_before(worker, events, later) as int] == second,
{
    lemma_transmitted(worker, events, earlier, first);
    lemma_transmitted(worker, events, later, second);
    let actions = run(worker, events).1;
    lemma_run_len(worker, events);
    lemma_run_prefix(worker, events, earlier + 1);
    lemma_run_prefix(worker, events, later);
    assert(actions.take(later).take(earlier + 1) =~= actions.take(earlier + 1));
    lemma_wire_log_prefix(actions.take(later), earlier + 1);
}

/// A line that an event puts on the wire stands in what the device sees,
/// right behind the lines of the events before it.
pub proof fn lemma_transmitted(
    worker: WorkerModel,
    events: Seq<EventModel>,
    at: int,
    line: Seq<char>,
)
    requires
        transmits(worker, events, at, line),
    ensures
        sent_before(worker, events, at + 1) == sent_before(worker, events, at) + 1,
        sent_before(worker, events, at) < wire_log(run(worker, events).1).len(),
        wire_log(run(worker, events).1)[sent_before(worker, events, at) as int] == line,
{
    let actions = run(worker, events).1;
    lemma_run_len(worker, events);
    lemma_run_prefix(worker, events, at);
    lemma_run_prefix(worker, events, at + 1);
    lemma_write_answers_token(run(worker, events.take(at)).0, events[at], line);
    let upto = actions.take(at + 1);
    assert(upto.drop_last() =~= actions.take(at));
    assert(upto.last() == actions[at]);
    assert(wire_log(upto) == wire_log(actions.take(at)).push(line));
    lemma_wire_log_prefix(actions, at + 1);
    let n = wire_log(upto).len() as int;
    assert(wire_log(actions).take(n)[n - 1] == wire_log(upto)[n - 1]);
}

/// An event that puts no line on the wire leaves what the device sees as it
/// is: nothing is written for an unknown token, for a refused query, or for
/// anything that is no token.
pub proof fn lemma_silent(worker: WorkerModel, events: Seq<EventModel>, at: int)
    requires
        0 <= at < events.len(),
        forall|line: Seq<char>| !transmits(worker, events, at, line),
    ensures
        sent_before(worker, events, at + 1) == sent_before(worker, events, at),
{
    let actions = run(worker, events).1;
    lemma_run_len(worker, events);
    lemma_run_prefix(worker, events, at);
    lemma_run_prefix(worker, events, at + 1);
    let upto = actions.take(at + 1);
    assert(upto.drop_last() =~= actions.take(at));
    assert(upto.last() == actions[at]);
    match actions[at] {
        ActionModel::Write(line) => {
            lemma_write_answers_token(run(worker, events.take(at)).0, events[at], line);
            assert(transmits(worker, events, at, line));
        },
        _ => {},
    }
}

/// The phase of the worker before event `at` of the run.
pub open spec fn phase_before(worker: WorkerModel, events: Seq<EventModel>, at: int) -> Phase {
    run(worker, events.take(at)).0.phase
}

/// The worker is dispatching all the way from after event `from` until after
/// event `to`: it takes no other token in between.
pub open spec fn busy_between(
    worker: WorkerModel,
    events: Seq<EventModel>,
    from: int,
    to: int,
) -> bool {
    forall|m: int| from < m <= to + 1 ==> #[trigger] phase_before(worker, events, m) != Phase::Idle
}

/// Event `delivery` of the run delivers the reply to the data query that is
/// event `query`: the query was accepted and put on the wire, the worker has
/// been dispatching it ever since, and now the payload goes out.
pub open spec fn answers(
    worker: WorkerModel,
    events: Seq<EventModel>,
    query: int,
    delivery: int,
) -> bool {
    &&& 0 <= query < delivery < events.len()
    &&& events[query] == EventModel::Token(data_token())
    &&& phase_before(worker, events, query) == Phase::Idle
    &&& exists|line: Seq<char>| transmits(worker, events, query, line)
    &&& busy_between(worker, events, query, delivery - 1)
    &&& run(worker, events).1[delivery] is Deliver
}

/// One more event extends a run by one step.
pub proof fn lemma_run_step(worker: WorkerModel, events: Seq<EventModel>, at: int)
    requires
        0 <= at < events.len(),
    ensures
        run(worker, events.take(at + 1)) == (
            step(run(worker, events.take(at)).0, events[at]).0,
            run(worker, events.take(at)).1.push(step(run(worker, events.take(at)).0, events[at]).1),
        ),
{
    let upto = events.take(at + 1);
    assert(upto.drop_last() =~= events.take(at));
    assert(upto.last() == events[at]);
}

/// A worker that is dispatching is dispatching a token: the last one that it
/// accepted, which put its line on the wire and after which it has not been
/// idle. If it is about to read, or will read once the line is written, that
/// token is a data query.
pub proof fn lemma_dispatching_a_token(
    worker: WorkerModel,
    events: Seq<EventModel>,
    at: int,
) -> (token: int)
    requires
        worker.phase == Phase::Idle,
        0 <= at <= events.len(),
        phase_before(worker, events, at) != Phase::Idle,
    ensures
        0 <= token < at,
        phase_before(worker, events, token) == Phase::Idle,
        exists|line: Seq<char>| transmits(worker, events, token, line),
        busy_between(worker, events, token, at - 1),
        phase_before(worker, events, at) == Phase::Reading ==> events[token] == EventModel::Token(
            data_token(),
        ),
        phase_before(worker, events, at) == (Phase::Writing { expects_reply: true })
            ==> events[token] == EventModel::Token(data_token()),
    decreases at,
{
    if at == 0 {
        assert(events.take(0) =~= Seq::<EventModel>::empty());
        assert(false);
        0
    } else {
        let before = run(worker, events.take(at - 1)).0;
        let event = events[at - 1];
        lemma_run_step(worker, events, at - 1);
        if before.phase == Phase::Idle {
            let token: int = at - 1;
            match step(before, event).1 {
                ActionModel::Write(line) => {
                    lemma_write_answers_token(before, event, line);
                    assert(transmits(worker, events, token, line));
                },
                _ => {
                    assert(false);
                },
            }
            assert(busy_between(worker, events, token, at - 1));
            token
        } else {
            let token = lemma_dispatching_a_token(worker, events, at - 1);
            assert(busy_between(worker, events, token, at - 1)) by {
                assert forall|m: int| token < m <= at implies #[trigger] phase_before(
                    worker,
                    events,
                    m,
                ) != Phase::Idle by {
                    if m < at {
                        assert(busy_between(worker, events, token, at - 2));
                    }
                }
            }
            token
        }
    }
}

/// Every payload answers a data query, and only that one: the event that
/// delivers it follows an accepted data query, with no other token taken in
/// between.
pub proof fn lemma_delivery_answers_query(
    worker: WorkerModel,
    events: Seq<EventModel>,
    delivery: int,
) -> (query: int)
    requires
        worker.phase == Phase::Idle,
        0 <= delivery < events.len(),
        run(worker, events).1[delivery] is Deliver,
    ensures
        answers(worker, events, query, delivery),
{
    lemma_run_prefix(worker, events, delivery);
    assert(phase_before(worker, events, delivery) == Phase::Reading);
    lemma_dispatching_a_token(worker, events, delivery)
}

/// Payloads go out in the order of their queries, one for each: of two
/// deliveries, the later one answers a query that was taken after the
/// earlier delivery.
pub proof fn lemma_replies_in_order(
    worker: WorkerModel,
    events: Seq<EventModel>,
    first_query: int,
    first_delivery: int,
    second_query: int,
    second_delivery: int,
)
    requires
        answers(worker, events, first_query, first_delivery),
        answers(worker, events, second_query, second_delivery),
        first_delivery < second_delivery,
    ensures
        first_query < first_delivery < second_query < second_delivery,
{
    lemma_run_prefix(worker, events, first_delivery);
    lemma_run_step(worker, events, first_delivery);
    assert(phase_before(worker, events, first_delivery + 1) == Phase::Idle);
    if second_query <= first_delivery {
        if second_query == first_delivery {
            lemma_run_prefix(worker, events, second_query);
            assert(false);
        } else {
            assert(busy_between(worker, events, second_query, second_delivery - 1));
            assert(phase_before(worker, events, first_delivery + 1) != Phase::Idle);
        }
    }
}

/// Whether acquisition counts as started once the worker has accepted all
/// of `tokens`, in order.
pub open spec fn started_after_all(started: bool, tokens: Seq<Seq<char>>) -> bool
    decreases tokens.len(),
{
    if tokens.len() == 0 {
        started
    } else {
        started_after(started_after_all(started, tokens.drop_last()), tokens.last())
    }
}

/// The session follows the oscilloscope switch.
///
/// If the session counts acquisition as started exactly when the
/// oscilloscope switch is on, then it does so again after the tokens of a
/// frame. A frame holds at most one data query, as its last token, and by
/// the time the query comes acquisition counts as started: the query is not
/// refused, and the payload that the render loop then waits for is on its
/// way.
pub proof fn lemma_session_follows_switch(
    switches: Switches,
    oscillo: Option<bool>,
    generator: Option<bool>,
)
    ensures
        started_after_all(switches.oscillo, frame_tokens(switches, oscillo, generator)) == toggled(
            switches,
            oscillo,
            generator,
        ).oscillo,
        forall|i: int|
            0 <= i < frame_tokens(switches, oscillo, generator).len() && #[trigger] frame_tokens(
                switches,
                oscillo,
                generator,
            )[i] == data_token() ==> {
                &&& i == frame_tokens(switches, oscillo, generator).len() - 1
                &&& wire_line(
                    started_after_all(
                        switches.oscillo,
                        frame_tokens(switches, oscillo, generator).take(i),
                    ),
                    data_token(),
                ) is Some
            },
{
    lemma_tokens_differ();
    let tokens = frame_tokens(switches, oscillo, generator);
    let after = toggled(switches, oscillo, generator).oscillo;
    assert(tokens.len() <= 3);
    lemma_started_after_prefixes(switches.oscillo, tokens, 0);
    if tokens.len() >= 1 {
        lemma_started_after_prefixes(switches.oscillo, tokens, 1);
    }
    if tokens.len() >= 2 {
        lemma_started_after_prefixes(switches.oscillo, tokens, 2);
    }
    if tokens.len() >= 3 {
        lemma_started_after_prefixes(switches.oscillo, tokens, 3);
    }
    assert forall|n: int| 0 <= n <= tokens.len() implies started_after_all(
        switches.oscillo,
        #[trigger] tokens.take(n),
    ) == (if n >= 1 && oscillo is Some {
        after
    } else {
        switches.oscillo
    }) by {
        assert(n == 0 || n == 1 || n == 2 || n == 3);
    }
    assert(tokens.take(tokens.len() as int) =~= tokens);
}

/// Unfolds `started_after_all` on a prefix.
proof fn lemma_started_after_prefixes(started: bool, tokens: Seq<Seq<char>>, n: int)
    requires
        0 <= n <= tokens.len(),
    ensures
        n > 0 ==> started_after_all(started, tokens.take(n)) == started_after(
            started_after_all(started, tokens.take(n - 1)),
            tokens[n - 1],
        ),
        n == 0 ==> started_after_all(started, tokens.take(n)) == started,
{
    if n > 0 {
        assert(tokens.take(n).drop_last() =~= tokens.take(n - 1));
    }
}

} // verus!
