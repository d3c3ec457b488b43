//! Runs of the routing engine: sequences of events, and what holds along
//! every one of them.

use crate::pipeline::{
    accepted, dispatched, first_idle, flushed, holds_id, installed, position_of, replied,
    reply_answer, timer_answer, timer_fired, to_send, PipelineView, Rejected,
};
use crate::request::{ErrorClass, Next, Outcome, RequestState, RequestView, SendOp};
use vstd::prelude::*;

verus! {

/// What can happen to the engine.
pub enum Event {
    /// A command arrives.
    Accept { cmd: Seq<u8>, offset: usize, count: usize, op: SendOp },
    /// The first waiting request is dispatched.
    Dispatch,
    /// Every waiting request is dispatched.
    Flush,
    /// The attempt of request `id` at endpoint `tried` ends.
    Reply { id: u64, tried: Seq<char>, outcome: Outcome },
    /// The timer of request `id` fires.
    Timer { id: u64 },
    /// A refreshed topology is installed.
    Install { slots: Map<u16, Seq<char>>, pool: Seq<Seq<char>> },
}

impl Event {
    /// Whether the event can occur: a pool that is installed holds no
    /// endpoint twice.
    pub open spec fn possible(self) -> bool {
        self matches Event::Install { slots, pool } ==> pool.no_duplicates()
    }
}

/// The pipeline after an event.
pub open spec fn step(s: PipelineView, event: Event) -> PipelineView {
    match event {
        Event::Accept { cmd, offset, count, op } => accepted(s, cmd, offset, count, op),
        Event::Dispatch => dispatched(s),
        Event::Flush => flushed(s),
        Event::Reply { id, tried, outcome } => replied(s, id, tried, outcome),
        Event::Timer { id } => timer_fired(s, id),
        Event::Install { slots, pool } => installed(s, slots, pool),
    }
}

/// Whether the event hands the result of request `id` to its caller.
pub open spec fn finishes(s: PipelineView, event: Event, id: u64) -> bool {
    event matches Event::Reply { id: answered, tried, outcome } && answered == id && reply_answer(
        s,
        answered,
        tried,
        outcome,
    ) == Ok::<Next, Rejected>(Next::Done)
}

/// How many requests the event sends out.
pub open spec fn sends(s: PipelineView, event: Event) -> nat {
    match event {
        Event::Dispatch => if !s.recovering && first_idle(s.in_flight, 0) < s.in_flight.len() {
            1
        } else {
            0
        },
        Event::Flush => to_send(s).len(),
        _ => 0,
    }
}

/// The pipeline after a series of events.
pub open spec fn run(s: PipelineView, events: Seq<Event>) -> PipelineView
    decreases events.len(),
{
    if events.len() == 0 {
        s
    } else {
        step(run(s, events.drop_last()), events.last())
    }
}

/// How often the series of events hands the result of request `id` to its
/// caller.
pub open spec fn times_finished(s: PipelineView, events: Seq<Event>, id: u64) -> nat
    decreases events.len(),
{
    if events.len() == 0 {
        0
    } else {
        let before = times_finished(s, events.drop_last(), id);
        if finishes(run(s, events.drop_last()), events.last(), id) {
            before + 1
        } else {
            before
        }
    }
}

/// How many requests the series of events sends out.
pub open spec fn total_sent(s: PipelineView, events: Seq<Event>) -> nat
    decreases events.len(),
{
    if events.len() == 0 {
        0
    } else {
        total_sent(s, events.drop_last()) + sends(run(s, events.drop_last()), events.last())
    }
}

/// One if the pipeline holds request `id`, zero otherwise.
pub open spec fn held(s: PipelineView, id: u64) -> nat {
    if holds_id(s.in_flight, id) {
        1
    } else {
        0
    }
}

/// One if the number `id` was given out between the two pipelines, zero
/// otherwise.
pub open spec fn given_out(from: PipelineView, to: PipelineView, id: u64) -> nat {
    if from.next_id <= id < to.next_id {
        1
    } else {
        0
    }
}

/// The search for a number finds the request that bears it, if the list
/// holds one.
pub proof fn lemma_position_of(list: Seq<RequestView>, id: u64, from: int)
    requires
        0 <= from <= list.len(),
    ensures
        from <= position_of(list, id, from) <= list.len(),
        position_of(list, id, from) < list.len() ==> list[position_of(list, id, from)].id == id,
        forall|i: int| from <= i < position_of(list, id, from) ==> list[i].id != id,
    decreases list.len() - from,
{
    if from < list.len() && list[from].id != id {
        lemma_position_of(list, id, from + 1);
    }
}

/// Changing a request without changing its number leaves the numbers that
/// the list holds as they were.
proof fn lemma_update_keeps_ids(list: Seq<RequestView>, at: int, r: RequestView, id: u64)
    requires
        0 <= at < list.len(),
        r.id == list[at].id,
    ensures
        holds_id(list.update(at, r), id) == holds_id(list, id),
{
    let changed = list.update(at, r);
    if holds_id(list, id) {
        let i = choose|i: int| 0 <= i < list.len() && #[trigger] list[i].id == id;
        assert(changed[i].id == id);
    }
}

/// An event keeps the pipeline well formed.
pub proof fn lemma_step_well_formed(s: PipelineView, event: Event)
    requires
        s.well_formed(),
        event.possible(),
    ensures
        step(s, event).well_formed(),
        s.next_id <= step(s, event).next_id,
{
    let t = step(s, event);
    match event {
        Event::Accept { cmd, offset, count, op } => {
            if s.next_id < u64::MAX {
                assert forall|i: int| 0 <= i < t.in_flight.len() implies (
                #[trigger] t.in_flight[i]).id < t.next_id by {}
                assert forall|i: int, j: int| 0 <= i < j < t.in_flight.len() implies t.in_flight[i].id
                    != t.in_flight[j].id by {}
            }
        },
        Event::Dispatch => {
            lemma_first_idle(s.in_flight, 0);
        },
        Event::Flush => {},
        Event::Reply { id, tried, outcome } => {
            lemma_position_of(s.in_flight, id, 0);
        },
        Event::Timer { id } => {
            lemma_position_of(s.in_flight, id, 0);
        },
        Event::Install { slots, pool } => {},
    }
}

/// A series of events keeps the pipeline well formed, and never takes a
/// number back.
pub proof fn lemma_run_well_formed(s: PipelineView, events: Seq<Event>)
    requires
        s.well_formed(),
        forall|k: int| 0 <= k < events.len() ==> (#[trigger] events[k]).possible(),
    ensures
        run(s, events).well_formed(),
        s.next_id <= run(s, events).next_id,
    decreases events.len(),
{
    if events.len() > 0 {
        let init = events.drop_last();
        assert forall|k: int| 0 <= k < init.len() implies (#[trigger] init[k]).possible() by {}
        lemma_run_well_formed(s, init);
        lemma_step_well_formed(run(s, init), events.last());
    }
}

/// What one event does to one request number: the request is held
/// afterwards exactly if it was held before or was accepted by the event,
/// and was not finished by it.
pub proof fn lemma_step_accounts(s: PipelineView, event: Event, id: u64)
    requires
        s.well_formed(),
        event.possible(),
    ensures
        held(step(s, event), id) + (if finishes(s, event, id) {
            1nat
        } else {
            0nat
        }) == held(s, id) + given_out(s, step(s, event), id),
{
    let t = step(s, event);
    match event {
        Event::Accept { cmd, offset, count, op } => {
            if s.next_id < u64::MAX {
                let fresh = t.in_flight[s.in_flight.len() as int];
                if holds_id(s.in_flight, id) {
                    let i = choose|i: int| 0 <= i < s.in_flight.len() && #[trigger] s.in_flight[i].id == id;
                    assert(t.in_flight[i].id == id);
                }
                if id == s.next_id {
                    assert(fresh.id == id);
                }
            }
        },
        Event::Dispatch => {
            let at = first_idle(s.in_flight, 0);
            if !s.recovering && at < s.in_flight.len() {
                lemma_first_idle(s.in_flight, 0);
                lemma_update_keeps_ids(s.in_flight, at, t.in_flight[at], id);
            }
        },
        Event::Flush => {
            if holds_id(s.in_flight, id) {
                let i = choose|i: int| 0 <= i < s.in_flight.len() && #[trigger] s.in_flight[i].id == id;
                assert(t.in_flight[i].id == id);
            }
        },
        Event::Reply { id: answered, tried, outcome } => {
            lemma_position_of(s.in_flight, answered, 0);
            let at = position_of(s.in_flight, answered, 0);
            if reply_answer(s, answered, tried, outcome) is Ok {
                if reply_answer(s, answered, tried, outcome) == Ok::<Next, Rejected>(
                    Next::Done,
                ) {
                    if id != answered && holds_id(s.in_flight, id) {
                        let i = choose|i: int|
                            0 <= i < s.in_flight.len() && #[trigger] s.in_flight[i].id == id;
                        let i2 = if i < at { i } else { i - 1 };
                        assert(t.in_flight[i2] == s.in_flight[i]);
                    }
                } else {
                    lemma_update_keeps_ids(s.in_flight, at, t.in_flight[at], id);
                }
            }
        },
        Event::Timer { id: fired } => {
            lemma_position_of(s.in_flight, fired, 0);
            let at = position_of(s.in_flight, fired, 0);
            if timer_answer(s, fired) is Ok {
                lemma_update_keeps_ids(s.in_flight, at, t.in_flight[at], id);
            }
        },
        Event::Install { slots, pool } => {},
    }
}

/// The search for a waiting request stays within the list.
pub proof fn lemma_first_idle(list: Seq<RequestView>, from: int)
    requires
        0 <= from <= list.len(),
    ensures
        from <= first_idle(list, from) <= list.len(),
        first_idle(list, from) < list.len() ==> list[first_idle(list, from)].state
            == RequestState::Idle,
    decreases list.len() - from,
{
    if from < list.len() && list[from].state != RequestState::Idle {
        lemma_first_idle(list, from + 1);
    }
}

/// Every accepted request hands exactly one result to its caller, and does
/// so when it leaves the pipeline. Along any series of events, a request
/// number that was held at the start or given out on the way is, at the
/// end, either still held or was finished exactly once; no other number
/// is ever finished.
pub proof fn lemma_one_result_per_request(s: PipelineView, events: Seq<Event>, id: u64)
    requires
        s.well_formed(),
        forall|k: int| 0 <= k < events.len() ==> (#[trigger] events[k]).possible(),
    ensures
        held(run(s, events), id) + times_finished(s, events, id) == held(s, id) + given_out(
            s,
            run(s, events),
            id,
        ),
        times_finished(s, events, id) <= 1,
    decreases events.len(),
{
    if events.len() > 0 {
        let init = events.drop_last();
        lemma_one_result_per_request(s, init, id);
        lemma_run_well_formed(s, init);
        let mid = run(s, init);
        lemma_step_accounts(mid, events.last(), id);
        lemma_step_well_formed(mid, events.last());
    }
}

/// A redirection puts the pipeline into recovery and leaves the request
/// waiting: when the attempt of a request in flight fails with `MOVED` or
/// `ASK` and the request has retries left, the engine asks for a refresh.
pub proof fn lemma_redirect_starts_recovery(
    s: PipelineView,
    id: u64,
    tried: Seq<char>,
    class: ErrorClass,
)
    requires
        !s.recovering,
        class.redirects(),
        position_of(s.in_flight, id, 0) < s.in_flight.len(),
        s.in_flight[position_of(s.in_flight, id, 0)].state == RequestState::InFlight,
        s.in_flight[position_of(s.in_flight, id, 0)].max_retries != Some(
            s.in_flight[position_of(s.in_flight, id, 0)].retry,
        ),
    ensures
        reply_answer(s, id, tried, Outcome::Failed(class)) == Ok::<Next, Rejected>(
            Next::Refresh,
        ),
        replied(s, id, tried, Outcome::Failed(class)).recovering,
        replied(s, id, tried, Outcome::Failed(class)).in_flight[position_of(s.in_flight, id, 0)].state
            == RequestState::Idle,
{
    lemma_position_of(s.in_flight, id, 0);
}

/// While the topology is being refreshed, nothing is sent: from a
/// pipeline in recovery, a series of events without an installation
/// leaves the pipeline in recovery and sends no request.
pub proof fn lemma_nothing_sent_in_recovery(s: PipelineView, events: Seq<Event>)
    requires
        s.recovering,
        forall|k: int| 0 <= k < events.len() ==> !((#[trigger] events[k]) is Install),
    ensures
        run(s, events).recovering,
        total_sent(s, events) == 0,
    decreases events.len(),
{
    if events.len() > 0 {
        let init = events.drop_last();
        lemma_nothing_sent_in_recovery(s, init);
    }
}

} // verus!
