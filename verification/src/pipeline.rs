//! The routing engine: the requests in flight, the topology they are
//! routed by, and the two states the engine moves between.
//!
//! The engine itself sends nothing. Its owner hands it what happened (a
//! command arrived, an attempt ended, a timer fired, a refresh finished)
//! and carries out what the engine answers (send this request there, tell
//! the caller, wait, refresh the topology).

use crate::hash::{packed_slot, slot_for_packed_command};
use crate::pool::{candidates, draw_candidate, select_endpoint, selected, EndpointSet};
use crate::refresh::{started, Refresh};
use crate::request::{
    next_step, request_after, Message, Next, Outcome, Request, RequestState, RequestView, SendOp,
};
use crate::slots::{owner_of, SlotMap};
use vstd::prelude::*;

verus! {

/// The two states of the engine.
#[derive(Debug, Clone, Copy, PartialEq, Eq, Structural)]
pub enum ConnectionState {
    /// Requests are dispatched and their answers are taken in.
    PollComplete,
    /// The topology is being refreshed. Nothing is dispatched and no
    /// answer is taken in until the new topology is installed.
    Recover,
}

impl ConnectionState {
    /// The name of the state, for logs.
    pub fn label(&self) -> (name: &'static str)
        ensures
            name@ == (match self {
                ConnectionState::PollComplete => "PollComplete"@,
                ConnectionState::Recover => "Recover"@,
            }),
    {
        match self {
            ConnectionState::PollComplete => "PollComplete",
            ConnectionState::Recover => "Recover",
        }
    }
}

/// Where a request is to be sent.
#[derive(Debug)]
pub enum Route {
    /// To the pooled connection of endpoint `addr`.
    Pooled { addr: String },
    /// To endpoint `addr`, which owns the slot but has no pooled
    /// connection: a connection is opened for this one attempt. Where that
    /// fails, the request goes to the pooled connection of `fallback`.
    Fresh { addr: String, fallback: String },
}

/// Mathematical model of a `Route`.
pub enum RouteView {
    Pooled { addr: Seq<char> },
    Fresh { addr: Seq<char>, fallback: Seq<char> },
}

impl View for Route {
    type V = RouteView;

    open spec fn view(&self) -> RouteView {
        match self {
            Route::Pooled { addr } => RouteView::Pooled { addr: addr@ },
            Route::Fresh { addr, fallback } => RouteView::Fresh {
                addr: addr@,
                fallback: fallback@,
            },
        }
    }
}

impl RouteView {
    /// The endpoint whose pooled connection the route counts on.
    pub open spec fn pooled(self) -> Seq<char> {
        match self {
            RouteView::Pooled { addr } => addr,
            RouteView::Fresh { addr, fallback } => fallback,
        }
    }

    /// The endpoint that the request is sent to in the end: for a fresh
    /// connection, the owner if it could be opened and the fallback if not.
    pub open spec fn target(self, opened: bool) -> Seq<char> {
        match self {
            RouteView::Pooled { addr } => addr,
            RouteView::Fresh { addr, fallback } => if opened {
                addr
            } else {
                fallback
            },
        }
    }
}

impl Route {
    /// The endpoint to open a connection to, if the route asks for one.
    pub fn fresh(&self) -> (addr: Option<&String>)
        ensures
            match addr {
                Some(name) => self@ is Fresh && self@->Fresh_addr == name@,
                None => self@ is Pooled,
            },
    {
        match self {
            Route::Pooled { .. } => None,
            Route::Fresh { addr, .. } => Some(addr),
        }
    }

    /// The endpoint whose pooled connection the route counts on.
    pub fn pooled(&self) -> (addr: &String)
        ensures
            addr@ == self@.pooled(),
    {
        match self {
            Route::Pooled { addr } => addr,
            Route::Fresh { fallback, .. } => fallback,
        }
    }

    /// The endpoint that the request is sent to in the end. `opened` says
    /// whether the fresh connection could be opened; a route without one
    /// does not look at it.
    pub fn target(self, opened: bool) -> (addr: String)
        ensures
            addr@ == self@.target(opened),
    {
        match self {
            Route::Pooled { addr } => addr,
            Route::Fresh { addr, fallback } => if opened {
                addr
            } else {
                fallback
            },
        }
    }
}

/// An order to send the request `id` along `route`.
#[derive(Debug)]
pub struct Dispatch {
    pub id: u64,
    pub route: Route,
}

/// Why the engine did not take in what it was handed.
#[derive(Debug, Clone, Copy, PartialEq, Eq, Structural)]
pub enum Rejected {
    /// The topology is being refreshed: hand it in again afterwards.
    Recovering,
    /// No request of that number is in the state that the event is for.
    NoSuchRequest,
}

/// Mathematical model of a `Pipeline`.
pub struct PipelineView {
    /// The endpoints that have a pooled connection.
    pub pool: Seq<Seq<char>>,
    /// The slot map: last slot of each range to its master.
    pub slots: Map<u16, Seq<char>>,
    /// Whether the topology is being refreshed.
    pub recovering: bool,
    /// The requests that were accepted and are not finished.
    pub in_flight: Seq<RequestView>,
    /// The retry limit that new requests get.
    pub retries: Option<u32>,
    /// The number that the next request gets.
    pub next_id: u64,
}

/// Position of the first request at or after `from` that bears the number
/// `id`, or the length of the list if there is none.
pub open spec fn position_of(list: Seq<RequestView>, id: u64, from: int) -> int
    decreases list.len() - from,
{
    if from >= list.len() {
        list.len() as int
    } else if list[from].id == id {
        from
    } else {
        position_of(list, id, from + 1)
    }
}

/// Whether the list holds a request that bears the number `id`.
pub open spec fn holds_id(list: Seq<RequestView>, id: u64) -> bool {
    exists|i: int| 0 <= i < list.len() && #[trigger] list[i].id == id
}

impl PipelineView {
    /// What holds of every pipeline: no endpoint is pooled twice, no two
    /// requests bear the same number, and every number in use lies below
    /// the next one to be given out.
    pub open spec fn well_formed(self) -> bool {
        &&& self.pool.no_duplicates()
        &&& forall|i: int, j: int|
            0 <= i < j < self.in_flight.len() ==> self.in_flight[i].id != self.in_flight[j].id
        &&& forall|i: int|
            0 <= i < self.in_flight.len() ==> (#[trigger] self.in_flight[i]).id < self.next_id
    }

    /// The state that the engine is in.
    pub open spec fn state(self) -> ConnectionState {
        if self.recovering {
            ConnectionState::Recover
        } else {
            ConnectionState::PollComplete
        }
    }
}

/// The request that is made of an accepted command: it gets the next
/// number, the slot of its key and the pipeline's retry limit, and waits
/// to be sent.
pub open spec fn fresh_request(
    s: PipelineView,
    cmd: Seq<u8>,
    offset: usize,
    count: usize,
    op: SendOp,
) -> RequestView {
    RequestView {
        id: s.next_id,
        cmd,
        offset,
        count,
        op,
        slot: packed_slot(cmd),
        excludes: Seq::empty(),
        retry: 0,
        max_retries: s.retries,
        state: RequestState::Idle,
    }
}

/// The pipeline after it accepted a command. Once the numbers have run
/// out, nothing is accepted.
pub open spec fn accepted(
    s: PipelineView,
    cmd: Seq<u8>,
    offset: usize,
    count: usize,
    op: SendOp,
) -> PipelineView {
    if s.next_id == u64::MAX {
        s
    } else {
        PipelineView {
            in_flight: s.in_flight.push(fresh_request(s, cmd, offset, count, op)),
            next_id: (s.next_id + 1) as u64,
            ..s
        }
    }
}

/// Whether `route` is a way to the owner of `slot` under the given
/// topology: over the pooled connection of the owner if it has one, else
/// over a fresh connection, with any pooled endpoint as the fallback.
/// Where the slot has no owner, any pooled endpoint is a way.
pub open spec fn is_slot_route(
    pool: Seq<Seq<char>>,
    slots: Map<u16, Seq<char>>,
    slot: u16,
    route: RouteView,
) -> bool {
    match owner_of(slots, slot) {
        Some(owner) => if pool.contains(owner) {
            route == (RouteView::Pooled { addr: owner })
        } else {
            route matches RouteView::Fresh { addr, fallback } && addr == owner && pool.contains(
                fallback,
            )
        },
        None => route matches RouteView::Pooled { addr } && pool.contains(addr),
    }
}

/// Whether `route` is a way to send request `r` under the given topology.
/// A request that has excluded endpoints, or has no slot, goes to any
/// candidate of the pool; any other goes to the owner of its slot.
pub open spec fn is_route(
    pool: Seq<Seq<char>>,
    slots: Map<u16, Seq<char>>,
    r: RequestView,
    route: RouteView,
) -> bool {
    if r.excludes.len() > 0 || r.slot is None {
        route matches RouteView::Pooled { addr } && candidates(pool, Some(r.excludes)).contains(
            addr,
        )
    } else {
        is_slot_route(pool, slots, r.slot->Some_0, route)
    }
}

/// The way to the owner of `slot` that a given draw leads to; `None`
/// where a draw is called for and selects no endpoint. The draw counts
/// through the pool, and is not looked at when the owner of the slot has a
/// pooled connection.
pub open spec fn slot_route_of(
    pool: Seq<Seq<char>>,
    slots: Map<u16, Seq<char>>,
    slot: u16,
    drawn: Option<usize>,
) -> Option<RouteView> {
    match owner_of(slots, slot) {
        Some(owner) => if pool.contains(owner) {
            Some(RouteView::Pooled { addr: owner })
        } else {
            match selected(pool, None, drawn) {
                Some(fallback) => Some(RouteView::Fresh { addr: owner, fallback }),
                None => None,
            }
        },
        None => match selected(pool, None, drawn) {
            Some(addr) => Some(RouteView::Pooled { addr }),
            None => None,
        },
    }
}

/// The route that a given draw leads to; `None` where a draw is called
/// for and selects no endpoint. For a request that has excluded endpoints
/// or has no slot, the draw counts through the candidates that its
/// exclusions leave.
pub open spec fn route_of(
    pool: Seq<Seq<char>>,
    slots: Map<u16, Seq<char>>,
    r: RequestView,
    drawn: Option<usize>,
) -> Option<RouteView> {
    if r.excludes.len() > 0 || r.slot is None {
        match selected(pool, Some(r.excludes), drawn) {
            Some(addr) => Some(RouteView::Pooled { addr }),
            None => None,
        }
    } else {
        slot_route_of(pool, slots, r.slot->Some_0, drawn)
    }
}

/// Whatever is drawn, the route that the draw leads to is a way to send
/// the request.
pub proof fn lemma_route_of(
    pool: Seq<Seq<char>>,
    slots: Map<u16, Seq<char>>,
    r: RequestView,
    drawn: Option<usize>,
)
    ensures
        route_of(pool, slots, r, drawn) matches Some(route) ==> is_route(pool, slots, r, route),
{
    if r.slot is Some {
        lemma_slot_route_of(pool, slots, r.slot->Some_0, drawn);
    }
    if selected(pool, Some(r.excludes), drawn) is Some {
        let addr = selected(pool, Some(r.excludes), drawn)->Some_0;
        assert(candidates(pool, Some(r.excludes)).contains(addr));
    }
}

/// Whatever is drawn, the way that the draw leads to is a way to the
/// owner of the slot.
pub proof fn lemma_slot_route_of(
    pool: Seq<Seq<char>>,
    slots: Map<u16, Seq<char>>,
    slot: u16,
    drawn: Option<usize>,
)
    ensures
        slot_route_of(pool, slots, slot, drawn) matches Some(route) ==> is_slot_route(
            pool,
            slots,
            slot,
            route,
        ),
{
    if selected(pool, None, drawn) is Some {
        assert(pool.contains(selected(pool, None, drawn)->Some_0));
    }
}

/// Position of the first request at or after `from` that waits to be
/// sent, or the length of the list if there is none.
pub open spec fn first_idle(list: Seq<RequestView>, from: int) -> int
    decreases list.len() - from,
{
    if from >= list.len() {
        list.len() as int
    } else if list[from].state == RequestState::Idle {
        from
    } else {
        first_idle(list, from + 1)
    }
}

/// The request with its state changed.
pub open spec fn in_state(r: RequestView, state: RequestState) -> RequestView {
    RequestView { state, ..r }
}

/// The pipeline after one dispatch: the first waiting request is in
/// flight. While the topology is being refreshed, and when no request
/// waits, nothing changes.
pub open spec fn dispatched(s: PipelineView) -> PipelineView {
    let i = first_idle(s.in_flight, 0);
    if s.recovering || i >= s.in_flight.len() {
        s
    } else {
        PipelineView {
            in_flight: s.in_flight.update(i, in_state(s.in_flight[i], RequestState::InFlight)),
            ..s
        }
    }
}

/// The pipeline after the attempt of request `id` at endpoint `tried`
/// ended with `outcome`. Nothing changes while the topology is being
/// refreshed, or when no request of that number is in flight. Otherwise
/// the request either leaves the pipeline, finished, or stays with its
/// retry state brought up to date; a redirection puts the pipeline into
/// recovery.
pub open spec fn replied(s: PipelineView, id: u64, tried: Seq<char>, outcome: Outcome) -> PipelineView {
    let i = position_of(s.in_flight, id, 0);
    if s.recovering || i >= s.in_flight.len() || s.in_flight[i].state != RequestState::InFlight {
        s
    } else {
        let after = request_after(s.in_flight[i], tried, outcome);
        match next_step(s.in_flight[i], tried, outcome, s.pool) {
            Next::Done => PipelineView { in_flight: s.in_flight.remove(i), ..s },
            Next::Refresh => PipelineView {
                in_flight: s.in_flight.update(i, after),
                recovering: true,
                ..s
            },
            _ => PipelineView { in_flight: s.in_flight.update(i, after), ..s },
        }
    }
}

/// What the engine answers to the end of an attempt.
pub open spec fn reply_answer(s: PipelineView, id: u64, tried: Seq<char>, outcome: Outcome) -> Result<
    Next,
    Rejected,
> {
    let i = position_of(s.in_flight, id, 0);
    if s.recovering {
        Err(Rejected::Recovering)
    } else if i >= s.in_flight.len() || s.in_flight[i].state != RequestState::InFlight {
        Err(Rejected::NoSuchRequest)
    } else {
        Ok(next_step(s.in_flight[i], tried, outcome, s.pool))
    }
}

/// What the engine answers when the timer of request `id` fires.
pub open spec fn timer_answer(s: PipelineView, id: u64) -> Result<(), Rejected> {
    let i = position_of(s.in_flight, id, 0);
    if s.recovering {
        Err(Rejected::Recovering)
    } else if i >= s.in_flight.len() || s.in_flight[i].state != RequestState::Delayed {
        Err(Rejected::NoSuchRequest)
    } else {
        Ok(())
    }
}

/// The pipeline after the timer of request `id` fired: the request waits
/// to be sent again. Nothing changes while the topology is being
/// refreshed, or when no request of that number waits for a timer.
pub open spec fn timer_fired(s: PipelineView, id: u64) -> PipelineView {
    let i = position_of(s.in_flight, id, 0);
    if timer_answer(s, id) is Err {
        s
    } else {
        PipelineView {
            in_flight: s.in_flight.update(i, in_state(s.in_flight[i], RequestState::Idle)),
            ..s
        }
    }
}

/// The pipeline after a refreshed topology was installed: slot map and
/// pool are replaced together, and the engine dispatches again.
pub open spec fn installed(s: PipelineView, slots: Map<u16, Seq<char>>, pool: Seq<Seq<char>>) -> PipelineView {
    PipelineView { slots, pool, recovering: false, ..s }
}

/// The views of a sequence of requests, element by element.
pub open spec fn request_views(list: Seq<Request>) -> Seq<RequestView> {
    Seq::new(list.len(), |i: int| list[i]@)
}

/// The routing engine.
pub struct Pipeline {
    connections: EndpointSet,
    slots: SlotMap,
    state: ConnectionState,
    in_flight_requests: Vec<Request>,
    retries: Option<u32>,
    next_id: u64,
}

impl View for Pipeline {
    type V = PipelineView;

    closed spec fn view(&self) -> PipelineView {
        PipelineView {
            pool: self.connections@,
            slots: self.slots@,
            recovering: self.state == ConnectionState::Recover,
            in_flight: request_views(self.in_flight_requests@),
            retries: self.retries,
            next_id: self.next_id,
        }
    }
}

impl Pipeline {
    #[verifier::type_invariant]
    spec fn sound(self) -> bool {
        self@.well_formed()
    }

    /// Makes an engine with the given topology and no request. New
    /// requests will give up after `retries` failed attempts, or never if
    /// `retries` is `None`.
    pub fn new(connections: EndpointSet, slots: SlotMap, retries: Option<u32>) -> (pipeline:
        Pipeline)
        ensures
            pipeline@ == (PipelineView {
                pool: connections@,
                slots: slots@,
                recovering: false,
                in_flight: Seq::empty(),
                retries,
                next_id: 0,
            }),
            pipeline@.well_formed(),
    {
        proof {
            use_type_invariant(&connections);
        }
        let pipeline = Pipeline {
            connections,
            slots,
            state: ConnectionState::PollComplete,
            in_flight_requests: Vec::new(),
            retries,
            next_id: 0,
        };
        proof {
            assert(pipeline@.in_flight =~= Seq::<RequestView>::empty());
        }
        pipeline
    }

    /// The state that the engine is in.
    pub fn state(&self) -> (state: ConnectionState)
        ensures
            state == self@.state(),
    {
        self.state
    }

    /// Whether the topology is being refreshed.
    pub fn is_recovering(&self) -> (recovering: bool)
        ensures
            recovering == self@.recovering,
    {
        match self.state {
            ConnectionState::Recover => true,
            ConnectionState::PollComplete => false,
        }
    }

    /// The endpoints that have a pooled connection.
    pub fn connections(&self) -> (pool: &EndpointSet)
        ensures
            pool@ == self@.pool,
    {
        &self.connections
    }

    /// The slot map.
    pub fn slots(&self) -> (slots: &SlotMap)
        ensures
            slots@ == self@.slots,
    {
        &self.slots
    }

    /// The retry limit that new requests get.
    pub fn retries(&self) -> (retries: Option<u32>)
        ensures
            retries == self@.retries,
    {
        self.retries
    }

    /// How many requests are accepted and not finished.
    pub fn in_flight(&self) -> (count: usize)
        ensures
            count == self@.in_flight.len(),
    {
        self.in_flight_requests.len()
    }

    /// Whether every accepted request is finished: the flush is complete.
    pub fn is_drained(&self) -> (drained: bool)
        ensures
            drained == (self@.in_flight.len() == 0),
    {
        self.in_flight_requests.len() == 0
    }

    /// Position of the request that bears the number `id`.
    fn find(&self, id: u64) -> (at: usize)
        ensures
            at == position_of(self@.in_flight, id, 0),
            at <= self@.in_flight.len(),
    {
        let mut i: usize = 0;
        while i < self.in_flight_requests.len() && self.in_flight_requests[i].id() != id
            invariant
                i <= self.in_flight_requests@.len(),
                position_of(self@.in_flight, id, 0) == position_of(self@.in_flight, id, i as int),
            decreases self.in_flight_requests@.len() - i,
        {
            i = i + 1;
        }
        i
    }

    /// The request that bears the number `id`, if it is not finished.
    pub fn request(&self, id: u64) -> (found: Option<&Request>)
        ensures
            match found {
                Some(request) => {
                    let i = position_of(self@.in_flight, id, 0);
                    i < self@.in_flight.len() && request@ == self@.in_flight[i]
                },
                None => position_of(self@.in_flight, id, 0) >= self@.in_flight.len(),
            },
    {
        let at = self.find(id);
        if at < self.in_flight_requests.len() {
            Some(&self.in_flight_requests[at])
        } else {
            None
        }
    }

    /// Accepts a command: it becomes a request that waits to be sent, with
    /// the slot of its key, no retries and no excluded endpoint. Returns
    /// the number of the request. Accepting never fails but for the limit
    /// of the machine: the numbers are 64 bits wide and none is given out
    /// twice, so `None` is returned once all of them are used up.
    pub fn start_send(&mut self, msg: Message) -> (id: Option<u64>)
        ensures
            final(self)@ == accepted(
                old(self)@,
                msg.cmd.cmd@,
                msg.cmd.offset,
                msg.cmd.count,
                msg.op,
            ),
            final(self)@.well_formed(),
            id == if old(self)@.next_id == u64::MAX {
                None
            } else {
                Some(old(self)@.next_id)
            },
    {
        proof {
            use_type_invariant(&*self);
        }
        if self.next_id == u64::MAX {
            return None;
        }
        let id = self.next_id;
        let slot = slot_for_packed_command(msg.cmd.cmd.as_slice());
        let request = Request::new(id, msg, slot, self.retries);
        let ghost before = self@;
        let mut list: Vec<Request> = Vec::new();
        core::mem::swap(&mut self.in_flight_requests, &mut list);
        list.push(request);
        proof {
            assert(request_views(list@) =~= before.in_flight.push(request@));
        }
        self.next_id = id + 1;
        core::mem::swap(&mut self.in_flight_requests, &mut list);
        Some(id)
    }
}

/// The requests of the list that wait to be sent, in order.
pub open spec fn idle_requests(list: Seq<RequestView>) -> Seq<RequestView>
    decreases list.len(),
{
    if list.len() == 0 {
        list
    } else if list.last().state == RequestState::Idle {
        idle_requests(list.drop_last()).push(list.last())
    } else {
        idle_requests(list.drop_last())
    }
}

/// The list with every waiting request put in flight.
pub open spec fn all_in_flight(list: Seq<RequestView>) -> Seq<RequestView> {
    Seq::new(
        list.len(),
        |i: int|
            if list[i].state == RequestState::Idle {
                in_state(list[i], RequestState::InFlight)
            } else {
                list[i]
            },
    )
}

/// The pipeline after a flush: every waiting request is in flight. While
/// the topology is being refreshed, nothing changes.
pub open spec fn flushed(s: PipelineView) -> PipelineView {
    if s.recovering {
        s
    } else {
        PipelineView { in_flight: all_in_flight(s.in_flight), ..s }
    }
}

/// The requests that a flush sends: those that wait, unless the topology
/// is being refreshed.
pub open spec fn to_send(s: PipelineView) -> Seq<RequestView> {
    if s.recovering {
        Seq::empty()
    } else {
        idle_requests(s.in_flight)
    }
}

/// A list that holds a waiting request has requests to send.
pub proof fn lemma_idle_requests(list: Seq<RequestView>, at: int)
    requires
        0 <= at < list.len(),
        list[at].state == RequestState::Idle,
    ensures
        idle_requests(list).len() > 0,
    decreases list.len(),
{
    if at < list.len() - 1 {
        lemma_idle_requests(list.drop_last(), at);
    }
}

impl Pipeline {
    /// Begins a refresh of the topology: the plan asks the endpoints that
    /// are pooled now. The pipeline keeps its topology until the refreshed
    /// one is installed.
    pub fn refresh_slots(&self) -> (plan: Refresh)
        ensures
            plan@ == started(self@.pool),
            plan@.well_formed(),
    {
        Refresh::start(&self.connections)
    }

    /// Says which way a given draw leads to the owner of `slot`: its
    /// pooled connection if it has one, else a fresh connection with the
    /// drawn pooled endpoint to fall back on. Where the slot has no owner,
    /// the drawn pooled endpoint. `None` when a draw is called for and
    /// selects nothing.
    pub fn slot_route(&self, slot: u16, drawn: Option<usize>) -> (route: Option<Route>)
        ensures
            match route {
                Some(way) => slot_route_of(self@.pool, self@.slots, slot, drawn) == Some(way@),
                None => slot_route_of(self@.pool, self@.slots, slot, drawn) is None,
            },
    {
        match self.slots.owner(slot) {
            Some(owner) => {
                if self.connections.contains(owner) {
                    Some(Route::Pooled { addr: owner.clone() })
                } else {
                    match select_endpoint(&self.connections, None, drawn) {
                        Some(fallback) => Some(Route::Fresh { addr: owner.clone(), fallback }),
                        None => None,
                    }
                }
            },
            None => match select_endpoint(&self.connections, None, drawn) {
                Some(addr) => Some(Route::Pooled { addr }),
                None => None,
            },
        }
    }

    /// Finds the way to the owner of `slot`: its pooled connection if it
    /// has one, else a fresh connection with a random pooled endpoint to
    /// fall back on. Where the slot has no owner, a random pooled endpoint.
    /// The way is the one that `slot_route` gives: without a draw where
    /// none is called for, and else for the position that was drawn.
    pub fn get_connection(&self, slot: u16) -> (route: Route)
        requires
            self@.pool.len() > 0,
        ensures
            is_slot_route(self@.pool, self@.slots, slot, route@),
            exists|drawn: Option<usize>|
                slot_route_of(self@.pool, self@.slots, slot, drawn) == Some(route@),
    {
        match self.slot_route(slot, None) {
            Some(route) => {
                proof {
                    lemma_slot_route_of(self@.pool, self@.slots, slot, None);
                }
                route
            },
            None => {
                let drawn = draw_candidate(&self.connections, None);
                proof {
                    lemma_slot_route_of(self@.pool, self@.slots, slot, drawn);
                }
                self.slot_route(slot, drawn).unwrap()
            },
        }
    }

    /// Chooses where to send `request`. A request that has excluded
    /// endpoints, or has no slot, goes to a random endpoint outside its
    /// exclusions; any other goes to the owner of its slot. The route is
    /// the one that `route_with` gives: without a draw where none is
    /// called for, and else for the position that was drawn.
    pub fn try_request(&self, request: &Request) -> (route: Route)
        requires
            self@.pool.len() > 0,
        ensures
            is_route(self@.pool, self@.slots, request@, route@),
            exists|drawn: Option<usize>|
                route_of(self@.pool, self@.slots, request@, drawn) == Some(route@),
    {
        match self.route_with(request, None) {
            Some(route) => {
                proof {
                    lemma_route_of(self@.pool, self@.slots, request@, None);
                }
                route
            },
            None => {
                let excludes = request.excludes();
                let drawn = if excludes.len() > 0 || request.slot().is_none() {
                    draw_candidate(&self.connections, Some(excludes))
                } else {
                    draw_candidate(&self.connections, None)
                };
                proof {
                    lemma_route_of(self@.pool, self@.slots, request@, drawn);
                }
                self.route_with(request, drawn).unwrap()
            },
        }
    }

    /// Says where a given draw sends `request`: the draw counts through
    /// the candidates of the pool. `None` when a draw is called for and
    /// selects nothing.
    pub fn route_with(&self, request: &Request, drawn: Option<usize>) -> (route: Option<Route>)
        ensures
            match route {
                Some(way) => route_of(self@.pool, self@.slots, request@, drawn) == Some(way@),
                None => route_of(self@.pool, self@.slots, request@, drawn) is None,
            },
    {
        let excludes = request.excludes();
        match request.slot() {
            Some(slot) => {
                if excludes.len() == 0 {
                    return self.slot_route(slot, drawn);
                }
            },
            None => {},
        }
        match select_endpoint(&self.connections, Some(excludes), drawn) {
            Some(addr) => Some(Route::Pooled { addr }),
            None => None,
        }
    }

    /// How many requests a flush would send now: those that wait to be
    /// sent, or none while the topology is being refreshed.
    pub fn waiting(&self) -> (count: usize)
        ensures
            count == to_send(self@).len(),
    {
        if self.is_recovering() {
            return 0;
        }
        let mut count: usize = 0;
        let mut i: usize = 0;
        while i < self.in_flight_requests.len()
            invariant
                i <= self.in_flight_requests@.len(),
                count <= i,
                count == idle_requests(self@.in_flight.take(i as int)).len(),
            decreases self.in_flight_requests@.len() - i,
        {
            proof {
                assert(self@.in_flight.take(i + 1).drop_last() =~= self@.in_flight.take(i as int));
            }
            if matches!(self.in_flight_requests[i].state(), RequestState::Idle) {
                count = count + 1;
            }
            i = i + 1;
        }
        proof {
            assert(self@.in_flight.take(self@.in_flight.len() as int) =~= self@.in_flight);
        }
        count
    }

    /// Position of the first request that waits to be sent.
    fn find_idle(&self) -> (at: usize)
        ensures
            at == first_idle(self@.in_flight, 0),
            at <= self@.in_flight.len(),
            at < self@.in_flight.len() ==> self@.in_flight[at as int].state == RequestState::Idle,
    {
        let mut i: usize = 0;
        while i < self.in_flight_requests.len() && !matches!(
            self.in_flight_requests[i].state(),
            RequestState::Idle
        )
            invariant
                i <= self.in_flight_requests@.len(),
                first_idle(self@.in_flight, 0) == first_idle(self@.in_flight, i as int),
            decreases self.in_flight_requests@.len() - i,
        {
            i = i + 1;
        }
        i
    }

    /// Puts the request at position `at` into `state`.
    fn mark(&mut self, at: usize, state: RequestState)
        requires
            at < old(self)@.in_flight.len(),
        ensures
            final(self)@ == (PipelineView {
                in_flight: old(self)@.in_flight.update(
                    at as int,
                    in_state(old(self)@.in_flight[at as int], state),
                ),
                ..old(self)@
            }),
    {
        proof {
            use_type_invariant(&*self);
        }
        let ghost before = self@;
        let mut list: Vec<Request> = Vec::new();
        core::mem::swap(&mut self.in_flight_requests, &mut list);
        let mut request = list.remove(at);
        request.set_state(state);
        list.insert(at, request);
        proof {
            assert(request_views(list@) =~= before.in_flight.update(
                at as int,
                in_state(before.in_flight[at as int], state),
            ));
        }
        core::mem::swap(&mut self.in_flight_requests, &mut list);
    }

    /// Dispatches the first request that waits to be sent: chooses its
    /// route and puts it in flight. Returns `None`, and changes nothing,
    /// while the topology is being refreshed and when no request waits.
    pub fn next_dispatch(&mut self) -> (order: Option<Dispatch>)
        requires
            old(self)@.pool.len() > 0 || to_send(old(self)@).len() == 0,
        ensures
            final(self)@ == dispatched(old(self)@),
            final(self)@.well_formed(),
            match order {
                Some(dispatch) => {
                    let i = first_idle(old(self)@.in_flight, 0);
                    &&& !old(self)@.recovering
                    &&& i < old(self)@.in_flight.len()
                    &&& dispatch.id == old(self)@.in_flight[i].id
                    &&& is_route(
                        old(self)@.pool,
                        old(self)@.slots,
                        old(self)@.in_flight[i],
                        dispatch.route@,
                    )
                },
                None => old(self)@.recovering || first_idle(old(self)@.in_flight, 0) >= old(
                    self,
                )@.in_flight.len(),
            },
    {
        proof {
            use_type_invariant(&*self);
        }
        if self.is_recovering() {
            return None;
        }
        let at = self.find_idle();
        if at >= self.in_flight_requests.len() {
            return None;
        }
        proof {
            lemma_idle_requests(self@.in_flight, at as int);
        }
        let route = self.try_request(&self.in_flight_requests[at]);
        let id = self.in_flight_requests[at].id();
        self.mark(at, RequestState::InFlight);
        proof {
            use_type_invariant(&*self);
        }
        Some(Dispatch { id, route })
    }

    /// Dispatches every request that waits to be sent, in order. While
    /// the topology is being refreshed, nothing is dispatched.
    pub fn poll_flush(&mut self) -> (orders: Vec<Dispatch>)
        requires
            old(self)@.pool.len() > 0 || to_send(old(self)@).len() == 0,
        ensures
            final(self)@ == flushed(old(self)@),
            final(self)@.well_formed(),
            orders@.len() == to_send(old(self)@).len(),
            forall|k: int|
                0 <= k < orders@.len() ==> (#[trigger] orders@[k]).id == to_send(old(self)@)[k].id
                    && is_route(
                    old(self)@.pool,
                    old(self)@.slots,
                    to_send(old(self)@)[k],
                    orders@[k].route@,
                ),
    {
        proof {
            use_type_invariant(&*self);
        }
        let mut orders: Vec<Dispatch> = Vec::new();
        if self.is_recovering() {
            return orders;
        }
        let ghost before = self@;
        let mut i: usize = 0;
        while i < self.in_flight_requests.len()
            invariant
                i <= before.in_flight.len(),
                !before.recovering,
                before.pool.len() > 0 || idle_requests(before.in_flight).len() == 0,
                self@.pool == before.pool,
                self@.slots == before.slots,
                self@.recovering == before.recovering,
                self@.retries == before.retries,
                self@.next_id == before.next_id,
                self@.in_flight.len() == before.in_flight.len(),
                forall|k: int| 0 <= k < i ==> self@.in_flight[k] == all_in_flight(before.in_flight)[k],
                forall|k: int| i <= k < before.in_flight.len() ==> self@.in_flight[k] == before.in_flight[k],
                orders@.len() == idle_requests(before.in_flight.take(i as int)).len(),
                forall|k: int|
                    0 <= k < orders@.len() ==> (#[trigger] orders@[k]).id == idle_requests(
                        before.in_flight.take(i as int),
                    )[k].id && is_route(
                        before.pool,
                        before.slots,
                        idle_requests(before.in_flight.take(i as int))[k],
                        orders@[k].route@,
                    ),
            decreases before.in_flight.len() - i,
        {
            proof {
                assert(before.in_flight.take(i + 1).drop_last() =~= before.in_flight.take(i as int));
            }
            if matches!(self.in_flight_requests[i].state(), RequestState::Idle) {
                proof {
                    lemma_idle_requests(before.in_flight, i as int);
                }
                let route = self.try_request(&self.in_flight_requests[i]);
                let id = self.in_flight_requests[i].id();
                self.mark(i, RequestState::InFlight);
                orders.push(Dispatch { id, route });
            }
            i = i + 1;
        }
        proof {
            assert(before.in_flight.take(before.in_flight.len() as int) =~= before.in_flight);
            assert(self@.in_flight =~= all_in_flight(before.in_flight));
            use_type_invariant(&*self);
        }
        orders
    }

    /// Takes in how the attempt to send request `id` at endpoint `tried`
    /// ended, and says what is to happen next.
    ///
    /// * `Done`: the request has left the pipeline; its value or error
    ///   goes to the caller.
    /// * `Refresh`: the pipeline is in recovery and the request waits;
    ///   the topology has to be refreshed and installed.
    /// * `Sleep`: the request waits for a timer.
    /// * `TryNewConnection`: the request waits to be sent elsewhere.
    ///
    /// While the topology is being refreshed nothing is taken in.
    pub fn handle_reply(&mut self, id: u64, tried: String, outcome: Outcome) -> (answer: Result<
        Next,
        Rejected,
    >)
        ensures
            answer == reply_answer(old(self)@, id, tried@, outcome),
            final(self)@ == replied(old(self)@, id, tried@, outcome),
            final(self)@.well_formed(),
    {
        proof {
            use_type_invariant(&*self);
        }
        if self.is_recovering() {
            return Err(Rejected::Recovering);
        }
        let at = self.find(id);
        if at >= self.in_flight_requests.len() {
            return Err(Rejected::NoSuchRequest);
        }
        if !matches!(self.in_flight_requests[at].state(), RequestState::InFlight) {
            return Err(Rejected::NoSuchRequest);
        }
        let ghost before = self@;
        let mut list: Vec<Request> = Vec::new();
        core::mem::swap(&mut self.in_flight_requests, &mut list);
        let mut request = list.remove(at);
        let next = request.poll_request(tried, outcome, &self.connections);
        match next {
            Next::Done => {
                proof {
                    assert(request_views(list@) =~= before.in_flight.remove(at as int));
                }
            },
            Next::Refresh => {
                list.insert(at, request);
                proof {
                    assert(request_views(list@) =~= before.in_flight.update(at as int, request@));
                }
                self.state = ConnectionState::Recover;
            },
            _ => {
                list.insert(at, request);
                proof {
                    assert(request_views(list@) =~= before.in_flight.update(at as int, request@));
                }
            },
        }
        core::mem::swap(&mut self.in_flight_requests, &mut list);
        Ok(next)
    }

    /// Takes in that the timer of request `id` fired: the request waits to
    /// be sent again. While the topology is being refreshed nothing is
    /// taken in.
    pub fn handle_timer(&mut self, id: u64) -> (answer: Result<(), Rejected>)
        ensures
            answer == timer_answer(old(self)@, id),
            final(self)@ == timer_fired(old(self)@, id),
            final(self)@.well_formed(),
    {
        proof {
            use_type_invariant(&*self);
        }
        if self.is_recovering() {
            return Err(Rejected::Recovering);
        }
        let at = self.find(id);
        if at >= self.in_flight_requests.len() {
            return Err(Rejected::NoSuchRequest);
        }
        if !matches!(self.in_flight_requests[at].state(), RequestState::Delayed) {
            return Err(Rejected::NoSuchRequest);
        }
        self.mark(at, RequestState::Idle);
        proof {
            use_type_invariant(&*self);
        }
        Ok(())
    }

    /// Installs a refreshed topology: the slot map and the pool are
    /// replaced in one step, and the engine leaves recovery.
    pub fn install(&mut self, slots: SlotMap, connections: EndpointSet)
        ensures
            final(self)@ == installed(old(self)@, slots@, connections@),
            final(self)@.well_formed(),
    {
        proof {
            use_type_invariant(&*self);
            use_type_invariant(&connections);
        }
        self.connections = connections;
        self.slots = slots;
        self.state = ConnectionState::PollComplete;
    }
}


} // verus!
