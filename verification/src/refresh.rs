//! The refresh of the topology: asking the pooled nodes for the slot
//! ranges until one of them gives a usable answer, and then settling which
//! endpoints the new pool holds.
//!
//! A `Refresh` is a plan that its owner carries out step by step: it says
//! what to do next (`pending`), and takes in how that went.
//!
//! Two things are settled here in so many words. A refresh in which every
//! pooled node was asked in vain fails with `NoConnections`, whatever the
//! nodes answered. And a refresh that finishes pools every master of the
//! new slot map but those to which no connection could be had: such a
//! master stays in the slot map and out of the pool, and a request for its
//! slots is routed as for any owner that is not pooled.

use crate::discovery::{announced_slots, slots_of_reply};
use crate::pool::{with_name, without_name, EndpointSet};
use crate::reply::Reply;
use crate::slots::{
    build_slot_map, masters_of, names_view, slot_map_of, SlotMap, SlotView,
};
use vstd::prelude::*;

verus! {

/// Why a refresh gave no topology.
#[derive(Debug, Clone, Copy, PartialEq, Eq, Structural)]
pub enum RefreshError {
    /// No pooled connection gave a usable slot list: the pool was empty, or
    /// every node in it was asked in vain.
    NoConnections,
    /// The refresh has not come to an end yet.
    Unfinished,
}

/// Where a refresh stands.
#[derive(Debug, Clone, Copy, PartialEq, Eq, Structural)]
pub enum RefreshPhase {
    /// A pooled node is being asked for the slot ranges.
    Asking,
    /// The pooled connection of a master is being checked.
    Checking,
    /// A connection to a master is being opened.
    Connecting,
    /// Slot map and pool are ready to be installed.
    Finished,
    /// No node gave a usable answer.
    Failed,
}

/// What the owner of a refresh has to do next.
#[derive(Debug)]
pub enum RefreshAction {
    /// Ask the pooled connection of `node` for the slot ranges.
    Ask { node: String },
    /// Check the pooled connection of `node` with a ping.
    Ping { node: String },
    /// Open a connection to `node` and check it with a ping.
    Connect { node: String },
    /// Install the topology.
    Install,
    /// Give up: the refresh failed.
    GiveUp,
}

/// Mathematical model of a `RefreshAction`.
pub enum RefreshActionView {
    Ask { node: Seq<char> },
    Ping { node: Seq<char> },
    Connect { node: Seq<char> },
    Install,
    GiveUp,
}

impl View for RefreshAction {
    type V = RefreshActionView;

    open spec fn view(&self) -> RefreshActionView {
        match self {
            RefreshAction::Ask { node } => RefreshActionView::Ask { node: node@ },
            RefreshAction::Ping { node } => RefreshActionView::Ping { node: node@ },
            RefreshAction::Connect { node } => RefreshActionView::Connect { node: node@ },
            RefreshAction::Install => RefreshActionView::Install,
            RefreshAction::GiveUp => RefreshActionView::GiveUp,
        }
    }
}

/// Mathematical model of a `Refresh`.
pub struct RefreshView {
    /// The endpoints that were pooled when the refresh began, in the order
    /// in which they are asked.
    pub samples: Seq<Seq<char>>,
    /// How many of them were asked in vain.
    pub asked: int,
    /// Where the refresh stands.
    pub phase: RefreshPhase,
    /// The new slot map, once a node gave one.
    pub slots: Map<u16, Seq<char>>,
    /// The masters of the new slot map, by increasing last slot.
    pub masters: Seq<Seq<char>>,
    /// How many of the masters are dealt with.
    pub at: int,
    /// The endpoints of the old pool whose connection was not looked at.
    pub old_pool: Seq<Seq<char>>,
    /// The endpoints of the new pool.
    pub new_pool: Seq<Seq<char>>,
    /// The masters to which an attempt to open a connection failed.
    pub unreachable: Seq<Seq<char>>,
}

impl RefreshView {
    /// The master that is being dealt with.
    pub open spec fn current(self) -> Seq<char> {
        self.masters[self.at]
    }

    /// Whether each of the first `upto` masters is in the new pool or is
    /// known to be unreachable.
    pub open spec fn accounted(self, upto: int) -> bool {
        forall|i: int|
            0 <= i < upto && i < self.masters.len() ==> self.new_pool.contains(
                #[trigger] self.masters[i],
            ) || self.unreachable.contains(self.masters[i])
    }

    /// What holds of every refresh.
    pub open spec fn well_formed(self) -> bool {
        &&& 0 <= self.asked <= self.samples.len()
        &&& 0 <= self.at <= self.masters.len()
        &&& self.old_pool.no_duplicates()
        &&& self.new_pool.no_duplicates()
        &&& self.unreachable.no_duplicates()
        &&& self.accounted(self.at)
        &&& forall|i: int|
            0 <= i < self.new_pool.len() ==> self.masters.contains(#[trigger] self.new_pool[i])
        &&& self.phase == RefreshPhase::Asking ==> self.asked < self.samples.len()
            && self.new_pool.len() == 0
        &&& self.phase != RefreshPhase::Asking && self.phase != RefreshPhase::Failed
            ==> self.masters == masters_of(self.slots)
        &&& self.phase == RefreshPhase::Checking || self.phase == RefreshPhase::Connecting ==> {
            &&& self.at < self.masters.len()
            &&& !self.new_pool.contains(self.current())
            &&& !self.old_pool.contains(self.current())
        }
        &&& self.phase == RefreshPhase::Finished ==> self.at == self.masters.len()
        &&& self.phase == RefreshPhase::Failed ==> self.asked == self.samples.len()
    }
}

/// The refresh of a pool, at its start: the pooled endpoints are the ones
/// to ask. With an empty pool the refresh has failed at once.
pub open spec fn started(pool: Seq<Seq<char>>) -> RefreshView {
    RefreshView {
        samples: pool,
        asked: 0,
        phase: if pool.len() == 0 {
            RefreshPhase::Failed
        } else {
            RefreshPhase::Asking
        },
        slots: Map::empty(),
        masters: Seq::empty(),
        at: 0,
        old_pool: pool,
        new_pool: Seq::empty(),
        unreachable: Seq::empty(),
    }
}

/// What the owner has to do next.
pub open spec fn pending(s: RefreshView) -> RefreshActionView {
    match s.phase {
        RefreshPhase::Asking => RefreshActionView::Ask { node: s.samples[s.asked] },
        RefreshPhase::Checking => RefreshActionView::Ping { node: s.current() },
        RefreshPhase::Connecting => RefreshActionView::Connect { node: s.current() },
        RefreshPhase::Finished => RefreshActionView::Install,
        RefreshPhase::Failed => RefreshActionView::GiveUp,
    }
}

/// Moves on to the next master that needs attention. Masters that are in
/// the new pool already are passed over. A master found in the old pool is
/// taken out of it and has its connection checked; any other gets a
/// connection opened. When no master is left, the refresh is finished.
pub open spec fn settled(s: RefreshView) -> RefreshView
    decreases s.masters.len() - s.at,
{
    if s.at < 0 || s.at >= s.masters.len() {
        RefreshView { phase: RefreshPhase::Finished, ..s }
    } else if s.new_pool.contains(s.current()) {
        settled(RefreshView { at: s.at + 1, ..s })
    } else if s.old_pool.contains(s.current()) {
        RefreshView {
            phase: RefreshPhase::Checking,
            old_pool: without_name(s.old_pool, s.current()),
            ..s
        }
    } else {
        RefreshView { phase: RefreshPhase::Connecting, ..s }
    }
}

/// The slot map that a node's answer gives, if it gives one. The answer
/// `None` stands for a node that did not answer; a list of ranges gives
/// the slot map that is built from it, and none where that fails.
pub open spec fn answer_map(answer: Option<Seq<SlotView>>) -> Option<Map<u16, Seq<char>>> {
    match answer {
        None => None,
        Some(ranges) => match slot_map_of(ranges) {
            Ok(map) => Some(map),
            Err(_) => None,
        },
    }
}

/// The refresh after the node that was asked answered. A usable answer
/// gives the new slot map, and the masters are dealt with from the first
/// on. Otherwise the next pooled node is asked. When every pooled node
/// was asked in vain, the refresh has failed: no connection is left to
/// refresh the slots from.
pub open spec fn slots_answered(s: RefreshView, answer: Option<Seq<SlotView>>) -> RefreshView {
    if s.phase != RefreshPhase::Asking {
        s
    } else {
        match answer_map(answer) {
            Some(map) => settled(
                RefreshView {
                    slots: map,
                    masters: masters_of(map),
                    at: 0,
                    unreachable: Seq::empty(),
                    ..s
                },
            ),
            None => RefreshView {
                asked: s.asked + 1,
                phase: if s.asked + 1 >= s.samples.len() {
                    RefreshPhase::Failed
                } else {
                    RefreshPhase::Asking
                },
                ..s
            },
        }
    }
}

/// The refresh after the pooled connection of the current master was
/// checked. A connection that is alive is kept: the master joins the new
/// pool. For one that is dead, a connection is opened.
pub open spec fn ping_answered(s: RefreshView, alive: bool) -> RefreshView {
    if s.phase != RefreshPhase::Checking {
        s
    } else if alive {
        settled(joined(s))
    } else {
        RefreshView { phase: RefreshPhase::Connecting, ..s }
    }
}

/// The refresh after the attempt to open a connection to the current
/// master. A master that was reached joins the new pool; one that was not
/// is left out and noted as unreachable.
pub open spec fn connect_answered(s: RefreshView, connected: bool) -> RefreshView {
    if s.phase != RefreshPhase::Connecting {
        s
    } else if connected {
        settled(joined(s))
    } else {
        settled(given_up(s))
    }
}

/// Where the refresh stands does not matter to how it moves on.
pub proof fn lemma_settled_whatever_phase(s: RefreshView, phase: RefreshPhase)
    ensures
        settled(RefreshView { phase, ..s }) == settled(s),
    decreases s.masters.len() - s.at,
{
    if 0 <= s.at < s.masters.len() && s.new_pool.contains(s.current()) {
        lemma_settled_whatever_phase(RefreshView { at: s.at + 1, ..s }, phase);
    }
}

/// Taking a name out of a set without duplicates leaves a set without
/// duplicates that no longer holds the name.
proof fn lemma_without_name(names: Seq<Seq<char>>, name: Seq<char>)
    requires
        names.no_duplicates(),
    ensures
        without_name(names, name).no_duplicates(),
        !without_name(names, name).contains(name),
{
    if names.contains(name) {
        let at = names.index_of(name);
        assert(names.remove(at).no_duplicates());
        assert(!names.remove(at).contains(name));
    }
}

/// Moving on keeps a refresh well formed, and leaves it either finished or
/// attending to a master.
pub proof fn lemma_settled(s: RefreshView)
    requires
        0 <= s.at <= s.masters.len(),
        s.old_pool.no_duplicates(),
        s.new_pool.no_duplicates(),
        s.unreachable.no_duplicates(),
        s.accounted(s.at),
        forall|i: int| 0 <= i < s.new_pool.len() ==> s.masters.contains(#[trigger] s.new_pool[i]),
        s.masters == masters_of(s.slots),
        0 <= s.asked <= s.samples.len(),
    ensures
        settled(s).well_formed(),
        settled(s).phase == RefreshPhase::Finished || settled(s).phase == RefreshPhase::Checking
            || settled(s).phase == RefreshPhase::Connecting,
        settled(s).new_pool == s.new_pool,
        settled(s).unreachable == s.unreachable,
        settled(s).slots == s.slots,
        settled(s).masters == s.masters,
        settled(s).samples == s.samples,
        settled(s).asked == s.asked,
        s.at <= settled(s).at,
    decreases s.masters.len() - s.at,
{
    if s.at < s.masters.len() {
        if s.new_pool.contains(s.current()) {
            lemma_settled(RefreshView { at: s.at + 1, ..s });
        } else if s.old_pool.contains(s.current()) {
            lemma_without_name(s.old_pool, s.current());
        }
    }
}

/// The refresh in which the current master has joined the new pool.
pub open spec fn joined(s: RefreshView) -> RefreshView {
    RefreshView { new_pool: s.new_pool.push(s.current()), at: s.at + 1, ..s }
}

/// The refresh in which the current master is noted as unreachable.
pub open spec fn given_up(s: RefreshView) -> RefreshView {
    RefreshView { unreachable: with_name(s.unreachable, s.current()), at: s.at + 1, ..s }
}

/// After the current master joined the new pool, the refresh can move on.
proof fn lemma_joined(s: RefreshView)
    requires
        s.well_formed(),
        s.phase == RefreshPhase::Checking || s.phase == RefreshPhase::Connecting,
    ensures
        joined(s).new_pool.no_duplicates(),
        joined(s).accounted(joined(s).at),
        forall|i: int|
            0 <= i < joined(s).new_pool.len() ==> joined(s).masters.contains(
                #[trigger] joined(s).new_pool[i],
            ),
{
    let next = joined(s);
    assert forall|i: int| 0 <= i < next.at implies next.new_pool.contains(
        #[trigger] next.masters[i],
    ) || next.unreachable.contains(next.masters[i]) by {
        if i < s.at {
            if s.new_pool.contains(s.masters[i]) {
                let k = choose|k: int| 0 <= k < s.new_pool.len() && s.new_pool[k] == s.masters[i];
                assert(next.new_pool[k] == s.masters[i]);
            }
        } else {
            assert(next.new_pool[s.new_pool.len() as int] == s.current());
        }
    }
}

/// After the current master was noted as unreachable, the refresh can
/// move on.
proof fn lemma_given_up(s: RefreshView)
    requires
        s.well_formed(),
        s.phase == RefreshPhase::Checking || s.phase == RefreshPhase::Connecting,
    ensures
        given_up(s).unreachable.no_duplicates(),
        given_up(s).accounted(given_up(s).at),
{
    let next = given_up(s);
    assert forall|i: int| 0 <= i < next.at implies next.new_pool.contains(
        #[trigger] next.masters[i],
    ) || next.unreachable.contains(next.masters[i]) by {
        if !s.unreachable.contains(s.current()) {
            assert(next.unreachable[s.unreachable.len() as int] == s.current());
            if i < s.at && s.unreachable.contains(s.masters[i]) {
                let k = choose|k: int|
                    0 <= k < s.unreachable.len() && s.unreachable[k] == s.masters[i];
                assert(next.unreachable[k] == s.masters[i]);
            }
        }
    }
}

/// How many nodes are still to be asked, counting the one that is being
/// asked. Zero once a node gave a slot map, and once the refresh failed.
pub open spec fn asks_left(s: RefreshView) -> int {
    if s.phase == RefreshPhase::Asking {
        s.samples.len() - s.asked
    } else {
        0
    }
}

/// How many answers the masters still call for at most: two for each
/// master that is not dealt with, one of which is spent once the pooled
/// connection of the current master proved dead.
pub open spec fn checks_left(s: RefreshView) -> int {
    match s.phase {
        RefreshPhase::Checking => 2 * (s.masters.len() - s.at),
        RefreshPhase::Connecting => 2 * (s.masters.len() - s.at) - 1,
        _ => 0,
    }
}

/// Whether the refresh `after` is closer to its end than `before`: fewer
/// nodes are left to ask, or as many and fewer answers are called for.
pub open spec fn closer_to_end(before: RefreshView, after: RefreshView) -> bool {
    asks_left(after) < asks_left(before) || (asks_left(after) == asks_left(before)
        && checks_left(after) < checks_left(before))
}

/// A refresh stays well formed and makes progress: the answer to what is
/// pending brings it closer to its end, and neither measure ever goes
/// below zero. A refresh of a pool of `n` endpoints whose slot map names
/// `m` masters is therefore over after at most `n` questions and `2 * m`
/// checks.
pub proof fn lemma_refresh_advances(s: RefreshView, answer: Option<Seq<SlotView>>, flag: bool)
    requires
        s.well_formed(),
    ensures
        slots_answered(s, answer).well_formed(),
        ping_answered(s, flag).well_formed(),
        connect_answered(s, flag).well_formed(),
        0 <= asks_left(s) <= s.samples.len(),
        0 <= checks_left(s) <= 2 * s.masters.len(),
        s.phase == RefreshPhase::Asking ==> closer_to_end(s, slots_answered(s, answer)),
        s.phase == RefreshPhase::Checking ==> closer_to_end(s, ping_answered(s, flag)),
        s.phase == RefreshPhase::Connecting ==> closer_to_end(s, connect_answered(s, flag)),
{
    if s.phase == RefreshPhase::Asking {
        match answer_map(answer) {
            Some(map) => {
                lemma_settled(
                    RefreshView {
                        slots: map,
                        masters: masters_of(map),
                        at: 0,
                        unreachable: Seq::empty(),
                        ..s
                    },
                );
            },
            None => {},
        }
    }
    if s.phase == RefreshPhase::Checking || s.phase == RefreshPhase::Connecting {
        lemma_joined(s);
        lemma_settled(joined(s));
        lemma_given_up(s);
        lemma_settled(given_up(s));
    }
}

/// Each step keeps a refresh well formed.
pub proof fn lemma_refresh_well_formed(s: RefreshView, answer: Option<Seq<SlotView>>, flag: bool)
    requires
        s.well_formed(),
    ensures
        slots_answered(s, answer).well_formed(),
        ping_answered(s, flag).well_formed(),
        connect_answered(s, flag).well_formed(),
{
    lemma_refresh_advances(s, answer, flag);
}

/// A refresh in which every pooled node is asked in vain fails, and fails
/// only then: after an answer that gives no slot map, the refresh has
/// failed exactly if the node that was asked was the last of the pool.
pub proof fn lemma_refresh_fails_when_all_asked(s: RefreshView, answer: Option<Seq<SlotView>>)
    requires
        s.well_formed(),
        s.phase == RefreshPhase::Asking,
        answer_map(answer) is None,
    ensures
        slots_answered(s, answer).asked == s.asked + 1,
        slots_answered(s, answer).phase == RefreshPhase::Failed <==> s.asked + 1
            == s.samples.len(),
        slots_answered(s, answer).phase != RefreshPhase::Failed ==> pending(
            slots_answered(s, answer),
        ) == (RefreshActionView::Ask { node: s.samples[s.asked + 1] }),
{
}

/// A refresh of the topology in progress.
pub struct Refresh {
    samples: EndpointSet,
    asked: usize,
    phase: RefreshPhase,
    slots: SlotMap,
    masters: Vec<String>,
    at: usize,
    old_pool: EndpointSet,
    new_pool: EndpointSet,
    unreachable: EndpointSet,
}

impl View for Refresh {
    type V = RefreshView;

    closed spec fn view(&self) -> RefreshView {
        RefreshView {
            samples: self.samples@,
            asked: self.asked as int,
            phase: self.phase,
            slots: self.slots@,
            masters: names_view(self.masters@),
            at: self.at as int,
            old_pool: self.old_pool@,
            new_pool: self.new_pool@,
            unreachable: self.unreachable@,
        }
    }
}

/// The answer of a node as the refresh reads it: the ranges that the reply
/// announces, or `None` for a node that did not answer.
pub open spec fn answer_view(answer: Option<&Reply>) -> Option<Seq<SlotView>> {
    match answer {
        Some(reply) => Some(announced_slots(*reply)),
        None => None,
    }
}

impl Refresh {
    #[verifier::type_invariant]
    spec fn sound(self) -> bool {
        self@.well_formed()
    }

    /// Begins the refresh of `pool`.
    pub fn start(pool: &EndpointSet) -> (refresh: Refresh)
        ensures
            refresh@ == started(pool@),
            refresh@.well_formed(),
    {
        let samples = pool.duplicate();
        let old_pool = pool.duplicate();
        let empty = samples.len() == 0;
        let masters: Vec<String> = Vec::new();
        proof {
            assert(names_view(masters@) =~= Seq::<Seq<char>>::empty());
        }
        Refresh {
            samples,
            asked: 0,
            phase: if empty {
                RefreshPhase::Failed
            } else {
                RefreshPhase::Asking
            },
            slots: SlotMap::new(),
            masters,
            at: 0,
            old_pool,
            new_pool: EndpointSet::new(),
            unreachable: EndpointSet::new(),
        }
    }

    /// Where the refresh stands.
    pub fn phase(&self) -> (phase: RefreshPhase)
        ensures
            phase == self@.phase,
    {
        self.phase
    }

    /// What is to be done next.
    pub fn pending(&self) -> (action: RefreshAction)
        ensures
            action@ == pending(self@),
    {
        proof {
            use_type_invariant(self);
        }
        match self.phase {
            RefreshPhase::Asking => RefreshAction::Ask { node: self.samples.get(self.asked).clone() },
            RefreshPhase::Checking => RefreshAction::Ping { node: self.masters[self.at].clone() },
            RefreshPhase::Connecting => RefreshAction::Connect {
                node: self.masters[self.at].clone(),
            },
            RefreshPhase::Finished => RefreshAction::Install,
            RefreshPhase::Failed => RefreshAction::GiveUp,
        }
    }

    /// Moves on to the next master that needs attention.
    fn settle(
        samples: EndpointSet,
        asked: usize,
        slots: SlotMap,
        masters: Vec<String>,
        at: usize,
        old_pool: EndpointSet,
        new_pool: EndpointSet,
        unreachable: EndpointSet,
    ) -> (refresh: Refresh)
        requires
            at <= masters@.len(),
            asked <= samples@.len(),
            names_view(masters@) == masters_of(slots@),
            forall|i: int|
                0 <= i < new_pool@.len() ==> names_view(masters@).contains(#[trigger] new_pool@[i]),
            forall|i: int|
                0 <= i < at ==> new_pool@.contains(#[trigger] names_view(masters@)[i])
                    || unreachable@.contains(names_view(masters@)[i]),
        ensures
            refresh@ == settled(
                RefreshView {
                    samples: samples@,
                    asked: asked as int,
                    phase: RefreshPhase::Finished,
                    slots: slots@,
                    masters: names_view(masters@),
                    at: at as int,
                    old_pool: old_pool@,
                    new_pool: new_pool@,
                    unreachable: unreachable@,
                },
            ),
    {
        proof {
            use_type_invariant(&old_pool);
            use_type_invariant(&new_pool);
            use_type_invariant(&unreachable);
        }
        let ghost from = RefreshView {
            samples: samples@,
            asked: asked as int,
            phase: RefreshPhase::Finished,
            slots: slots@,
            masters: names_view(masters@),
            at: at as int,
            old_pool: old_pool@,
            new_pool: new_pool@,
            unreachable: unreachable@,
        };
        let mut at = at;
        let mut old_pool = old_pool;
        let mut phase = RefreshPhase::Finished;
        while at < masters.len()
            invariant_except_break
                phase == RefreshPhase::Finished,
                old_pool@ == from.old_pool,
                settled(from) == settled(RefreshView { at: at as int, ..from }),
            invariant
                at <= masters@.len(),
                from.masters == names_view(masters@),
                from.new_pool == new_pool@,
                from.phase == RefreshPhase::Finished,
            ensures
                at <= masters@.len(),
                settled(from) == (RefreshView {
                    at: at as int,
                    phase,
                    old_pool: old_pool@,
                    ..from
                }),
            decreases masters@.len() - at,
        {
            if new_pool.contains(&masters[at]) {
                at = at + 1;
            } else if old_pool.remove(&masters[at]) {
                phase = RefreshPhase::Checking;
                break ;
            } else {
                phase = RefreshPhase::Connecting;
                break ;
            }
        }
        proof {
            lemma_settled(from);
        }
        Refresh {
            samples,
            asked,
            phase,
            slots,
            masters,
            at,
            old_pool,
            new_pool,
            unreachable,
        }
    }

    /// Takes in the answer of the node that was asked for the slot ranges:
    /// its reply, or `None` if it did not answer.
    pub fn answered_slots(self, answer: Option<&Reply>) -> (refresh: Refresh)
        ensures
            refresh@ == slots_answered(self@, answer_view(answer)),
            refresh@.well_formed(),
    {
        proof {
            use_type_invariant(&self);
            lemma_refresh_well_formed(self@, answer_view(answer), true);
        }
        if !matches!(self.phase, RefreshPhase::Asking) {
            return self;
        }
        let built: Option<SlotMap> = match answer {
            None => None,
            Some(reply) => match build_slot_map(slots_of_reply(reply)) {
                Ok(map) => Some(map),
                Err(_) => None,
            },
        };
        let Refresh {
            samples,
            asked,
            phase,
            slots,
            masters,
            at,
            old_pool,
            new_pool,
            unreachable,
        } = self;
        match built {
            Some(map) => {
                let masters = map.masters();
                proof {
                    lemma_settled_whatever_phase(
                        RefreshView {
                            slots: map@,
                            masters: names_view(masters@),
                            at: 0,
                            unreachable: Seq::empty(),
                            ..self@
                        },
                        RefreshPhase::Finished,
                    );
                }
                Refresh::settle(
                    samples,
                    asked,
                    map,
                    masters,
                    0,
                    old_pool,
                    new_pool,
                    EndpointSet::new(),
                )
            },
            None => {
                let total = samples.len();
                let asked = asked + 1;
                let phase = if asked >= total {
                    RefreshPhase::Failed
                } else {
                    RefreshPhase::Asking
                };
                Refresh {
                    samples,
                    asked,
                    phase,
                    slots,
                    masters,
                    at,
                    old_pool,
                    new_pool,
                    unreachable,
                }
            },
        }
    }

    /// Takes in whether the pooled connection of the current master is
    /// alive.
    pub fn answered_ping(self, alive: bool) -> (refresh: Refresh)
        ensures
            refresh@ == ping_answered(self@, alive),
            refresh@.well_formed(),
    {
        proof {
            use_type_invariant(&self);
            lemma_refresh_well_formed(self@, None, alive);
        }
        if !matches!(self.phase, RefreshPhase::Checking) {
            return self;
        }
        let Refresh {
            samples,
            asked,
            phase,
            slots,
            masters,
            at,
            old_pool,
            new_pool,
            unreachable,
        } = self;
        if alive {
            proof {
                assert(masters@.len() == masters.len());
                lemma_joined(self@);
                lemma_settled_whatever_phase(joined(self@), RefreshPhase::Finished);
            }
            let mut new_pool = new_pool;
            new_pool.insert(masters[at].clone());
            Refresh::settle(
                samples,
                asked,
                slots,
                masters,
                at + 1,
                old_pool,
                new_pool,
                unreachable,
            )
        } else {
            Refresh {
                samples,
                asked,
                phase: RefreshPhase::Connecting,
                slots,
                masters,
                at,
                old_pool,
                new_pool,
                unreachable,
            }
        }
    }

    /// Takes in whether a connection to the current master could be opened.
    pub fn answered_connect(self, connected: bool) -> (refresh: Refresh)
        ensures
            refresh@ == connect_answered(self@, connected),
            refresh@.well_formed(),
    {
        proof {
            use_type_invariant(&self);
            lemma_refresh_well_formed(self@, None, connected);
        }
        if !matches!(self.phase, RefreshPhase::Connecting) {
            return self;
        }
        let Refresh {
            samples,
            asked,
            phase,
            slots,
            masters,
            at,
            old_pool,
            new_pool,
            unreachable,
        } = self;
        proof {
            assert(masters@.len() == masters.len());
            lemma_joined(self@);
            lemma_given_up(self@);
            lemma_settled_whatever_phase(joined(self@), RefreshPhase::Finished);
            lemma_settled_whatever_phase(given_up(self@), RefreshPhase::Finished);
        }
        let mut new_pool = new_pool;
        let mut unreachable = unreachable;
        if connected {
            new_pool.insert(masters[at].clone());
        } else {
            unreachable.insert(masters[at].clone());
        }
        Refresh::settle(
            samples,
            asked,
            slots,
            masters,
            at + 1,
            old_pool,
            new_pool,
            unreachable,
        )
    }

    /// The masters to which an attempt to open a connection has failed.
    pub fn unreachable(&self) -> (masters: &EndpointSet)
        ensures
            masters@ == self@.unreachable,
    {
        &self.unreachable
    }

    /// Ends the refresh.
    ///
    /// A finished refresh gives the new slot map and the new pool. Every
    /// endpoint of the pool is the master of some range. A master to which
    /// no connection could be had is left out of the pool: every master of
    /// a range is in the pool unless an attempt to open a connection to it
    /// failed. Requests for its slots are then sent over a fresh connection
    /// or a fallback, as for any owner that is not pooled.
    ///
    /// A failed refresh gives `NoConnections`: every endpoint that was
    /// pooled at the start was asked, and none gave a usable slot list.
    pub fn finish(self) -> (result: Result<(SlotMap, EndpointSet), RefreshError>)
        ensures
            match result {
                Ok((slots, connections)) => {
                    &&& self@.phase == RefreshPhase::Finished
                    &&& slots@ == self@.slots
                    &&& connections@ == self@.new_pool
                    &&& forall|i: int|
                        0 <= i < connections@.len() ==> masters_of(slots@).contains(
                            #[trigger] connections@[i],
                        )
                    &&& forall|i: int|
                        0 <= i < masters_of(slots@).len() ==> connections@.contains(
                            #[trigger] masters_of(slots@)[i],
                        ) || self@.unreachable.contains(masters_of(slots@)[i])
                },
                Err(RefreshError::NoConnections) => self@.phase == RefreshPhase::Failed
                    && self@.asked == self@.samples.len(),
                Err(RefreshError::Unfinished) => self@.phase != RefreshPhase::Finished
                    && self@.phase != RefreshPhase::Failed,
            },
    {
        proof {
            use_type_invariant(&self);
        }
        match self.phase {
            RefreshPhase::Finished => Ok((self.slots, self.new_pool)),
            RefreshPhase::Failed => Err(RefreshError::NoConnections),
            _ => Err(RefreshError::Unfinished),
        }
    }
}

} // verus!
