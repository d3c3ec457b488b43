//! One command on its way through the cluster: what was sent, where it has
//! been tried, how often, and what happens after each answer.

use crate::pool::{covered, with_name, EndpointSet};
use vstd::prelude::*;

verus! {

/// A packed command together with the window of replies that belong to it.
/// `offset` and `count` are zero for a single command and describe the
/// replies to pick from the transcript of a packed batch otherwise.
#[derive(Debug)]
pub struct CmdArg {
    pub cmd: Vec<u8>,
    pub offset: usize,
    pub count: usize,
}

impl CmdArg {
    /// Wraps a single packed command, which is answered by one reply.
    pub fn single(cmd: Vec<u8>) -> (arg: CmdArg)
        ensures
            arg.cmd == cmd,
            arg.offset == 0,
            arg.count == 0,
    {
        CmdArg { cmd, offset: 0, count: 0 }
    }

    /// Wraps a packed batch, of which the `count` replies from `offset` on
    /// are wanted.
    pub fn batch(cmd: Vec<u8>, offset: usize, count: usize) -> (arg: CmdArg)
        ensures
            arg.cmd == cmd,
            arg.offset == offset,
            arg.count == count,
    {
        CmdArg { cmd, offset, count }
    }
}

/// Which of the two operations of a node connection a command is sent
/// with.
#[derive(Debug, Clone, Copy, PartialEq, Eq, Structural)]
pub enum SendOp {
    /// Send one packed command and await one reply.
    One,
    /// Send a packed batch and await the replies in its window.
    Many,
}

/// What a caller hands to the pipeline: a command and the operation to
/// send it with.
#[derive(Debug)]
pub struct Message {
    pub cmd: CmdArg,
    pub op: SendOp,
}

impl Message {
    /// The message for a single packed command.
    pub fn one(cmd: Vec<u8>) -> (message: Message)
        ensures
            message.cmd.cmd == cmd,
            message.cmd.offset == 0,
            message.cmd.count == 0,
            message.op == SendOp::One,
    {
        Message { cmd: CmdArg::single(cmd), op: SendOp::One }
    }

    /// The message for a packed batch of which the `count` replies from
    /// `offset` on are wanted.
    pub fn many(cmd: Vec<u8>, offset: usize, count: usize) -> (message: Message)
        ensures
            message.cmd.cmd == cmd,
            message.cmd.offset == offset,
            message.cmd.count == count,
            message.op == SendOp::Many,
    {
        Message { cmd: CmdArg::batch(cmd, offset, count), op: SendOp::Many }
    }
}

/// What a node answers to a request: one value for a single command, a
/// list of values for a batch.
#[derive(Debug)]
pub enum Response<V> {
    Single(V),
    Multiple(Vec<V>),
}

impl<V> Response<V> {
    /// The operation that such a response answers.
    pub open spec fn answers(self) -> SendOp {
        match self {
            Response::Single(_) => SendOp::One,
            Response::Multiple(_) => SendOp::Many,
        }
    }

    /// The operation that the response answers.
    pub fn op(&self) -> (op: SendOp)
        ensures
            op == self.answers(),
    {
        match self {
            Response::Single(_) => SendOp::One,
            Response::Multiple(_) => SendOp::Many,
        }
    }

    /// The value of a response to a single command; `None` for a response
    /// to a batch.
    pub fn into_single(self) -> (value: Option<V>)
        ensures
            value == (match self {
                Response::Single(v) => Some(v),
                Response::Multiple(_) => None,
            }),
    {
        match self {
            Response::Single(v) => Some(v),
            Response::Multiple(_) => None,
        }
    }

    /// The values of a response to a batch; `None` for a response to a
    /// single command.
    pub fn into_multiple(self) -> (values: Option<Vec<V>>)
        ensures
            values == (match self {
                Response::Single(_) => None,
                Response::Multiple(vs) => Some(vs),
            }),
    {
        match self {
            Response::Single(_) => None,
            Response::Multiple(vs) => Some(vs),
        }
    }
}

/// Where a request stands.
#[derive(Debug, Clone, Copy, PartialEq, Eq, Structural)]
pub enum RequestState {
    /// Waiting to be sent.
    Idle,
    /// Sent; the answer is outstanding.
    InFlight,
    /// Waiting for a timer before it is sent again.
    Delayed,
}

/// What kind of error a node answered with, as far as routing cares. The
/// server's redirection and back-off codes each have a class of their own;
/// everything else is `Other`.
#[derive(Debug, Clone, Copy, PartialEq, Eq, Structural)]
pub enum ErrorClass {
    /// `MOVED`: the slot belongs to another node.
    Moved,
    /// `ASK`: the slot is migrating to another node.
    Ask,
    /// `TRYAGAIN`: the node cannot answer right now.
    TryAgain,
    /// `CLUSTERDOWN`: the cluster is not serving.
    ClusterDown,
    /// Any other error, with or without a code.
    Other,
}

impl ErrorClass {
    /// Whether the error says that the routing table is out of date.
    /// `ASK` counts as `MOVED` does: both lead to a refresh of the topology.
    pub open spec fn redirects(self) -> bool {
        self == ErrorClass::Moved || self == ErrorClass::Ask
    }

    /// Whether the error asks the caller to wait and try again.
    pub open spec fn backs_off(self) -> bool {
        self == ErrorClass::TryAgain || self == ErrorClass::ClusterDown
    }

    /// Whether the error says that the routing table is out of date.
    pub fn is_redirect(&self) -> (yes: bool)
        ensures
            yes == self.redirects(),
    {
        match self {
            ErrorClass::Moved => true,
            ErrorClass::Ask => true,
            _ => false,
        }
    }

    /// Whether the error asks the caller to wait and try again.
    pub fn is_transient(&self) -> (yes: bool)
        ensures
            yes == self.backs_off(),
    {
        match self {
            ErrorClass::TryAgain => true,
            ErrorClass::ClusterDown => true,
            _ => false,
        }
    }
}

/// The five characters `MOVED`.
pub open spec fn code_moved() -> Seq<char> {
    seq!['M', 'O', 'V', 'E', 'D']
}

/// The three characters `ASK`.
pub open spec fn code_ask() -> Seq<char> {
    seq!['A', 'S', 'K']
}

/// The eight characters `TRYAGAIN`.
pub open spec fn code_try_again() -> Seq<char> {
    seq!['T', 'R', 'Y', 'A', 'G', 'A', 'I', 'N']
}

/// The eleven characters `CLUSTERDOWN`.
pub open spec fn code_cluster_down() -> Seq<char> {
    seq!['C', 'L', 'U', 'S', 'T', 'E', 'R', 'D', 'O', 'W', 'N']
}

/// The class of an error with the given code. The code is compared as a
/// whole and letter for letter.
pub open spec fn class_of(code: Option<Seq<char>>) -> ErrorClass {
    match code {
        Some(text) => if text == code_moved() {
            ErrorClass::Moved
        } else if text == code_ask() {
            ErrorClass::Ask
        } else if text == code_try_again() {
            ErrorClass::TryAgain
        } else if text == code_cluster_down() {
            ErrorClass::ClusterDown
        } else {
            ErrorClass::Other
        },
        None => ErrorClass::Other,
    }
}

/// Whether `text` reads exactly as `literal`.
fn reads_as(text: &str, literal: &str) -> (same: bool)
    ensures
        same == (text@ == literal@),
{
    let left = text.to_owned();
    let right = literal.to_owned();
    left == right
}

/// Classifies an error by the code that the server attached to it.
pub fn classify(code: Option<&str>) -> (class: ErrorClass)
    ensures
        class == class_of(
            match code {
                Some(text) => Some(text@),
                None => None,
            },
        ),
{
    proof {
        reveal_strlit("MOVED");
        reveal_strlit("ASK");
        reveal_strlit("TRYAGAIN");
        reveal_strlit("CLUSTERDOWN");
    }
    match code {
        Some(text) => {
            assert("MOVED"@ =~= code_moved());
            assert("ASK"@ =~= code_ask());
            assert("TRYAGAIN"@ =~= code_try_again());
            assert("CLUSTERDOWN"@ =~= code_cluster_down());
            if reads_as(text, "MOVED") {
                ErrorClass::Moved
            } else if reads_as(text, "ASK") {
                ErrorClass::Ask
            } else if reads_as(text, "TRYAGAIN") {
                ErrorClass::TryAgain
            } else if reads_as(text, "CLUSTERDOWN") {
                ErrorClass::ClusterDown
            } else {
                ErrorClass::Other
            }
        },
        None => ErrorClass::Other,
    }
}

/// How an attempt to send a request ended.
#[derive(Debug, Clone, Copy, PartialEq, Eq, Structural)]
pub enum Outcome {
    /// The node answered with a value.
    Succeeded,
    /// The attempt failed with an error of the given class.
    Failed(ErrorClass),
}

/// What is to happen to a request after an attempt.
#[derive(Debug, Clone, Copy, PartialEq, Eq, Structural)]
pub enum Next {
    /// The request is finished: its result, value or error, goes to the
    /// caller.
    Done,
    /// The request is to be sent again, to another endpoint.
    TryNewConnection,
    /// The topology is out of date: it has to be refreshed before the
    /// request is sent again.
    Refresh,
    /// The request is to be sent again once `millis` milliseconds have
    /// passed.
    Sleep { millis: u64 },
}

/// Two to the power of `exponent`.
pub open spec fn power_of_two(exponent: nat) -> nat
    decreases exponent,
{
    if exponent == 0 {
        1
    } else {
        2 * power_of_two((exponent - 1) as nat)
    }
}

/// `retry` held to the range from 7 to 16.
pub open spec fn clamped_retry(retry: u32) -> nat {
    if retry < 7 {
        7
    } else if retry > 16 {
        16
    } else {
        retry as nat
    }
}

/// How long a request waits after a back-off error, in milliseconds: ten
/// times two to the power of the retry count, the count held to the range
/// from 7 to 16.
pub open spec fn backoff_millis(retry: u32) -> nat {
    power_of_two(clamped_retry(retry)) * 10
}

/// Powers of two grow with the exponent.
proof fn lemma_power_of_two_grows(low: nat, high: nat)
    requires
        low <= high,
    ensures
        power_of_two(low) <= power_of_two(high),
    decreases high,
{
    if low < high {
        lemma_power_of_two_grows(low, (high - 1) as nat);
    }
}

/// The back-off lies between 1.28 s and 655.36 s.
pub proof fn lemma_backoff_bounds(retry: u32)
    ensures
        1280 <= backoff_millis(retry) <= 655360,
{
    reveal_with_fuel(power_of_two, 17);
    lemma_power_of_two_grows(7, clamped_retry(retry));
    lemma_power_of_two_grows(clamped_retry(retry), 16);
}

/// Computes the back-off that follows retry number `retry`.
pub fn backoff(retry: u32) -> (millis: u64)
    ensures
        millis == backoff_millis(retry),
{
    let exponent: u32 = if retry < 7 {
        7
    } else if retry > 16 {
        16
    } else {
        retry
    };
    let mut power: u64 = 1;
    let mut i: u32 = 0;
    while i < exponent
        invariant
            i <= exponent <= 16,
            power == power_of_two(i as nat),
        decreases exponent - i,
    {
        proof {
            reveal_with_fuel(power_of_two, 17);
            lemma_power_of_two_grows(i as nat, 16);
        }
        power = power * 2;
        i = i + 1;
    }
    proof {
        reveal_with_fuel(power_of_two, 17);
        lemma_power_of_two_grows(exponent as nat, 16);
    }
    power * 10
}

/// Mathematical model of a `Request`.
pub struct RequestView {
    pub id: u64,
    pub cmd: Seq<u8>,
    pub offset: usize,
    pub count: usize,
    pub op: SendOp,
    pub slot: Option<u16>,
    pub excludes: Seq<Seq<char>>,
    pub retry: u32,
    pub max_retries: Option<u32>,
    pub state: RequestState,
}

/// The retry count after one more failed attempt. It stops at the largest
/// value it can hold.
pub open spec fn bumped(retry: u32) -> u32 {
    if retry == u32::MAX {
        retry
    } else {
        (retry + 1) as u32
    }
}

/// What is to happen to request `r` after the attempt at endpoint `tried`
/// ended with `outcome`, `pool` being the endpoints that are pooled.
///
/// * Success finishes the request.
/// * A failure when the retries are used up finishes it with that error.
/// * A redirection calls for a refresh of the topology.
/// * A back-off error calls for a pause.
/// * Any other error excludes the endpoint that was tried; once every
///   endpoint of the pool is excluded, the request finishes with that
///   error, and otherwise it is tried elsewhere.
pub open spec fn next_step(
    r: RequestView,
    tried: Seq<char>,
    outcome: Outcome,
    pool: Seq<Seq<char>>,
) -> Next {
    match outcome {
        Outcome::Succeeded => Next::Done,
        Outcome::Failed(class) => if r.max_retries == Some(r.retry) {
            Next::Done
        } else if class.redirects() {
            Next::Refresh
        } else if class.backs_off() {
            Next::Sleep { millis: backoff_millis(bumped(r.retry)) as u64 }
        } else if covered(pool, with_name(r.excludes, tried)) {
            Next::Done
        } else {
            Next::TryNewConnection
        },
    }
}

/// The request after that attempt. Every failure that leaves retries
/// counts as one; redirections and back-off errors forget the excluded
/// endpoints, other errors add the endpoint that was tried.
pub open spec fn request_after(r: RequestView, tried: Seq<char>, outcome: Outcome) -> RequestView {
    match outcome {
        Outcome::Succeeded => r,
        Outcome::Failed(class) => if r.max_retries == Some(r.retry) {
            r
        } else if class.redirects() {
            RequestView {
                retry: bumped(r.retry),
                excludes: Seq::empty(),
                state: RequestState::Idle,
                ..r
            }
        } else if class.backs_off() {
            RequestView {
                retry: bumped(r.retry),
                excludes: Seq::empty(),
                state: RequestState::Delayed,
                ..r
            }
        } else {
            RequestView {
                retry: bumped(r.retry),
                excludes: with_name(r.excludes, tried),
                state: RequestState::Idle,
                ..r
            }
        },
    }
}

/// One user command with its retry state.
#[derive(Debug)]
pub struct Request {
    id: u64,
    cmd: CmdArg,
    op: SendOp,
    slot: Option<u16>,
    excludes: EndpointSet,
    retry: u32,
    max_retries: Option<u32>,
    state: RequestState,
}

impl View for Request {
    type V = RequestView;

    closed spec fn view(&self) -> RequestView {
        RequestView {
            id: self.id,
            cmd: self.cmd.cmd@,
            offset: self.cmd.offset,
            count: self.cmd.count,
            op: self.op,
            slot: self.slot,
            excludes: self.excludes@,
            retry: self.retry,
            max_retries: self.max_retries,
            state: self.state,
        }
    }
}

impl Request {
    /// Makes a request that has not been tried yet: no retries so far, no
    /// endpoint excluded, waiting to be sent.
    pub fn new(id: u64, message: Message, slot: Option<u16>, max_retries: Option<u32>) -> (request:
        Request)
        ensures
            request@ == (RequestView {
                id,
                cmd: message.cmd.cmd@,
                offset: message.cmd.offset,
                count: message.cmd.count,
                op: message.op,
                slot,
                excludes: Seq::empty(),
                retry: 0,
                max_retries,
                state: RequestState::Idle,
            }),
    {
        Request {
            id,
            cmd: message.cmd,
            op: message.op,
            slot,
            excludes: EndpointSet::new(),
            retry: 0,
            max_retries,
            state: RequestState::Idle,
        }
    }

    /// The number by which the pipeline knows the request.
    pub fn id(&self) -> (id: u64)
        ensures
            id == self@.id,
    {
        self.id
    }

    /// The command to send.
    pub fn cmd(&self) -> (cmd: &CmdArg)
        ensures
            cmd.cmd@ == self@.cmd,
            cmd.offset == self@.offset,
            cmd.count == self@.count,
    {
        &self.cmd
    }

    /// The operation to send the command with.
    pub fn op(&self) -> (op: SendOp)
        ensures
            op == self@.op,
    {
        self.op
    }

    /// The slot of the command's key, if it has one.
    pub fn slot(&self) -> (slot: Option<u16>)
        ensures
            slot == self@.slot,
    {
        self.slot
    }

    /// The endpoints that the request has been tried at in vain.
    pub fn excludes(&self) -> (excludes: &EndpointSet)
        ensures
            excludes@ == self@.excludes,
    {
        &self.excludes
    }

    /// How many attempts have failed.
    pub fn retry(&self) -> (retry: u32)
        ensures
            retry == self@.retry,
    {
        self.retry
    }

    /// After how many failed attempts the request gives up; `None` for
    /// never.
    pub fn max_retries(&self) -> (max_retries: Option<u32>)
        ensures
            max_retries == self@.max_retries,
    {
        self.max_retries
    }

    /// Where the request stands.
    pub fn state(&self) -> (state: RequestState)
        ensures
            state == self@.state,
    {
        self.state
    }

    /// Marks the request as sent or as waiting.
    pub fn set_state(&mut self, state: RequestState)
        ensures
            final(self)@ == (RequestView { state, ..old(self)@ }),
    {
        self.state = state;
    }

    /// Takes in how the attempt at endpoint `tried` ended and says what is
    /// to happen next. `connections` are the endpoints that are pooled.
    pub fn poll_request(&mut self, tried: String, outcome: Outcome, connections: &EndpointSet) -> (next:
        Next)
        ensures
            next == next_step(old(self)@, tried@, outcome, connections@),
            final(self)@ == request_after(old(self)@, tried@, outcome),
    {
        match outcome {
            Outcome::Succeeded => Next::Done,
            Outcome::Failed(class) => {
                match self.max_retries {
                    Some(max_retries) => {
                        if self.retry == max_retries {
                            return Next::Done;
                        }
                    },
                    None => {},
                }
                self.retry = if self.retry == u32::MAX {
                    self.retry
                } else {
                    self.retry + 1
                };
                if class.is_redirect() {
                    self.excludes.clear();
                    self.state = RequestState::Idle;
                    return Next::Refresh;
                }
                if class.is_transient() {
                    self.excludes.clear();
                    self.state = RequestState::Delayed;
                    proof {
                        lemma_backoff_bounds(self.retry);
                    }
                    return Next::Sleep { millis: backoff(self.retry) };
                }
                self.excludes.insert(tried);
                self.state = RequestState::Idle;
                if self.excludes.covers(connections) {
                    return Next::Done;
                }
                Next::TryNewConnection
            },
        }
    }
}

/// One failed attempt: the endpoint that was tried, the class of the
/// error, and the pool at that time.
pub struct FailedAttempt {
    pub tried: Seq<char>,
    pub class: ErrorClass,
    pub pool: Seq<Seq<char>>,
}

/// The request after a series of failed attempts, or `None` once one of
/// them has finished it.
pub open spec fn after_failures(r: RequestView, attempts: Seq<FailedAttempt>) -> Option<
    RequestView,
>
    decreases attempts.len(),
{
    if attempts.len() == 0 {
        Some(r)
    } else {
        let last = attempts.last();
        match after_failures(r, attempts.drop_last()) {
            None => None,
            Some(before) => if next_step(
                before,
                last.tried,
                Outcome::Failed(last.class),
                last.pool,
            ) == Next::Done {
                None
            } else {
                Some(request_after(before, last.tried, Outcome::Failed(last.class)))
            },
        }
    }
}

/// A request that is still alive after a series of failures has counted
/// each of them, and has not gone past its limit.
proof fn lemma_failures_are_counted(r: RequestView, limit: u32, attempts: Seq<FailedAttempt>)
    requires
        r.max_retries == Some(limit),
        r.retry <= limit,
        after_failures(r, attempts) is Some,
    ensures
        after_failures(r, attempts)->Some_0.retry == r.retry + attempts.len(),
        after_failures(r, attempts)->Some_0.retry <= limit,
        after_failures(r, attempts)->Some_0.max_retries == Some(limit),
    decreases attempts.len(),
{
    if attempts.len() > 0 {
        lemma_failures_are_counted(r, limit, attempts.drop_last());
    }
}

/// With a limit of `limit` retries, no request outlives `limit + 1` failed
/// attempts, whatever the errors are: a request that has failed `r.retry`
/// times already is finished by the time `limit - r.retry + 1` more
/// attempts have failed.
pub proof fn lemma_retries_run_out(r: RequestView, limit: u32, attempts: Seq<FailedAttempt>)
    requires
        r.max_retries == Some(limit),
        r.retry <= limit,
        attempts.len() > limit - r.retry,
    ensures
        after_failures(r, attempts) is None,
{
    if after_failures(r, attempts) is Some {
        lemma_failures_are_counted(r, limit, attempts);
    }
}

/// A fresh request with a limit of `limit` retries is finished after at
/// most `limit + 1` attempts that fail.
pub proof fn lemma_fresh_request_terminates(
    r: RequestView,
    limit: u32,
    attempts: Seq<FailedAttempt>,
)
    requires
        r.max_retries == Some(limit),
        r.retry == 0,
        attempts.len() == limit + 1,
    ensures
        after_failures(r, attempts) is None,
{
    lemma_retries_run_out(r, limit, attempts);
}

/// Once every endpoint of the pool is excluded, an error that is neither
/// a redirection nor a back-off finishes the request: the error goes to
/// the caller, and the request is not tried again. As long as an endpoint
/// of the pool is left, and retries are, the request is tried elsewhere.
pub proof fn lemma_exclusion_saturates(
    r: RequestView,
    tried: Seq<char>,
    class: ErrorClass,
    pool: Seq<Seq<char>>,
)
    requires
        !class.redirects(),
        !class.backs_off(),
    ensures
        covered(pool, with_name(r.excludes, tried)) ==> next_step(
            r,
            tried,
            Outcome::Failed(class),
            pool,
        ) == Next::Done,
        !covered(pool, with_name(r.excludes, tried)) && r.max_retries != Some(r.retry)
            ==> next_step(r, tried, Outcome::Failed(class), pool) == Next::TryNewConnection,
{
}

} // verus!
