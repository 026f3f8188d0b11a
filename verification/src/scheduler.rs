//! The query scheduler: which query to send next, when to wait, which
//! answers to take, and when the run is over.
//!
//! The scheduler owns no socket. It is told what happened and at what time,
//! and answers with what to do next; whoever drives it does the sending, the
//! waiting and the receiving. Times are nanoseconds on one clock that never
//! runs backwards.

use crate::codec::{decode_id, id_of, MAX_MESSAGE_SIZE};
use crate::timing::{
    elapsed_of, lemma_elapsed_grows, lemma_elapsed_len, lemma_elapsed_none,
    lemma_elapsed_unchanged, Slot, TimingStore,
};
use crate::stats::{summarize, summary_is, Summary};
use vstd::prelude::*;

verus! {

/// The largest number of domains in one run: ids are 16-bit numbers.
pub const MAX_DOMAINS: usize = 65535;

/// The longest that one wait for an answer may last.
pub const WAIT_INTERVAL_NS: u64 = 100_000_000;

/// Nanoseconds in a millisecond.
pub const NANOS_PER_MILLI: u64 = 1_000_000;

/// Why a run cannot be set up.
#[derive(Debug, Clone, Copy, PartialEq, Eq, Structural)]
pub enum ConfigError {
    /// More domains are asked for than there are ids.
    TooManyDomains,
    /// More domains are asked for than the list holds.
    NotEnoughDomains,
    /// No query may be in flight at all.
    ZeroConcurrency,
}

/// What a run is set up with.
#[derive(Debug, Clone, Copy, PartialEq, Eq, Structural)]
pub struct Config {
    /// The number of queries of the run; their ids are `0..total_domains`.
    pub total_domains: usize,
    /// The largest number of queries that may be in flight at once.
    pub concurrency_limit: usize,
    /// How long the run goes on without an answer before it gives up.
    pub timeout_ns: u64,
}

impl Config {
    /// Every query has an id, and at least one query may be in flight.
    pub open spec fn wf(self) -> bool {
        self.total_domains <= MAX_DOMAINS && self.concurrency_limit >= 1
    }

    /// A timeout in milliseconds as nanoseconds, at most `u64::MAX`.
    pub open spec fn timeout_from_millis(timeout_ms: u64) -> u64 {
        if timeout_ms * NANOS_PER_MILLI <= u64::MAX {
            (timeout_ms * NANOS_PER_MILLI) as u64
        } else {
            u64::MAX
        }
    }

    /// The configuration for the given wishes, or the first reason against
    /// them.
    pub open spec fn checked(
        num_domains: usize,
        available_domains: usize,
        concurrency: usize,
        timeout_ms: u64,
    ) -> Result<Config, ConfigError> {
        if num_domains > MAX_DOMAINS {
            Err(ConfigError::TooManyDomains)
        } else if num_domains > available_domains {
            Err(ConfigError::NotEnoughDomains)
        } else if concurrency == 0 {
            Err(ConfigError::ZeroConcurrency)
        } else {
            Ok(
                Config {
                    total_domains: num_domains,
                    concurrency_limit: concurrency,
                    timeout_ns: Self::timeout_from_millis(timeout_ms),
                },
            )
        }
    }

    /// Checks the wishes for a run of `num_domains` domains out of a list of
    /// `available_domains`, with at most `concurrency` queries in flight and
    /// a timeout of `timeout_ms` milliseconds.
    pub fn new(
        num_domains: usize,
        available_domains: usize,
        concurrency: usize,
        timeout_ms: u64,
    ) -> (r: Result<Config, ConfigError>)
        ensures
            r == Self::checked(num_domains, available_domains, concurrency, timeout_ms),
            r matches Ok(config) ==> config.wf(),
    {
        if num_domains > MAX_DOMAINS {
            Err(ConfigError::TooManyDomains)
        } else if num_domains > available_domains {
            Err(ConfigError::NotEnoughDomains)
        } else if concurrency == 0 {
            Err(ConfigError::ZeroConcurrency)
        } else {
            let timeout_ns = match timeout_ms.checked_mul(NANOS_PER_MILLI) {
                Some(ns) => ns,
                None => u64::MAX,
            };
            Ok(Config { total_domains: num_domains, concurrency_limit: concurrency, timeout_ns })
        }
    }
}

/// Where a run stands.
#[derive(Debug, Clone, Copy, PartialEq, Eq, Structural)]
pub enum Phase {
    /// Queries are being sent while the window has room.
    Filling,
    /// The window is full or everything is sent: an answer is waited for.
    Waiting,
    /// Answers are there to be received.
    Draining,
    /// The run is over.
    Done,
}

/// What the scheduler asks for.
#[derive(Debug, Clone, Copy, PartialEq, Eq, Structural)]
pub enum Action {
    /// Send the query with this id. Its start time is already recorded.
    Send { id: u16 },
    /// Wait until the socket is readable, but no longer than
    /// `WAIT_INTERVAL_NS`.
    Wait,
    /// Try to receive one datagram without blocking.
    Receive,
    /// Stop: the run is over.
    Stop,
}

/// What became of a datagram.
#[derive(Debug, Clone, Copy, PartialEq, Eq, Structural)]
pub enum Verdict {
    /// It answers the query with this id, and was counted.
    Accepted(u16),
    /// It came while the scheduler was not receiving.
    OutOfTurn,
    /// It holds no byte.
    Empty,
    /// It is larger than a message can be.
    Oversized,
    /// It is too short to hold an id.
    Truncated,
    /// Its id belongs to no query of this run.
    UnknownId,
    /// Its id belongs to a query that has not been sent.
    Unsent,
    /// Its query has been answered before.
    Duplicate,
}

/// What the scheduler is told.
#[derive(Debug, Clone, Copy)]
pub enum Event<'a> {
    /// The wait is over; the socket is readable or the time ran out.
    Waited { readable: bool },
    /// A datagram was received.
    Datagram(&'a [u8]),
    /// Nothing more can be received for now.
    WouldBlock,
}

/// The state of a run.
pub struct RunState {
    pub config: Config,
    /// The timing record of each query.
    pub slots: Seq<Slot>,
    /// The id of the next query to send; every id below it has been sent.
    pub next_unsent: nat,
    /// The number of queries sent and not answered.
    pub outstanding: nat,
    /// The number of queries answered.
    pub completed: nat,
    /// When the run began or, if later, when the last answer was taken.
    pub last_progress: u64,
    /// The latest time recorded anywhere in the run.
    pub latest: u64,
    pub phase: Phase,
}

impl RunState {
    /// The state of a run that is about to begin at `now`. A run of no
    /// domains is over at once.
    pub open spec fn fresh(config: Config, now: u64) -> RunState {
        RunState {
            config,
            slots: Seq::new(config.total_domains as nat, |i: int| Slot::unset()),
            next_unsent: 0,
            outstanding: 0,
            completed: 0,
            last_progress: now,
            latest: now,
            phase: if config.total_domains == 0 {
                Phase::Done
            } else {
                Phase::Filling
            },
        }
    }

    /// What holds of every state of a run. The queries sent are those below
    /// `next_unsent`; an answer is recorded only for a query that was sent,
    /// and no earlier than it was sent; the counters count what the records
    /// show; and no more queries are in flight than the limit allows.
    pub open spec fn wf(self) -> bool {
        &&& self.config.wf()
        &&& self.slots.len() == self.config.total_domains
        &&& self.next_unsent <= self.config.total_domains
        &&& forall|i: int|
            0 <= i < self.slots.len() ==> {
                let slot = #[trigger] self.slots[i];
                &&& slot.start is Some <==> i < self.next_unsent
                &&& slot.wf()
                &&& slot.start is Some ==> slot.start->0 <= self.latest
                &&& slot.end is Some ==> slot.end->0 <= self.latest
            }
        &&& self.completed == elapsed_of(self.slots).len()
        &&& self.outstanding + self.completed == self.next_unsent
        &&& self.outstanding <= self.config.concurrency_limit
        &&& self.last_progress <= self.latest
    }

    /// More than the timeout has passed at `now` since the last progress.
    pub open spec fn expired(self, now: u64) -> bool {
        now - self.last_progress > self.config.timeout_ns
    }

    /// Every query is answered, or the timeout has passed.
    pub open spec fn finished(self, now: u64) -> bool {
        self.completed == self.config.total_domains || self.expired(now)
    }

    /// The start of a new round at `now`: the run ends here if it is
    /// finished, and goes on to send otherwise.
    pub open spec fn begin_tick(self, now: u64) -> RunState {
        RunState {
            phase: if self.finished(now) {
                Phase::Done
            } else {
                Phase::Filling
            },
            ..self
        }
    }

    /// The window has room and a query is left to send.
    pub open spec fn can_send(self) -> bool {
        self.outstanding < self.config.concurrency_limit && self.next_unsent
            < self.config.total_domains
    }

    /// Every query has been sent.
    pub open spec fn finished_sending(self) -> bool {
        self.next_unsent == self.config.total_domains
    }

    /// The state after the next query has been handed out at `now`.
    pub open spec fn send(self, now: u64) -> RunState {
        RunState {
            slots: self.slots.update(
                self.next_unsent as int,
                Slot { start: Some(now), end: None },
            ),
            next_unsent: self.next_unsent + 1,
            outstanding: self.outstanding + 1,
            latest: now,
            ..self
        }
    }

    /// What to do next at `now`, and the state in which it is done.
    pub open spec fn decide(self, now: u64) -> (RunState, Action) {
        match self.phase {
            Phase::Filling => if self.can_send() {
                (self.send(now), Action::Send { id: self.next_unsent as u16 })
            } else {
                (RunState { phase: Phase::Waiting, ..self }, Action::Wait)
            },
            Phase::Waiting => (self, Action::Wait),
            Phase::Draining => (self, Action::Receive),
            Phase::Done => (self, Action::Stop),
        }
    }

    /// What becomes of a datagram in this state.
    pub open spec fn verdict(self, datagram: Seq<u8>) -> Verdict {
        if self.phase != Phase::Draining {
            Verdict::OutOfTurn
        } else if datagram.len() == 0 {
            Verdict::Empty
        } else if datagram.len() > MAX_MESSAGE_SIZE {
            Verdict::Oversized
        } else if datagram.len() < 2 {
            Verdict::Truncated
        } else {
            let id = id_of(datagram)->0;
            if id >= self.config.total_domains {
                Verdict::UnknownId
            } else if self.slots[id as int].start is None {
                Verdict::Unsent
            } else if self.slots[id as int].end is Some {
                Verdict::Duplicate
            } else {
                Verdict::Accepted(id)
            }
        }
    }

    /// The state after a datagram came at `now`: an accepted one completes
    /// the record of its query and counts as progress, any other changes
    /// nothing.
    pub open spec fn receive(self, datagram: Seq<u8>, now: u64) -> RunState {
        match self.verdict(datagram) {
            Verdict::Accepted(id) => RunState {
                slots: self.slots.update(
                    id as int,
                    Slot { start: self.slots[id as int].start, end: Some(now) },
                ),
                outstanding: (self.outstanding - 1) as nat,
                completed: self.completed + 1,
                last_progress: now,
                latest: now,
                ..self
            },
            _ => self,
        }
    }

    /// The state after a wait ended at `now`. While waiting, a readable
    /// socket leads to receiving and a wait that ran out to a new round;
    /// in any other phase nothing changes.
    pub open spec fn wait_over(self, readable: bool, now: u64) -> RunState {
        if self.phase != Phase::Waiting {
            self
        } else if readable {
            RunState { phase: Phase::Draining, ..self }
        } else {
            self.begin_tick(now)
        }
    }

    /// The state after the socket had nothing more at `now`: while
    /// receiving, a new round begins; in any other phase nothing changes.
    pub open spec fn drained(self, now: u64) -> RunState {
        if self.phase != Phase::Draining {
            self
        } else {
            self.begin_tick(now)
        }
    }

    /// The state after `event` happened at `now`.
    pub open spec fn apply(self, event: Event, now: u64) -> RunState {
        match event {
            Event::Waited { readable } => self.wait_over(readable, now),
            Event::Datagram(datagram) => self.receive(datagram@, now),
            Event::WouldBlock => self.drained(now),
        }
    }

    /// The state after `event` happened at `now` and the next action was
    /// chosen, and that action.
    pub open spec fn step(self, event: Event, now: u64) -> (RunState, Action) {
        self.apply(event, now).decide(now)
    }

    /// `event` answers what the scheduler last asked for.
    pub open spec fn expects(self, event: Event) -> bool {
        match event {
            Event::Waited { .. } => self.phase == Phase::Waiting,
            Event::Datagram(_) => self.phase == Phase::Draining,
            Event::WouldBlock => self.phase == Phase::Draining,
        }
    }

    /// The run is within its time at `now`, where no wait lasts longer than
    /// `wait`: before a wait the timeout has not passed, and while answers
    /// are received it has passed by no more than one wait.
    pub open spec fn on_time(self, now: u64, wait: u64) -> bool {
        match self.phase {
            Phase::Filling | Phase::Waiting => now <= self.last_progress + self.config.timeout_ns,
            Phase::Draining => now <= self.last_progress + self.config.timeout_ns + wait,
            Phase::Done => true,
        }
    }
}

/// A run starts well-formed and within its time.
pub proof fn lemma_fresh_wf(config: Config, now: u64, wait: u64)
    requires
        config.wf(),
    ensures
        RunState::fresh(config, now).wf(),
        RunState::fresh(config, now).on_time(now, wait),
{
    let s = RunState::fresh(config, now);
    lemma_elapsed_none(s.slots);
}

/// Choosing the next action keeps the state well-formed: in particular no
/// more queries are in flight afterwards than the limit allows.
pub proof fn lemma_decide_wf(s: RunState, now: u64)
    requires
        s.wf(),
        s.latest <= now,
    ensures
        s.decide(now).0.wf(),
        s.decide(now).0.latest <= now,
        s.decide(now).0.outstanding <= s.config.concurrency_limit,
{
    if s.phase == Phase::Filling && s.can_send() {
        let id = s.next_unsent as int;
        let slot = Slot { start: Some(now), end: None };
        assert(s.slots[id].wf());
        lemma_elapsed_unchanged(s.slots, id, slot);
    }
}

/// An event keeps the state well-formed: in particular no more queries are
/// in flight afterwards than the limit allows.
pub proof fn lemma_apply_wf(s: RunState, event: Event, now: u64)
    requires
        s.wf(),
        s.latest <= now,
    ensures
        s.apply(event, now).wf(),
        s.apply(event, now).latest <= now,
        s.apply(event, now).outstanding <= s.config.concurrency_limit,
{
    match event {
        Event::Datagram(datagram) => {
            lemma_receive_wf(s, datagram@, now);
        },
        _ => {},
    }
}

/// A datagram keeps the state well-formed. One that is accepted takes one
/// query out of flight and counts one more as answered.
pub proof fn lemma_receive_wf(s: RunState, datagram: Seq<u8>, now: u64)
    requires
        s.wf(),
        s.latest <= now,
    ensures
        s.receive(datagram, now).wf(),
        s.receive(datagram, now).latest <= now,
        s.verdict(datagram) is Accepted ==> {
            &&& s.outstanding >= 1
            &&& s.receive(datagram, now).outstanding == s.outstanding - 1
            &&& s.receive(datagram, now).completed == s.completed + 1
        },
{
    match s.verdict(datagram) {
        Verdict::Accepted(id) => {
            let slot = Slot { start: s.slots[id as int].start, end: Some(now) };
            assert(s.slots[id as int].wf());
            lemma_elapsed_grows(s.slots, id as int, slot);
            lemma_elapsed_len(s.slots.update(id as int, slot));
            lemma_outstanding_positive(s, id as int);
        },
        _ => {},
    }
}

/// A query that was sent and has no answer yet is in flight.
proof fn lemma_outstanding_positive(s: RunState, id: int)
    requires
        s.wf(),
        0 <= id < s.slots.len(),
        s.slots[id].start is Some,
        s.slots[id].end is None,
    ensures
        s.outstanding >= 1,
{
    lemma_elapsed_below(s.slots, s.next_unsent as int, id);
}

/// Where only the first `sent` records have a start and one of them has no
/// end, fewer than `sent` records are complete.
proof fn lemma_elapsed_below(slots: Seq<Slot>, sent: int, id: int)
    requires
        0 <= id < sent <= slots.len(),
        forall|i: int| sent <= i < slots.len() ==> (#[trigger] slots[i]).start is None,
        slots[id].end is None,
    ensures
        elapsed_of(slots).len() < sent,
    decreases slots.len(),
{
    if slots.len() > sent {
        lemma_elapsed_below(slots.drop_last(), sent, id);
    } else if id == slots.len() - 1 {
        lemma_elapsed_len(slots.drop_last());
    } else {
        let front = slots.drop_last();
        assert(front[id] == slots[id]);
        lemma_elapsed_below(front, sent - 1, id);
    }
}

/// One step keeps the state well-formed: at every point of a run between 0
/// and `concurrency_limit` queries are in flight.
pub proof fn lemma_step_wf(s: RunState, event: Event, now: u64)
    requires
        s.wf(),
        s.latest <= now,
    ensures
        s.step(event, now).0.wf(),
        s.step(event, now).0.latest <= now,
        0 <= s.step(event, now).0.outstanding <= s.config.concurrency_limit,
{
    lemma_apply_wf(s, event, now);
    lemma_decide_wf(s.apply(event, now), now);
}

/// After a step the phase tells which action was chosen.
pub proof fn lemma_action_of_phase(s: RunState, now: u64)
    ensures
        ({
            let (after, action) = s.decide(now);
            match after.phase {
                Phase::Filling => action is Send,
                Phase::Waiting => action == Action::Wait,
                Phase::Draining => action == Action::Receive,
                Phase::Done => action == Action::Stop,
            }
        }),
{
}

/// A run ends on time. Let time pass only while the scheduler waits, and
/// let no wait last longer than `wait`. Then a run that is within its time
/// is so after every step, and a run within its time is over or no more
/// than the timeout and one wait have passed since its last progress:
/// whether or not an answer ever comes.
pub proof fn lemma_step_on_time(s: RunState, event: Event, before: u64, now: u64, wait: u64)
    requires
        s.wf(),
        s.on_time(before, wait),
        s.expects(event),
        before <= now,
        event is Waited ==> now - before <= wait,
        !(event is Waited) ==> now == before,
    ensures
        s.step(event, now).0.on_time(now, wait),
        s.step(event, now).0.phase != Phase::Done ==> now <= s.step(event, now).0.last_progress
            + s.config.timeout_ns + wait,
{
}

/// Choosing the next action takes no time and leaves a run within its time.
pub proof fn lemma_decide_on_time(s: RunState, now: u64, wait: u64)
    requires
        s.on_time(now, wait),
    ensures
        s.decide(now).0.on_time(now, wait),
{
}

/// A tick that comes after the timeout has passed ends the run, whatever
/// has or has not been answered.
pub proof fn lemma_tick_after_timeout(s: RunState, now: u64)
    requires
        now - s.last_progress > s.config.timeout_ns,
    ensures
        s.begin_tick(now).phase == Phase::Done,
        s.phase == Phase::Waiting ==> s.step(Event::Waited { readable: false }, now).1
            == Action::Stop,
        s.phase == Phase::Draining ==> s.step(Event::WouldBlock, now).1 == Action::Stop,
{
}

/// Of two datagrams with the same id only the first counts. The first
/// takes its query out of flight and counts it as answered; the second
/// is not accepted and changes nothing.
pub proof fn lemma_duplicate_ignored(
    s: RunState,
    first: Seq<u8>,
    second: Seq<u8>,
    t1: u64,
    t2: u64,
)
    requires
        s.wf(),
        s.verdict(first) is Accepted,
        id_of(second) == id_of(first),
    ensures
        s.receive(first, t1).outstanding == s.outstanding - 1,
        s.receive(first, t1).completed == s.completed + 1,
        !(s.receive(first, t1).verdict(second) is Accepted),
        s.receive(first, t1).receive(second, t2) == s.receive(first, t1),
{
    let id = s.verdict(first)->Accepted_0;
    assert(s.slots[id as int].wf());
    lemma_outstanding_positive(s, id as int);
}

/// What is recorded stays. No step changes the start or the end of a query
/// once it is set: a complete record is never written again, and no query is
/// sent twice.
pub proof fn lemma_records_are_final(s: RunState, event: Event, now: u64, id: int)
    requires
        s.wf(),
        0 <= id < s.slots.len(),
    ensures
        ({
            let after = s.step(event, now).0;
            &&& after.slots.len() == s.slots.len()
            &&& s.slots[id].start is Some ==> after.slots[id].start == s.slots[id].start
            &&& s.slots[id].end is Some ==> after.slots[id].end == s.slots[id].end
            &&& s.slots[id].is_complete() ==> after.slots[id] == s.slots[id]
        }),
{
    let applied = s.apply(event, now);
    assert(s.slots[id].wf());
    assert(applied.slots.len() == s.slots.len());
    assert(applied.next_unsent == s.next_unsent);
    assert(s.slots[id].start is Some ==> applied.slots[id].start == s.slots[id].start);
    assert(s.slots[id].end is Some ==> applied.slots[id].end == s.slots[id].end);
}

/// The time at the end of `trace`, which began at `began`.
pub open spec fn time_after(began: u64, trace: Seq<(Event, u64)>) -> u64 {
    if trace.len() == 0 {
        began
    } else {
        trace.last().1
    }
}

/// The state after the events of `trace` happened one after the other, each
/// at its time, and after each the next action was chosen.
pub open spec fn run(s: RunState, trace: Seq<(Event, u64)>) -> RunState
    decreases trace.len(),
{
    if trace.len() == 0 {
        s
    } else {
        run(s, trace.drop_last()).step(trace.last().0, trace.last().1).0
    }
}

/// `trace`, begun at `began` in state `s`, is what a driver reports that
/// does as it is asked: every event answers the last action; time never
/// runs backwards; no wait lasts longer than `wait`; and nothing else takes
/// any time.
pub open spec fn orderly(s: RunState, began: u64, trace: Seq<(Event, u64)>, wait: u64) -> bool
    decreases trace.len(),
{
    if trace.len() == 0 {
        true
    } else {
        let front = trace.drop_last();
        let before = time_after(began, front);
        let event = trace.last().0;
        let now = trace.last().1;
        &&& orderly(s, began, front, wait)
        &&& run(s, front).expects(event)
        &&& before <= now
        &&& event is Waited ==> now - before <= wait
        &&& !(event is Waited) ==> now == before
    }
}

/// A run ends on time, whatever the server does. Throughout an orderly
/// trace the state stays well-formed, and at its end the run is over or no
/// more than the timeout and one wait have passed since the last progress.
pub proof fn lemma_run_ends_on_time(s: RunState, began: u64, trace: Seq<(Event, u64)>, wait: u64)
    requires
        s.wf(),
        s.latest <= began,
        s.on_time(began, wait),
        orderly(s, began, trace, wait),
    ensures
        run(s, trace).wf(),
        run(s, trace).config == s.config,
        run(s, trace).latest <= time_after(began, trace),
        run(s, trace).on_time(time_after(began, trace), wait),
        run(s, trace).phase != Phase::Done ==> time_after(began, trace) <= run(
            s,
            trace,
        ).last_progress + s.config.timeout_ns + wait,
    decreases trace.len(),
{
    if trace.len() > 0 {
        let front = trace.drop_last();
        lemma_run_ends_on_time(s, began, front, wait);
        let middle = run(s, front);
        let event = trace.last().0;
        let now = trace.last().1;
        lemma_step_wf(middle, event, now);
        lemma_step_on_time(middle, event, time_after(began, front), now, wait);
    }
}

/// The scheduler of one run.
pub struct Scheduler {
    config: Config,
    store: TimingStore,
    next_unsent: usize,
    outstanding: usize,
    completed: usize,
    last_progress: u64,
    latest: u64,
    phase: Phase,
}

impl View for Scheduler {
    type V = RunState;

    closed spec fn view(&self) -> RunState {
        RunState {
            config: self.config,
            slots: self.store@,
            next_unsent: self.next_unsent as nat,
            outstanding: self.outstanding as nat,
            completed: self.completed as nat,
            last_progress: self.last_progress,
            latest: self.latest,
            phase: self.phase,
        }
    }
}

impl Scheduler {
    /// The state is one that a run can be in.
    pub open spec fn wf(&self) -> bool {
        self@.wf()
    }

    /// The scheduler of a run that begins at `now`.
    pub fn new(config: Config, now: u64) -> (r: Self)
        requires
            config.wf(),
        ensures
            r.wf(),
            r@ == RunState::fresh(config, now),
    {
        let store = TimingStore::new(config.total_domains);
        let phase = if config.total_domains == 0 {
            Phase::Done
        } else {
            Phase::Filling
        };
        let r = Scheduler {
            config,
            store,
            next_unsent: 0,
            outstanding: 0,
            completed: 0,
            last_progress: now,
            latest: now,
            phase,
        };
        proof {
            lemma_fresh_wf(config, now, 0);
            assert(r@.slots =~= RunState::fresh(config, now).slots);
        }
        r
    }

    /// What the run was set up with.
    pub fn config(&self) -> (r: Config)
        ensures
            r == self@.config,
    {
        self.config
    }

    /// Where the run stands.
    pub fn phase(&self) -> (r: Phase)
        ensures
            r == self@.phase,
    {
        self.phase
    }

    /// Whether the run is over.
    pub fn is_done(&self) -> (r: bool)
        ensures
            r == (self@.phase == Phase::Done),
    {
        match self.phase {
            Phase::Done => true,
            _ => false,
        }
    }

    /// The number of queries sent and not answered.
    pub fn outstanding(&self) -> (r: usize)
        ensures
            r == self@.outstanding,
    {
        self.outstanding
    }

    /// The number of queries answered.
    pub fn completed(&self) -> (r: usize)
        ensures
            r == self@.completed,
    {
        self.completed
    }

    /// The number of queries sent.
    pub fn sent(&self) -> (r: usize)
        ensures
            r == self@.next_unsent,
    {
        self.next_unsent
    }

    /// Whether every query has been sent.
    pub fn finished_sending(&self) -> (r: bool)
        ensures
            r == self@.finished_sending(),
    {
        self.next_unsent == self.config.total_domains
    }

    /// When the run began or, if later, when the last answer was taken.
    pub fn last_progress(&self) -> (r: u64)
        ensures
            r == self@.last_progress,
    {
        self.last_progress
    }

    /// The latest time recorded in the run. No event may be reported with an
    /// earlier time.
    pub fn latest(&self) -> (r: u64)
        ensures
            r == self@.latest,
    {
        self.latest
    }

    /// The timing table of the run.
    pub fn store(&self) -> (r: &TimingStore)
        ensures
            r@ == self@.slots,
            self.wf() ==> r.wf(),
    {
        proof {
            if self.wf() {
                assert forall|i: int| 0 <= i < self.store@.len() implies (
                #[trigger] self.store@[i]).wf() by {
                    assert(self@.slots[i].wf());
                }
            }
        }
        &self.store
    }

    /// Starts a new round at `now`.
    fn begin_tick(&mut self, now: u64)
        requires
            old(self).wf(),
            old(self)@.latest <= now,
        ensures
            final(self)@ == old(self)@.begin_tick(now),
    {
        if self.completed == self.config.total_domains || now - self.last_progress
            > self.config.timeout_ns {
            self.phase = Phase::Done;
        } else {
            self.phase = Phase::Filling;
        }
    }

    /// Chooses what to do next at `now`. While the window has room and a
    /// query is left, that query's start is recorded and it is handed out to
    /// be sent; then the scheduler waits, receives while there is something
    /// to receive, and stops once the run is over.
    pub fn decide(&mut self, now: u64) -> (action: Action)
        requires
            old(self).wf(),
            old(self)@.latest <= now,
        ensures
            final(self).wf(),
            final(self)@ == old(self)@.decide(now).0,
            action == old(self)@.decide(now).1,
            final(self)@.latest <= now,
    {
        proof {
            lemma_decide_wf(self@, now);
        }
        match self.phase {
            Phase::Filling => {
                if self.outstanding < self.config.concurrency_limit && self.next_unsent
                    < self.config.total_domains {
                    let id = self.next_unsent;
                    assert(self@.slots[id as int].wf());
                    let recorded = self.store.record_start(id, now);
                    assert(recorded);
                    self.next_unsent = id + 1;
                    self.outstanding = self.outstanding + 1;
                    self.latest = now;
                    Action::Send { id: id as u16 }
                } else {
                    self.phase = Phase::Waiting;
                    Action::Wait
                }
            },
            Phase::Waiting => Action::Wait,
            Phase::Draining => Action::Receive,
            Phase::Done => Action::Stop,
        }
    }

    /// Takes note that a wait ended at `now`, with the socket readable or
    /// not.
    pub fn wait_over(&mut self, readable: bool, now: u64)
        requires
            old(self).wf(),
            old(self)@.latest <= now,
        ensures
            final(self).wf(),
            final(self)@ == old(self)@.wait_over(readable, now),
    {
        match self.phase {
            Phase::Waiting => {
                if readable {
                    self.phase = Phase::Draining;
                } else {
                    self.begin_tick(now);
                }
            },
            _ => {},
        }
    }

    /// Takes note that nothing more can be received at `now`.
    pub fn drained(&mut self, now: u64)
        requires
            old(self).wf(),
            old(self)@.latest <= now,
        ensures
            final(self).wf(),
            final(self)@ == old(self)@.drained(now),
    {
        match self.phase {
            Phase::Draining => {
                self.begin_tick(now);
            },
            _ => {},
        }
    }

    /// Takes a datagram that came at `now`. It is counted where the
    /// scheduler is receiving, the datagram holds between 2 and
    /// `MAX_MESSAGE_SIZE` bytes, and its id is that of a query that was sent
    /// and has no answer yet: then the answer time of that query is recorded,
    /// one query less is in flight, one more is answered, and `now` is the
    /// time of the last progress. Any other datagram is dropped and changes
    /// nothing.
    pub fn on_datagram(&mut self, datagram: &[u8], now: u64) -> (verdict: Verdict)
        requires
            old(self).wf(),
            old(self)@.latest <= now,
        ensures
            final(self).wf(),
            verdict == old(self)@.verdict(datagram@),
            final(self)@ == old(self)@.receive(datagram@, now),
            final(self)@.latest <= now,
    {
        proof {
            lemma_receive_wf(self@, datagram@, now);
        }
        match self.phase {
            Phase::Draining => {},
            _ => {
                return Verdict::OutOfTurn;
            },
        }
        if datagram.len() == 0 {
            return Verdict::Empty;
        }
        if datagram.len() > MAX_MESSAGE_SIZE {
            return Verdict::Oversized;
        }
        let id = match decode_id(datagram) {
            None => {
                return Verdict::Truncated;
            },
            Some(id) => id,
        };
        let index = id as usize;
        match self.store.slot(index) {
            None => Verdict::UnknownId,
            Some(slot) => {
                if slot.start.is_none() {
                    Verdict::Unsent
                } else if slot.end.is_some() {
                    Verdict::Duplicate
                } else {
                    assert(self@.slots[index as int].wf());
                    let recorded = self.store.record_end(index, now);
                    assert(recorded);
                    self.outstanding = self.outstanding - 1;
                    self.completed = self.completed + 1;
                    self.last_progress = now;
                    self.latest = now;
                    Verdict::Accepted(id)
                }
            },
        }
    }

    /// Takes note of `event` at `now` and chooses what to do next.
    pub fn step(&mut self, event: Event, now: u64) -> (action: Action)
        requires
            old(self).wf(),
            old(self)@.latest <= now,
        ensures
            final(self).wf(),
            final(self)@ == old(self)@.step(event, now).0,
            action == old(self)@.step(event, now).1,
            final(self)@.latest <= now,
    {
        match event {
            Event::Waited { readable } => {
                self.wait_over(readable, now);
            },
            Event::Datagram(datagram) => {
                let _ = self.on_datagram(datagram, now);
            },
            Event::WouldBlock => {
                self.drained(now);
            },
        }
        self.decide(now)
    }

    /// The statistics of the run as it stands: those of the elapsed times of
    /// the queries that were answered. There are none while no query has
    /// been answered. The samples are the answered queries and no others,
    /// and every other query of the run is counted as unanswered.
    pub fn summary(&self) -> (r: Option<Summary>)
        requires
            self.wf(),
        ensures
            summary_is(r, elapsed_of(self@.slots), self@.config.total_domains as nat),
            r is None <==> self@.completed == 0,
            r matches Some(summary) ==> summary.n_samples == self@.completed
                && summary.n_unanswered == self@.config.total_domains - self@.completed,
    {
        proof {
            lemma_elapsed_len(self@.slots);
        }
        let samples = self.store().elapsed();
        summarize(samples, self.config.total_domains)
    }
}

} // verus!
