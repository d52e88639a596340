//! Admission control for the probes of one scan.
//!
//! The scheduler walks the port range once. It hands out a port only while
//! fewer probes are under way than the concurrency ceiling allows, and takes
//! a unit back when the outcome of a probe has been recorded and counted. It
//! performs no probe itself: the caller carries out each [`Action`] and
//! reports each completion.
//!
//! [`ScanState`] describes the scheduler as a state machine, and the lemmas
//! below it state what holds of every state that a scan can reach.

use crate::aggregate::{aggregate, distinct_ports, strictly_ascending, summarize, ScanResult};
use crate::probe::ProbeOutcome;
use crate::progress::ProgressCounter;
use crate::request::{RequestView, ScanRequest};
use vstd::prelude::*;

verus! {

/// What the caller has to do next.
#[derive(Clone, Copy, Debug, PartialEq, Eq, Structural)]
pub enum Action {
    /// Start a probe of this port. A concurrency unit has been taken for it.
    Dispatch(u16),
    /// Every unit is in use, or every port has been handed out: wait until a
    /// probe under way completes, and report it.
    AwaitCompletion,
    /// Every port of the range has its outcome.
    Finished,
}

/// What can happen to a scan.
pub enum Event {
    /// The scheduler is asked for the next port.
    Dispatch,
    /// The probe of `port` has ended and found it open or not.
    Completed { port: u16, open: bool },
}

/// The state of a scan.
pub struct ScanState {
    /// First port of the range.
    pub first_port: u16,
    /// Number of ports in the range.
    pub total: nat,
    /// The concurrency ceiling.
    pub ceiling: nat,
    /// How many ports have been handed out, from the first port upwards.
    pub dispatched: nat,
    /// The ports whose probes hold a concurrency unit.
    pub in_flight: Set<u16>,
    /// The outcomes recorded so far, in the order in which they arrived.
    pub outcomes: Seq<ProbeOutcome>,
    /// The value of the progress counter.
    pub progress: nat,
}

impl ScanState {
    /// The state before the first port is handed out.
    pub open spec fn init(first_port: u16, total: nat, ceiling: nat) -> ScanState {
        ScanState {
            first_port,
            total,
            ceiling,
            dispatched: 0,
            in_flight: Set::empty(),
            outcomes: Seq::empty(),
            progress: 0,
        }
    }

    /// The state in which the scan of a request starts.
    pub open spec fn of_request(request: RequestView) -> ScanState {
        ScanState::init(request.start_port, request.total_ports(), request.concurrency as nat)
    }

    /// Whether `port` belongs to the range.
    pub open spec fn in_range(self, port: u16) -> bool {
        self.first_port <= port < self.first_port + self.total
    }

    /// Whether `port` has been handed out.
    pub open spec fn was_dispatched(self, port: u16) -> bool {
        self.first_port <= port < self.first_port + self.dispatched
    }

    /// Whether an outcome has been recorded for `port`.
    pub open spec fn has_outcome(self, port: u16) -> bool {
        exists|k: int| 0 <= k < self.outcomes.len() && (#[trigger] self.outcomes[k]).port == port
    }

    /// What holds of every state a scan can reach.
    ///
    /// The units in use never exceed the ceiling. Every port handed out is
    /// either under way or has its outcome, never both, and no port has two
    /// outcomes. The counter equals the number of outcomes.
    pub open spec fn consistent(self) -> bool {
        &&& self.ceiling >= 1
        &&& self.first_port + self.total <= 0x1_0000
        &&& self.dispatched <= self.total
        &&& self.in_flight.finite()
        &&& self.in_flight.len() <= self.ceiling
        &&& self.in_flight.len() + self.outcomes.len() == self.dispatched
        &&& self.progress == self.outcomes.len()
        &&& distinct_ports(self.outcomes)
        &&& forall|port: u16| #[trigger]
            self.in_flight.contains(port) ==> self.was_dispatched(port) && !self.has_outcome(port)
        &&& forall|k: int|
            0 <= k < self.outcomes.len() ==> self.was_dispatched((#[trigger] self.outcomes[k]).port)
        &&& forall|port: u16| #[trigger]
            self.was_dispatched(port) ==> self.in_flight.contains(port) || self.has_outcome(port)
    }

    /// Whether a port is left and a unit is free for it.
    pub open spec fn can_dispatch(self) -> bool {
        self.dispatched < self.total && self.in_flight.len() < self.ceiling
    }

    /// The port that is handed out next.
    pub open spec fn next_port(self) -> u16 {
        (self.first_port + self.dispatched) as u16
    }

    /// Takes a unit for the next port and hands the port out.
    pub open spec fn dispatch(self) -> ScanState {
        ScanState {
            dispatched: self.dispatched + 1,
            in_flight: self.in_flight.insert(self.next_port()),
            ..self
        }
    }

    /// Whether a probe of `port` is under way.
    pub open spec fn can_complete(self, port: u16) -> bool {
        self.in_flight.contains(port)
    }

    /// Records the outcome of `port`: the first step of a completion.
    pub open spec fn record(self, port: u16, open: bool) -> ScanState {
        ScanState { outcomes: self.outcomes.push(ProbeOutcome { port, open }), ..self }
    }

    /// Counts one finished probe: the second step of a completion.
    pub open spec fn count(self) -> ScanState {
        ScanState { progress: self.progress + 1, ..self }
    }

    /// Gives back the unit that the probe of `port` held: the last step of a
    /// completion.
    pub open spec fn release(self, port: u16) -> ScanState {
        ScanState { in_flight: self.in_flight.remove(port), ..self }
    }

    /// A completion: the outcome of `port` is recorded, then counted, and
    /// only then is its unit given back.
    pub open spec fn complete(self, port: u16, open: bool) -> ScanState {
        self.record(port, open).count().release(port)
    }

    /// The state after `event`. An event that cannot take place (no port or
    /// no unit left to dispatch; the completion of a probe that is not under
    /// way) changes nothing.
    pub open spec fn apply(self, event: Event) -> ScanState {
        match event {
            Event::Dispatch => if self.can_dispatch() {
                self.dispatch()
            } else {
                self
            },
            Event::Completed { port, open } => if self.can_complete(port) {
                self.complete(port, open)
            } else {
                self
            },
        }
    }

    /// The state after a sequence of events.
    pub open spec fn run(self, events: Seq<Event>) -> ScanState
        decreases events.len(),
    {
        if events.len() == 0 {
            self
        } else {
            self.run(events.drop_last()).apply(events.last())
        }
    }

    /// Whether every port has been handed out and no probe is under way.
    pub open spec fn finished(self) -> bool {
        self.dispatched == self.total && self.in_flight.len() == 0
    }

    /// What the caller has to do in this state.
    pub open spec fn next_action(self) -> Action {
        if self.can_dispatch() {
            Action::Dispatch(self.next_port())
        } else if self.in_flight.len() > 0 {
            Action::AwaitCompletion
        } else {
            Action::Finished
        }
    }

    /// An upper bound on the events that still change the state: each port
    /// not yet handed out needs two, each probe under way one.
    pub open spec fn remaining_steps(self) -> nat {
        (2 * (self.total - self.dispatched) + self.in_flight.len()) as nat
    }
}

/// A scan starts in a state that satisfies the invariant.
pub proof fn lemma_init_invariant(first_port: u16, total: nat, ceiling: nat)
    requires
        ceiling >= 1,
        first_port + total <= 0x1_0000,
    ensures
        ScanState::init(first_port, total, ceiling).consistent(),
{
}

/// Handing out a port keeps the invariant. It takes exactly one unit, leaves
/// outcomes and counter alone, and brings the scan one step nearer its end.
pub proof fn lemma_dispatch_invariant(state: ScanState)
    requires
        state.consistent(),
        state.can_dispatch(),
    ensures
        state.dispatch().consistent(),
        state.in_range(state.next_port()),
        !state.was_dispatched(state.next_port()),
        state.dispatch().in_flight.len() == state.in_flight.len() + 1,
        state.dispatch().remaining_steps() + 1 == state.remaining_steps(),
{
    let port = state.next_port();
    let after = state.dispatch();
    assert forall|p: u16| #[trigger] after.was_dispatched(p) implies after.in_flight.contains(p)
        || after.has_outcome(p) by {
        if p != port {
            assert(state.was_dispatched(p));
            if !state.in_flight.contains(p) {
                let k = choose|k: int|
                    0 <= k < state.outcomes.len() && (#[trigger] state.outcomes[k]).port == p;
                assert(after.outcomes[k].port == p);
            }
        }
    }
}

/// Recording a completion keeps the invariant. It adds exactly one outcome,
/// counts it, gives exactly one unit back, and brings the scan one step
/// nearer its end.
pub proof fn lemma_complete_invariant(state: ScanState, port: u16, open: bool)
    requires
        state.consistent(),
        state.can_complete(port),
    ensures
        state.complete(port, open).consistent(),
        state.complete(port, open).in_flight.len() + 1 == state.in_flight.len(),
        state.complete(port, open).outcomes.len() == state.outcomes.len() + 1,
        state.complete(port, open).progress == state.progress + 1,
        state.complete(port, open).progress <= state.total,
        state.complete(port, open).remaining_steps() + 1 == state.remaining_steps(),
{
    let after = state.complete(port, open);
    let last = state.outcomes.len() as int;
    assert(after.outcomes[last] == ProbeOutcome { port, open });
    assert forall|p: u16| #[trigger] after.was_dispatched(p) implies after.in_flight.contains(p)
        || after.has_outcome(p) by {
        if p != port && !state.in_flight.contains(p) {
            assert(state.was_dispatched(p));
            let k = choose|k: int|
                0 <= k < state.outcomes.len() && (#[trigger] state.outcomes[k]).port == p;
            assert(after.outcomes[k].port == p);
        }
    }
}

/// While a completion is being taken, the probe keeps its unit until its
/// outcome is recorded and counted: after each of the first two steps the
/// unit is still held and the ceiling still respected, and at no step has a
/// unit come free whose probe the counter does not yet account for.
pub proof fn lemma_completion_order(state: ScanState, port: u16, open: bool)
    requires
        state.consistent(),
        state.can_complete(port),
    ensures
        state.record(port, open).in_flight == state.in_flight,
        state.record(port, open).progress == state.progress,
        state.record(port, open).has_outcome(port),
        state.record(port, open).count().in_flight == state.in_flight,
        state.record(port, open).count().progress == state.progress + 1,
        state.record(port, open).count().progress == state.record(port, open).outcomes.len(),
        state.record(port, open).progress + state.record(port, open).in_flight.len()
            >= state.dispatched,
        state.record(port, open).count().progress + state.record(port, open).count().in_flight.len()
            >= state.dispatched,
        state.complete(port, open).progress + state.complete(port, open).in_flight.len()
            == state.dispatched,
{
    let recorded = state.record(port, open);
    assert(recorded.outcomes[state.outcomes.len() as int].port == port);
}

/// No event leads out of the invariant, the progress counter never goes
/// down, and the scan never moves away from its end.
pub proof fn lemma_apply_invariant(state: ScanState, event: Event)
    requires
        state.consistent(),
    ensures
        state.apply(event).consistent(),
        state.apply(event).progress >= state.progress,
        state.apply(event).remaining_steps() <= state.remaining_steps(),
        state.apply(event).first_port == state.first_port,
        state.apply(event).total == state.total,
        state.apply(event).ceiling == state.ceiling,
{
    match event {
        Event::Dispatch => {
            if state.can_dispatch() {
                lemma_dispatch_invariant(state);
            }
        },
        Event::Completed { port, open } => {
            if state.can_complete(port) {
                lemma_complete_invariant(state, port, open);
            }
        },
    }
}

/// Whatever events take place, in whatever order, the invariant holds after
/// them, and range and ceiling are what they were.
pub proof fn lemma_run_invariant(state: ScanState, events: Seq<Event>)
    requires
        state.consistent(),
    ensures
        state.run(events).consistent(),
        state.run(events).progress >= state.progress,
        state.run(events).remaining_steps() <= state.remaining_steps(),
        state.run(events).first_port == state.first_port,
        state.run(events).total == state.total,
        state.run(events).ceiling == state.ceiling,
    decreases events.len(),
{
    if events.len() > 0 {
        lemma_run_invariant(state, events.drop_last());
        lemma_apply_invariant(state.run(events.drop_last()), events.last());
    }
}

/// At no moment of a scan do more probes hold a concurrency unit than the
/// ceiling allows: it holds after every sequence of events from the start.
pub proof fn lemma_ceiling_never_exceeded(
    first_port: u16,
    total: nat,
    ceiling: nat,
    events: Seq<Event>,
)
    requires
        ceiling >= 1,
        first_port + total <= 0x1_0000,
    ensures
        ScanState::init(first_port, total, ceiling).run(events).in_flight.len() <= ceiling,
{
    lemma_init_invariant(first_port, total, ceiling);
    lemma_run_invariant(ScanState::init(first_port, total, ceiling), events);
}

/// The progress counter never goes down: at any earlier moment of a scan it
/// was at most what it is later.
pub proof fn lemma_progress_monotonic(state: ScanState, events: Seq<Event>, earlier: int)
    requires
        state.consistent(),
        0 <= earlier <= events.len(),
    ensures
        state.run(events.take(earlier)).progress <= state.run(events).progress,
        state.run(events).progress <= state.total,
    decreases events.len(),
{
    lemma_run_invariant(state, events);
    if earlier == events.len() {
        assert(events.take(earlier) =~= events);
    } else {
        let front = events.drop_last();
        assert(front.take(earlier) =~= events.take(earlier));
        lemma_progress_monotonic(state, front, earlier);
        lemma_run_invariant(state, front);
        lemma_apply_invariant(state.run(front), events.last());
    }
}

/// When a scan is finished, every port of its range has exactly one
/// outcome and there are no others: the outcomes number as many as the
/// range has ports, and so does the progress counter.
pub proof fn lemma_finished_scan_is_complete(state: ScanState)
    requires
        state.consistent(),
        state.finished(),
    ensures
        state.outcomes.len() == state.total,
        state.progress == state.total,
        distinct_ports(state.outcomes),
        forall|port: u16| state.in_range(port) <==> #[trigger] state.has_outcome(port),
        state.next_action() == Action::Finished,
{
    state.in_flight.lemma_len0_is_empty();
    assert forall|port: u16| state.in_range(port) <==> #[trigger] state.has_outcome(port) by {
        if state.in_range(port) {
            assert(state.was_dispatched(port));
        }
    }
}

/// For every valid request, whatever way its scan took to finish: the scan
/// has produced one outcome for each port from the first to the last of the
/// range and no other, which makes `end_port - start_port + 1` outcomes, and
/// the progress counter stands at that number.
pub proof fn lemma_finished_scan_covers_range(request: RequestView, events: Seq<Event>)
    requires
        request.valid(),
        ScanState::of_request(request).run(events).finished(),
    ensures
        ScanState::of_request(request).run(events).outcomes.len() == request.end_port
            - request.start_port + 1,
        ScanState::of_request(request).run(events).progress == request.end_port
            - request.start_port + 1,
        distinct_ports(ScanState::of_request(request).run(events).outcomes),
        forall|port: u16|
            request.start_port <= port <= request.end_port <==> #[trigger] ScanState::of_request(
                request,
            ).run(events).has_outcome(port),
{
    let start = ScanState::of_request(request);
    let end = start.run(events);
    lemma_init_invariant(request.start_port, request.total_ports(), request.concurrency as nat);
    lemma_run_invariant(start, events);
    lemma_finished_scan_is_complete(end);
}

/// A scan that is not finished is never stuck: either a port can be handed
/// out, or a probe is under way whose completion will arrive. The caller is
/// told to stop exactly when the scan is finished, which is exactly when no
/// step remains.
pub proof fn lemma_never_stuck(state: ScanState)
    requires
        state.consistent(),
    ensures
        state.next_action() == Action::Finished <==> state.finished(),
        state.next_action() == Action::AwaitCompletion ==> state.in_flight.len() > 0,
        state.finished() <==> state.remaining_steps() == 0,
        !state.finished() ==> state.can_dispatch() || exists|port: u16| state.can_complete(port),
{
    if !state.finished() && !state.can_dispatch() {
        if state.in_flight.len() == 0 {
            state.in_flight.lemma_len0_is_empty();
        } else {
            let port = state.in_flight.choose();
            assert(state.can_complete(port));
        }
    }
}

/// Adding a port that a sequence without repeats does not hold leaves it
/// without repeats and adds the port to its set.
proof fn lemma_push_fresh(ports: Seq<u16>, port: u16)
    requires
        ports.no_duplicates(),
        !ports.contains(port),
    ensures
        ports.push(port).no_duplicates(),
        ports.push(port).to_set() == ports.to_set().insert(port),
{
    let longer = ports.push(port);
    assert forall|x: u16| longer.to_set().contains(x) <==> ports.to_set().insert(port).contains(
        x,
    ) by {
        if ports.contains(x) {
            let k = choose|k: int| 0 <= k < ports.len() && ports[k] == x;
            assert(longer[k] == x);
        }
        if x == port {
            assert(longer[ports.len() as int] == x);
        }
    }
}

/// Filling a position of a sequence without repeats with its last entry and
/// dropping the last leaves it without repeats and takes the entry that stood
/// at the position out of its set.
proof fn lemma_swap_remove(ports: Seq<u16>, at: int)
    requires
        ports.no_duplicates(),
        0 <= at < ports.len(),
    ensures
        ports.update(at, ports.last()).drop_last().no_duplicates(),
        ports.update(at, ports.last()).drop_last().to_set() == ports.to_set().remove(ports[at]),
{
    let shorter = ports.update(at, ports.last()).drop_last();
    let n = ports.len() as int;
    assert forall|x: u16| shorter.to_set().contains(x) <==> ports.to_set().remove(
        ports[at],
    ).contains(x) by {
        if ports.contains(x) && x != ports[at] {
            let k = choose|k: int| 0 <= k < ports.len() && ports[k] == x;
            if k == n - 1 {
                assert(shorter[at] == x);
            } else {
                assert(shorter[k] == x);
            }
        }
    }
}

/// Where `port` stands in `ports`, if it does.
fn position(ports: &Vec<u16>, port: u16) -> (found: Option<usize>)
    ensures
        found matches Some(at) ==> at < ports.len() && ports@[at as int] == port,
        found is None ==> !ports@.contains(port),
{
    let mut at: usize = 0;
    while at < ports.len()
        invariant
            at <= ports.len(),
            forall|k: int| 0 <= k < at ==> ports@[k] != port,
        decreases ports.len() - at,
    {
        if ports[at] == port {
            return Some(at);
        }
        at += 1;
    }
    None
}

/// The scheduler of one scan.
#[derive(Debug)]
pub struct Scheduler {
    first_port: u16,
    total: usize,
    ceiling: usize,
    dispatched: usize,
    in_flight: Vec<u16>,
    outcomes: Vec<ProbeOutcome>,
    progress: ProgressCounter,
}

impl View for Scheduler {
    type V = ScanState;

    closed spec fn view(&self) -> ScanState {
        ScanState {
            first_port: self.first_port,
            total: self.total as nat,
            ceiling: self.ceiling as nat,
            dispatched: self.dispatched as nat,
            in_flight: self.in_flight@.to_set(),
            outcomes: self.outcomes@,
            progress: self.progress@.completed,
        }
    }
}

impl Scheduler {
    /// How the scheduler keeps its state: the ports under way are listed
    /// once each, and the counter counts towards the size of the range.
    pub closed spec fn represented(&self) -> bool {
        &&& self.in_flight@.no_duplicates()
        &&& self.progress.wf()
        &&& self.progress@.total == self.total
    }

    /// Every scheduler that this module hands out is in a consistent state.
    pub open spec fn wf(&self) -> bool {
        self@.consistent() && self.represented()
    }

    /// A scheduler for `request`, before the first port is handed out.
    pub fn new(request: &ScanRequest) -> (scheduler: Scheduler)
        requires
            request.wf(),
        ensures
            scheduler.wf(),
            scheduler@ == ScanState::of_request(request@),
    {
        let total: usize = request.total_ports();
        let scheduler = Scheduler {
            first_port: request.start_port(),
            total,
            ceiling: request.concurrency(),
            dispatched: 0,
            in_flight: Vec::new(),
            outcomes: Vec::new(),
            progress: ProgressCounter::new(total),
        };
        proof {
            assert(scheduler.in_flight@.to_set() =~= Set::<u16>::empty());
            lemma_init_invariant(
                request@.start_port,
                request@.total_ports(),
                request@.concurrency as nat,
            );
        }
        scheduler
    }

    /// Says what to do next. Where a port is left and a unit is free, the
    /// unit is taken and the port handed out; otherwise nothing changes.
    pub fn next_action(&mut self) -> (action: Action)
        requires
            old(self).wf(),
        ensures
            final(self).wf(),
            action == old(self)@.next_action(),
            final(self)@ == old(self)@.apply(Event::Dispatch),
    {
        proof {
            self.in_flight@.unique_seq_to_set();
        }
        if self.dispatched < self.total && self.in_flight.len() < self.ceiling {
            let port: u16 = (self.first_port as usize + self.dispatched) as u16;
            proof {
                lemma_dispatch_invariant(self@);
                lemma_push_fresh(self.in_flight@, port);
            }
            self.in_flight.push(port);
            self.dispatched = self.dispatched + 1;
            Action::Dispatch(port)
        } else if self.in_flight.len() > 0 {
            Action::AwaitCompletion
        } else {
            Action::Finished
        }
    }

    /// Takes the completion of the probe of `port`. Where that probe is under
    /// way, its outcome is recorded, the progress counter goes up by one, and
    /// then its unit is given back. Where it is not (the port was never
    /// handed out, or its completion was reported before), nothing changes
    /// and the result is `false`.
    pub fn complete(&mut self, port: u16, open: bool) -> (accepted: bool)
        requires
            old(self).wf(),
        ensures
            final(self).wf(),
            accepted == old(self)@.can_complete(port),
            final(self)@ == old(self)@.apply(Event::Completed { port, open }),
    {
        match position(&self.in_flight, port) {
            None => false,
            Some(at) => {
                proof {
                    self.in_flight@.unique_seq_to_set();
                    lemma_complete_invariant(self@, port, open);
                    lemma_swap_remove(self.in_flight@, at as int);
                }
                self.outcomes.push(ProbeOutcome { port, open });
                self.progress.increment();
                self.in_flight.swap_remove(at);
                true
            },
        }
    }

    /// Whether every port of the range has its outcome.
    pub fn is_finished(&self) -> (finished: bool)
        requires
            self.wf(),
        ensures
            finished == self@.finished(),
    {
        proof {
            self.in_flight@.unique_seq_to_set();
        }
        self.dispatched == self.total && self.in_flight.len() == 0
    }

    /// The number of probes that hold a concurrency unit.
    pub fn in_flight(&self) -> (count: usize)
        requires
            self.wf(),
        ensures
            count == self@.in_flight.len(),
            count <= self@.ceiling,
    {
        proof {
            self.in_flight@.unique_seq_to_set();
        }
        self.in_flight.len()
    }

    /// The concurrency ceiling.
    pub fn concurrency(&self) -> (ceiling: usize)
        ensures
            ceiling == self@.ceiling,
    {
        self.ceiling
    }

    /// The number of ports in the range.
    pub fn total_ports(&self) -> (total: usize)
        ensures
            total == self@.total,
    {
        self.total
    }

    /// The number of ports handed out so far.
    pub fn dispatched(&self) -> (count: usize)
        ensures
            count == self@.dispatched,
    {
        self.dispatched
    }

    /// The value of the progress counter: the number of probes that have
    /// completed.
    pub fn progress(&self) -> (completed: usize)
        ensures
            completed == self@.progress,
    {
        self.progress.read()
    }

    /// The outcomes recorded so far, in the order in which they arrived.
    pub fn outcomes(&self) -> (outcomes: &Vec<ProbeOutcome>)
        ensures
            outcomes@ == self@.outcomes,
    {
        &self.outcomes
    }

    /// The report of the scan, once it is finished; `None` before that.
    pub fn result(&self) -> (report: Option<ScanResult>)
        requires
            self.wf(),
        ensures
            report is Some <==> self@.finished(),
            report matches Some(result) ==> {
                &&& result@ == summarize(self@.outcomes, self@.ceiling)
                &&& result@.total_scanned == self@.total
                &&& strictly_ascending(result@.open_ports)
            },
    {
        if self.is_finished() {
            proof {
                lemma_finished_scan_is_complete(self@);
            }
            Some(aggregate(&self.outcomes, self.ceiling))
        } else {
            None
        }
    }
}

} // verus!
