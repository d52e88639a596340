//! Counting finished probes and deciding what to tell the user about it.
//!
//! The counter only ever counts; whether a port is open is none of its
//! business. The reporter looks at the counter from time to time and decides
//! whether the value it sees is worth a notification.

use vstd::prelude::*;

verus! {

/// A progress notification is due only at multiples of this many probes.
pub const REPORT_GRANULARITY: usize = 10;

/// How long the reporter rests between two looks at the counter, in
/// milliseconds.
pub const POLL_INTERVAL_MILLIS: u64 = 50;

/// The number of probes that have finished, out of a fixed total.
#[derive(Debug, PartialEq, Eq)]
pub struct ProgressCounter {
    completed: usize,
    total: usize,
}

/// The mathematical content of a [`ProgressCounter`].
pub struct CounterView {
    pub completed: nat,
    pub total: nat,
}

impl View for ProgressCounter {
    type V = CounterView;

    closed spec fn view(&self) -> CounterView {
        CounterView { completed: self.completed as nat, total: self.total as nat }
    }
}

impl ProgressCounter {
    /// The counter never runs past its total.
    pub open spec fn wf(&self) -> bool {
        self@.completed <= self@.total
    }

    /// A counter at zero, for a scan of `total` ports.
    pub fn new(total: usize) -> (counter: ProgressCounter)
        ensures
            counter.wf(),
            counter@ == (CounterView { completed: 0, total: total as nat }),
    {
        ProgressCounter { completed: 0, total }
    }

    /// Counts one finished probe. A counter that has reached its total stays
    /// there; the result says whether the count went up.
    pub fn increment(&mut self) -> (advanced: bool)
        requires
            old(self).wf(),
        ensures
            final(self).wf(),
            advanced == (old(self)@.completed < old(self)@.total),
            final(self)@.total == old(self)@.total,
            final(self)@.completed == old(self)@.completed + (if advanced {
                1nat
            } else {
                0nat
            }),
    {
        if self.completed < self.total {
            self.completed = self.completed + 1;
            true
        } else {
            false
        }
    }

    /// The number of probes counted so far.
    pub fn read(&self) -> (completed: usize)
        ensures
            completed == self@.completed,
    {
        self.completed
    }

    /// The number of probes the scan consists of.
    pub fn total(&self) -> (total: usize)
        ensures
            total == self@.total,
    {
        self.total
    }

    /// Whether every probe has been counted.
    pub fn is_complete(&self) -> (complete: bool)
        ensures
            complete == (self@.completed >= self@.total),
    {
        self.completed >= self.total
    }
}

/// What the reporter hands to whoever shows progress to the user.
#[derive(Clone, Copy, Debug, PartialEq, Eq, Structural)]
pub enum ProgressEvent {
    /// `current` of `total` probes have finished.
    Progress { current: usize, total: usize },
    /// All `total` probes have finished. Nothing follows this event.
    Done { total: usize },
}

/// Decides, for each value read from the counter, whether to notify.
#[derive(Debug, PartialEq, Eq)]
pub struct Reporter {
    total: usize,
    granularity: usize,
    last_reported: usize,
    finished: bool,
}

/// The mathematical content of a [`Reporter`].
pub struct ReporterView {
    /// The number of probes the scan consists of.
    pub total: usize,
    /// Only multiples of this are reported.
    pub granularity: usize,
    /// The value of the latest progress notification; zero before the first.
    pub last_reported: usize,
    /// Whether the final notification has been given.
    pub finished: bool,
}

/// The reporter's rule: from what it remembers and the value it reads to
/// what it remembers next and the event it emits, if any.
///
/// A finished reporter stays silent. Otherwise a value at or past the total
/// ends the reporting. Otherwise a value is reported when it lies beyond the
/// one reported last and is a multiple of the granularity.
pub open spec fn observe_spec(before: ReporterView, current: usize) -> (
    ReporterView,
    Option<ProgressEvent>,
) {
    if before.finished {
        (before, None)
    } else if current >= before.total {
        (
            ReporterView { finished: true, ..before },
            Some(ProgressEvent::Done { total: before.total }),
        )
    } else if current > before.last_reported && current % before.granularity == 0 {
        (
            ReporterView { last_reported: current, ..before },
            Some(ProgressEvent::Progress { current, total: before.total }),
        )
    } else {
        (before, None)
    }
}

/// How many times the final notification is given while the reporter reads
/// `observations` one after the other.
pub open spec fn done_count(before: ReporterView, observations: Seq<usize>) -> nat
    decreases observations.len(),
{
    if observations.len() == 0 {
        0
    } else {
        let (after, event) = observe_spec(before, observations[0]);
        let here: nat = if event is Some && event->Some_0 is Done {
            1
        } else {
            0
        };
        here + done_count(after, observations.drop_first())
    }
}

/// The final notification is given exactly once if some value read reaches
/// the total, and never otherwise; a reporter that has given it gives it no
/// second time.
pub proof fn lemma_done_exactly_once(before: ReporterView, observations: Seq<usize>)
    ensures
        done_count(before, observations) == (if !before.finished && exists|i: int|
            0 <= i < observations.len() && observations[i] >= before.total {
            1nat
        } else {
            0nat
        }),
    decreases observations.len(),
{
    if observations.len() > 0 {
        let rest = observations.drop_first();
        let (after, event) = observe_spec(before, observations[0]);
        lemma_done_exactly_once(after, rest);
        if !before.finished && observations[0] < before.total {
            // the value that reaches the total is the same in both sequences
            if exists|i: int| 0 <= i < observations.len() && observations[i] >= before.total {
                let i = choose|i: int|
                    0 <= i < observations.len() && observations[i] >= before.total;
                assert(rest[i - 1] >= after.total);
            }
            if exists|i: int| 0 <= i < rest.len() && rest[i] >= after.total {
                let i = choose|i: int| 0 <= i < rest.len() && rest[i] >= after.total;
                assert(observations[i + 1] >= before.total);
            }
        }
    }
}

impl View for Reporter {
    type V = ReporterView;

    closed spec fn view(&self) -> ReporterView {
        ReporterView {
            total: self.total,
            granularity: self.granularity,
            last_reported: self.last_reported,
            finished: self.finished,
        }
    }
}

impl Reporter {
    /// The granularity is never zero.
    pub open spec fn wf(&self) -> bool {
        self@.granularity >= 1
    }

    /// A reporter for a scan of `total` ports that reports multiples of
    /// `granularity`. A granularity of zero counts as one.
    pub fn new(total: usize, granularity: usize) -> (reporter: Reporter)
        ensures
            reporter.wf(),
            reporter@ == (ReporterView {
                total,
                granularity: if granularity == 0 {
                    1usize
                } else {
                    granularity
                },
                last_reported: 0,
                finished: false,
            }),
    {
        let granularity: usize = if granularity == 0 {
            1
        } else {
            granularity
        };
        Reporter { total, granularity, last_reported: 0, finished: false }
    }

    /// Takes one value read from the counter and says what to emit for it.
    pub fn observe(&mut self, current: usize) -> (event: Option<ProgressEvent>)
        requires
            old(self).wf(),
        ensures
            final(self).wf(),
            (final(self)@, event) == observe_spec(old(self)@, current),
    {
        if self.finished {
            None
        } else if current >= self.total {
            self.finished = true;
            Some(ProgressEvent::Done { total: self.total })
        } else if current > self.last_reported && current % self.granularity == 0 {
            self.last_reported = current;
            Some(ProgressEvent::Progress { current, total: self.total })
        } else {
            None
        }
    }

    /// Whether the final notification has been given.
    pub fn is_finished(&self) -> (finished: bool)
        ensures
            finished == self@.finished,
    {
        self.finished
    }
}

} // verus!
