//! The rate monitor: counts the bytes that pass and decides when to report.

use vstd::prelude::*;
use crate::rate::{rate_of, rate_per_second, NANOS_PER_SECOND};
use crate::report::Report;
use crate::timer::Timer;

verus! {

/// What the monitor asks of its caller after one chunk, in this order: emit
/// the report, forward the chunk, end the progress line, leave the loop.
#[derive(Clone, Copy, Debug, PartialEq, Eq)]
pub struct Step {
    /// The progress line to emit, if one is due.
    pub report: Option<Report>,
    /// Whether the chunk goes on to the writer.
    pub forward: bool,
    /// Whether the progress line is ended by a newline.
    pub newline: bool,
    /// Whether the monitor has seen the end of the stream.
    pub finished: bool,
}

/// One chunk as the monitor sees it.
#[derive(Clone, Copy, Debug, PartialEq, Eq)]
pub struct Arrival {
    /// The length of the chunk; zero for the end mark.
    pub len: u64,
    /// The clock reading at which the chunk arrived.
    pub at: u64,
}

/// The state of the monitor stage.
#[derive(Clone, Copy, Debug, PartialEq, Eq)]
pub struct RateMonitor {
    /// Whether all status output is suppressed.
    pub silent: bool,
    /// The throttle of the reports.
    pub timer: Timer,
    /// The clock reading at which the run started.
    pub start: u64,
    /// The bytes seen so far.
    pub total_bytes: u64,
    /// Whether a progress line stands unfinished.
    pub mid_line: bool,
    /// Whether the end of the stream was seen.
    pub finished: bool,
}

impl RateMonitor {
    /// The run did not start after the timer's last update, and the timer is
    /// well formed.
    pub open spec fn wf(self) -> bool {
        self.timer.wf() && self.start <= self.timer.last_instant
    }

    /// The monitor as `new` makes it.
    pub open spec fn fresh(silent: bool, period: u64, now: u64) -> RateMonitor {
        RateMonitor {
            silent,
            timer: Timer::fresh(period, now),
            start: now,
            total_bytes: 0,
            mid_line: false,
            finished: false,
        }
    }

    /// Whether a chunk that arrives at `now` has a report emitted.
    pub open spec fn reports_at(self, now: u64) -> bool {
        !self.finished && !self.silent && self.timer.updated(now).ready
    }

    /// The report that a chunk of `len` bytes arriving at `now` gives rise to,
    /// where one is due.
    pub open spec fn report_for(self, len: u64, now: u64) -> Report {
        let timer = self.timer.updated(now);
        Report {
            total_bytes: (self.total_bytes + len) as u64,
            elapsed_secs: ((timer.last_instant - self.start) / (NANOS_PER_SECOND as int)) as u64,
            rate: rate_of(len, timer.delta) as u128,
        }
    }

    /// What the monitor asks of its caller for a chunk of `len` bytes that
    /// arrives at `now`.
    pub open spec fn step_for(self, len: u64, now: u64) -> Step {
        if self.finished {
            Step { report: None, forward: false, newline: false, finished: true }
        } else {
            Step {
                report: if self.reports_at(now) {
                    Some(self.report_for(len, now))
                } else {
                    None
                },
                forward: true,
                newline: len == 0 && !self.silent,
                finished: len == 0,
            }
        }
    }

    /// The monitor after a chunk of `len` bytes that arrived at `now`.
    pub open spec fn observed(self, len: u64, now: u64) -> RateMonitor {
        if self.finished {
            self
        } else {
            let timer = self.timer.updated(now);
            RateMonitor {
                silent: self.silent,
                timer: if self.reports_at(now) {
                    timer.consumed()
                } else {
                    timer
                },
                start: self.start,
                total_bytes: (self.total_bytes + len) as u64,
                mid_line: (self.mid_line || self.reports_at(now)) && len != 0,
                finished: len == 0,
            }
        }
    }

    /// A monitor for a run that starts at `now`, with nothing seen yet and a
    /// report due at the first chunk.
    pub fn new(silent: bool, period: u64, now: u64) -> (monitor: RateMonitor)
        ensures
            monitor == RateMonitor::fresh(silent, period, now),
            monitor.wf(),
    {
        RateMonitor {
            silent,
            timer: Timer::new(period, now),
            start: now,
            total_bytes: 0,
            mid_line: false,
            finished: false,
        }
    }

    /// Takes one chunk of `len` bytes that arrived at `now`; a length of zero
    /// marks the end of the stream.
    ///
    /// The timer is updated, the rate of this chunk computed and its length
    /// added to the total. A report is due where the timer is armed and the
    /// monitor is not silent; emitting it disarms the timer. Every chunk is
    /// forwarded, the end mark too, after which a monitor that is not silent
    /// ends the progress line. A monitor that has seen the end mark takes
    /// nothing more: it asks for nothing and stays as it is.
    pub fn observe(&mut self, len: u64, now: u64) -> (step: Step)
        requires
            old(self).wf(),
            old(self).finished || old(self).total_bytes + len <= u64::MAX,
        ensures
            final(self).wf(),
            *final(self) == old(self).observed(len, now),
            step == old(self).step_for(len, now),
            old(self).silent ==> step.report is None && !step.newline,
            final(self).total_bytes >= old(self).total_bytes,
    {
        if self.finished {
            return Step { report: None, forward: false, newline: false, finished: true };
        }
        self.timer.update(now);
        let rate: u128 = rate_per_second(len, self.timer.delta);
        self.total_bytes = self.total_bytes + len;
        let mut report: Option<Report> = None;
        if !self.silent && self.timer.ready {
            self.timer.consume();
            self.mid_line = true;
            report = Some(
                Report {
                    total_bytes: self.total_bytes,
                    elapsed_secs: (self.timer.last_instant - self.start) / NANOS_PER_SECOND,
                    rate,
                },
            );
        }
        let finished: bool = len == 0;
        if finished {
            self.mid_line = false;
            self.finished = true;
        }
        Step { report, forward: true, newline: finished && !self.silent, finished }
    }

    /// Whether a progress line stands unfinished and not silenced, so that a
    /// newline is owed when the run stops.
    pub open spec fn owes_newline(self) -> bool {
        self.mid_line && !self.silent
    }

    /// The monitor after the run broke off.
    pub open spec fn interrupted(self) -> RateMonitor {
        RateMonitor { mid_line: false, finished: true, ..self }
    }

    /// Ends a run that breaks off without an end mark, because the reader is
    /// gone or the writer takes no more. That is no fault of the monitor. The
    /// result says whether a newline is to be emitted to end the progress
    /// line that stands.
    pub fn interrupt(&mut self) -> (newline: bool)
        ensures
            newline == old(self).owes_newline(),
            old(self).silent ==> !newline,
            *final(self) == old(self).interrupted(),
            old(self).wf() ==> final(self).wf(),
    {
        let newline: bool = self.mid_line && !self.silent;
        self.mid_line = false;
        self.finished = true;
        newline
    }

    /// The monitor after the arrivals, taken in order.
    pub open spec fn after(self, arrivals: Seq<Arrival>) -> RateMonitor
        decreases arrivals.len(),
    {
        if arrivals.len() == 0 {
            self
        } else {
            self.after(arrivals.drop_last()).observed(arrivals.last().len, arrivals.last().at)
        }
    }

    /// What the monitor asks of its caller for each of the arrivals.
    pub open spec fn steps(self, arrivals: Seq<Arrival>) -> Seq<Step>
        decreases arrivals.len(),
    {
        if arrivals.len() == 0 {
            Seq::empty()
        } else {
            self.steps(arrivals.drop_last()).push(
                self.after(arrivals.drop_last()).step_for(arrivals.last().len, arrivals.last().at),
            )
        }
    }
}

/// The number of reports that the steps ask for.
pub open spec fn reports_in(steps: Seq<Step>) -> nat
    decreases steps.len(),
{
    if steps.len() == 0 {
        0
    } else {
        reports_in(steps.drop_last()) + if steps.last().report is Some {
            1nat
        } else {
            0nat
        }
    }
}

/// The bytes of all the arrivals together.
pub open spec fn bytes_in(arrivals: Seq<Arrival>) -> nat
    decreases arrivals.len(),
{
    if arrivals.len() == 0 {
        0
    } else {
        bytes_in(arrivals.drop_last()) + arrivals.last().len as nat
    }
}

/// Whether the end mark comes before the arrival at `index`.
pub open spec fn ended_before(arrivals: Seq<Arrival>, index: int) -> bool {
    exists|j: int| 0 <= j < index && j < arrivals.len() && (#[trigger] arrivals[j]).len == 0
}

/// The quotient of `a` by `b`, rounded up.
pub open spec fn div_ceil(a: nat, b: nat) -> nat {
    if a % b == 0 {
        a / b
    } else {
        a / b + 1
    }
}

/// There is one step for each arrival.
pub proof fn lemma_steps_len(monitor: RateMonitor, arrivals: Seq<Arrival>)
    ensures
        monitor.steps(arrivals).len() == arrivals.len(),
    decreases arrivals.len(),
{
    if arrivals.len() > 0 {
        lemma_steps_len(monitor, arrivals.drop_last());
    }
}

/// The step for an arrival is the one that the monitor takes in the state
/// that the arrivals before it left.
pub proof fn lemma_step_at(monitor: RateMonitor, arrivals: Seq<Arrival>, index: int)
    requires
        0 <= index < arrivals.len(),
    ensures
        monitor.steps(arrivals).len() == arrivals.len(),
        monitor.steps(arrivals)[index] == monitor.after(arrivals.take(index)).step_for(
            arrivals[index].len,
            arrivals[index].at,
        ),
    decreases arrivals.len(),
{
    lemma_steps_len(monitor, arrivals);
    lemma_steps_len(monitor, arrivals.drop_last());
    if index == arrivals.len() - 1 {
        assert(arrivals.take(index) =~= arrivals.drop_last());
    } else {
        lemma_step_at(monitor, arrivals.drop_last(), index);
        assert(arrivals.drop_last().take(index) =~= arrivals.take(index));
    }
}

/// The monitor has finished exactly when it had finished before or an end
/// mark was among the arrivals.
pub proof fn lemma_finished_by_end_mark(monitor: RateMonitor, arrivals: Seq<Arrival>)
    ensures
        monitor.after(arrivals).finished <==> monitor.finished || ended_before(
            arrivals,
            arrivals.len() as int,
        ),
    decreases arrivals.len(),
{
    if arrivals.len() > 0 {
        let front = arrivals.drop_last();
        lemma_finished_by_end_mark(monitor, front);
        if ended_before(front, front.len() as int) {
            let j = choose|j: int| 0 <= j < front.len() && (#[trigger] front[j]).len == 0;
            assert(arrivals[j].len == 0);
        }
        if arrivals.last().len == 0 {
            assert(arrivals[arrivals.len() - 1].len == 0);
        }
        if ended_before(arrivals, arrivals.len() as int) {
            let j = choose|j: int| 0 <= j < arrivals.len() && (#[trigger] arrivals[j]).len == 0;
            if j < front.len() {
                assert(front[j].len == 0);
            }
        }
    }
}

/// A chunk is forwarded exactly when no end mark came before it: every
/// chunk up to the end mark goes on to the writer, the end mark goes on
/// once, and nothing follows it.
pub proof fn lemma_forwards_through_end_mark(
    monitor: RateMonitor,
    arrivals: Seq<Arrival>,
    index: int,
)
    requires
        !monitor.finished,
        0 <= index < arrivals.len(),
    ensures
        monitor.steps(arrivals)[index].forward <==> !ended_before(arrivals, index),
        monitor.steps(arrivals)[index].finished <==> ended_before(arrivals, index + 1),
{
    lemma_step_at(monitor, arrivals, index);
    let front = arrivals.take(index);
    lemma_finished_by_end_mark(monitor, front);
    if ended_before(front, front.len() as int) {
        let j = choose|j: int| 0 <= j < front.len() && (#[trigger] front[j]).len == 0;
        assert(arrivals[j].len == 0);
    }
    if ended_before(arrivals, index) {
        let j = choose|j: int| 0 <= j < index && j < arrivals.len() && (#[trigger] arrivals[j]).len == 0;
        assert(front[j].len == 0);
    }
    if ended_before(arrivals, index + 1) {
        let j = choose|j: int|
            0 <= j < index + 1 && j < arrivals.len() && (#[trigger] arrivals[j]).len == 0;
        if j < index {
            assert(front[j].len == 0);
        }
    }
    if arrivals[index].len == 0 {
        assert(ended_before(arrivals, index + 1));
    }
}

/// A monitor that has finished stays as it is whatever arrives, and asks
/// for nothing.
pub proof fn lemma_finished_is_final(monitor: RateMonitor, arrivals: Seq<Arrival>)
    requires
        monitor.finished,
    ensures
        monitor.after(arrivals) == monitor,
        reports_in(monitor.steps(arrivals)) == 0,
        forall|i: int|
            0 <= i < arrivals.len() ==> {
                let step = #[trigger] monitor.steps(arrivals)[i];
                step.report is None && !step.forward && !step.newline
            },
    decreases arrivals.len(),
{
    if arrivals.len() > 0 {
        lemma_finished_is_final(monitor, arrivals.drop_last());
        lemma_steps_len(monitor, arrivals.drop_last());
        assert(monitor.steps(arrivals).drop_last() =~= monitor.steps(arrivals.drop_last()));
    }
}

/// The total counts every byte: where the end mark comes last or not at
/// all, the total after the arrivals is the total before them and the sum
/// of their lengths.
pub proof fn lemma_total_counts_every_byte(monitor: RateMonitor, arrivals: Seq<Arrival>)
    requires
        !monitor.finished,
        !ended_before(arrivals, arrivals.len() - 1),
        monitor.total_bytes + bytes_in(arrivals) <= u64::MAX,
    ensures
        monitor.after(arrivals).total_bytes == monitor.total_bytes + bytes_in(arrivals),
    decreases arrivals.len(),
{
    if arrivals.len() > 0 {
        let front = arrivals.drop_last();
        if ended_before(front, front.len() - 1) {
            let j = choose|j: int| 0 <= j < front.len() - 1 && (#[trigger] front[j]).len == 0;
            assert(arrivals[j].len == 0);
        }
        lemma_total_counts_every_byte(monitor, front);
        lemma_finished_by_end_mark(monitor, front);
        if ended_before(front, front.len() as int) {
            let j = choose|j: int| 0 <= j < front.len() && (#[trigger] front[j]).len == 0;
            assert(arrivals[j].len == 0);
        }
    }
}

/// A monitor that starts afresh and is not silent reports its first chunk
/// at once, whenever it arrives.
pub proof fn lemma_first_chunk_is_reported(period: u64, start: u64, len: u64, now: u64)
    ensures
        RateMonitor::fresh(false, period, start).step_for(len, now).report is Some,
{
}

/// A silent monitor asks for no status output at all: no report and no
/// newline, whatever arrives and whenever.
pub proof fn lemma_silent_is_quiet(monitor: RateMonitor, arrivals: Seq<Arrival>)
    requires
        monitor.silent,
    ensures
        monitor.after(arrivals).silent,
        !monitor.after(arrivals).owes_newline(),
        reports_in(monitor.steps(arrivals)) == 0,
        forall|i: int|
            0 <= i < arrivals.len() ==> {
                let step = #[trigger] monitor.steps(arrivals)[i];
                step.report is None && !step.newline
            },
    decreases arrivals.len(),
{
    if arrivals.len() > 0 {
        lemma_silent_is_quiet(monitor, arrivals.drop_last());
        lemma_steps_len(monitor, arrivals.drop_last());
        assert(monitor.steps(arrivals).drop_last() =~= monitor.steps(arrivals.drop_last()));
    }
}

/// What holds of a monitor that started afresh, after any arrivals: the
/// periods that its reports stand for have passed, but for what is left of
/// the countdown; and an armed timer has not counted down yet.
proof fn lemma_reports_take_time(silent: bool, period: u64, start: u64, arrivals: Seq<Arrival>)
    ensures
        ({
            let fresh = RateMonitor::fresh(silent, period, start);
            let monitor = fresh.after(arrivals);
            let reports = reports_in(fresh.steps(arrivals));
            &&& monitor.wf()
            &&& monitor.start == start
            &&& monitor.silent == silent
            &&& monitor.timer.period == period
            &&& reports * period <= monitor.timer.last_instant - start + monitor.timer.countdown
            &&& silent ==> reports == 0
            &&& !silent && monitor.timer.ready ==> reports == 0 && monitor.timer.countdown == 0
        }),
    decreases arrivals.len(),
{
    let fresh = RateMonitor::fresh(silent, period, start);
    if arrivals.len() > 0 {
        let front = arrivals.drop_last();
        lemma_reports_take_time(silent, period, start, front);
        lemma_steps_len(fresh, front);
        assert(fresh.steps(arrivals).drop_last() =~= fresh.steps(front));
        let before = fresh.after(front);
        let reports = reports_in(fresh.steps(front));
        let now = arrivals.last().at;
        if before.reports_at(now) {
            assert((reports + 1) * period == reports * period + period) by (nonlinear_arith);
        }
    } else {
        assert(0 * period == 0);
    }
}

/// Reports are throttled: a monitor that started afresh emits the first
/// report at its first chunk, and after that at most one for each whole
/// period that has passed. So the reports never number more than the
/// periods that the run has lasted, rounded up, and one.
pub proof fn lemma_reports_are_throttled(
    silent: bool,
    period: u64,
    start: u64,
    arrivals: Seq<Arrival>,
)
    requires
        period > 0,
    ensures
        ({
            let fresh = RateMonitor::fresh(silent, period, start);
            let elapsed = (fresh.after(arrivals).timer.last_instant - start) as nat;
            let reports = reports_in(fresh.steps(arrivals));
            &&& fresh.after(arrivals).timer.last_instant >= start
            &&& reports >= 1 ==> (reports - 1) * period <= elapsed
            &&& reports <= elapsed / (period as nat) + 1
            &&& reports <= div_ceil(elapsed, period as nat) + 1
        }),
{
    lemma_reports_take_time(silent, period, start, arrivals);
    let fresh = RateMonitor::fresh(silent, period, start);
    let monitor = fresh.after(arrivals);
    let elapsed = (monitor.timer.last_instant - start) as nat;
    let reports = reports_in(fresh.steps(arrivals));
    if reports >= 1 {
        let p = period as int;
        let k = reports as int;
        assert((k - 1) * p == k * p - p) by (nonlinear_arith);
        assert((k - 1) * p <= elapsed);
        assert(k - 1 <= (elapsed as int) / p) by (nonlinear_arith)
            requires
                (k - 1) * p <= elapsed,
                p > 0,
        ;
    }
}

} // verus!
