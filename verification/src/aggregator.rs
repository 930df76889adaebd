//! The window aggregator: a two-phase state machine over classified events
//! that emits one report per completed test window.

use vstd::prelude::*;
use crate::event::ClassifiedEvent;
use crate::report::report_model;
use crate::report::report_models;
use crate::report::Report;
use crate::report::ReportModel;

verus! {

/// Whether the first boundary event has been seen.
#[derive(Clone, Copy, Debug, PartialEq, Eq, Structural)]
pub enum Phase {
    /// No boundary yet: matching samples belong to no test and are ignored.
    Preamble,
    /// A boundary was seen: matching samples accumulate into a window.
    Ready,
}

/// The aggregator's state as mathematical values.
pub struct AggregatorState {
    pub phase: Phase,
    pub running_sum: int,
    pub running_count: nat,
    pub reports_emitted: nat,
}

/// The state before any event.
pub open spec fn initial_state() -> AggregatorState {
    AggregatorState { phase: Phase::Preamble, running_sum: 0, running_count: 0, reports_emitted: 0 }
}

/// The state that follows `state` on `event`.
pub open spec fn next_state(state: AggregatorState, event: ClassifiedEvent) -> AggregatorState {
    match event {
        ClassifiedEvent::Match(m) => match state.phase {
            Phase::Preamble => state,
            Phase::Ready => AggregatorState {
                running_sum: state.running_sum + m.current_pico_amps,
                running_count: state.running_count + 1,
                ..state
            },
        },
        ClassifiedEvent::NoMatch => AggregatorState {
            phase: Phase::Ready,
            running_sum: 0,
            running_count: 0,
            reports_emitted: if state.running_count > 0 {
                state.reports_emitted + 1
            } else {
                state.reports_emitted
            },
        },
    }
}

/// The report that `event` completes in `state`, if any: a boundary after
/// at least one accumulated sample.
pub open spec fn emitted_report(state: AggregatorState, event: ClassifiedEvent) -> Option<
    ReportModel,
> {
    if event is NoMatch && state.running_count > 0 {
        Some(
            ReportModel {
                index: state.reports_emitted + 1,
                total: state.running_sum,
                samples: state.running_count,
            },
        )
    } else {
        None
    }
}

/// The state after a whole sequence of events, starting from the initial
/// state.
pub open spec fn state_after(events: Seq<ClassifiedEvent>) -> AggregatorState
    decreases events.len(),
{
    if events.len() == 0 {
        initial_state()
    } else {
        next_state(state_after(events.drop_last()), events.last())
    }
}

/// The reports emitted over a whole sequence of events, in order.
pub open spec fn reports_of(events: Seq<ClassifiedEvent>) -> Seq<ReportModel>
    decreases events.len(),
{
    if events.len() == 0 {
        Seq::empty()
    } else {
        let before = reports_of(events.drop_last());
        match emitted_report(state_after(events.drop_last()), events.last()) {
            Some(report) => before.push(report),
            None => before,
        }
    }
}

/// Whether both counters of `state` can still grow by one.
pub open spec fn has_headroom(state: AggregatorState) -> bool {
    state.running_count < u64::MAX && state.reports_emitted < u64::MAX
}

/// The window aggregator.
#[derive(Debug)]
pub struct WindowAggregator {
    phase: Phase,
    running_sum: i128,
    running_count: u64,
    reports_emitted: u64,
}

impl View for WindowAggregator {
    type V = AggregatorState;

    closed spec fn view(&self) -> AggregatorState {
        AggregatorState {
            phase: self.phase,
            running_sum: self.running_sum as int,
            running_count: self.running_count as nat,
            reports_emitted: self.reports_emitted as nat,
        }
    }
}

impl WindowAggregator {
    #[verifier::type_invariant]
    spec fn well_formed(self) -> bool {
        &&& -(self.running_count as int) * 0x8000_0000_0000_0000 <= self.running_sum as int
        &&& self.running_sum as int <= self.running_count as int * 0x7fff_ffff_ffff_ffff
    }

    /// An aggregator in the preamble phase with nothing accumulated.
    pub fn new() -> (aggregator: WindowAggregator)
        ensures
            aggregator@ == initial_state(),
    {
        WindowAggregator {
            phase: Phase::Preamble,
            running_sum: 0,
            running_count: 0,
            reports_emitted: 0,
        }
    }

    /// Whether the preamble is over.
    pub fn phase(&self) -> (phase: Phase)
        ensures
            phase == self@.phase,
    {
        self.phase
    }

    /// Sum of the samples accumulated in the open window, in picoamperes.
    pub fn running_sum(&self) -> (sum: i128)
        ensures
            sum == self@.running_sum,
    {
        self.running_sum
    }

    /// Number of samples accumulated in the open window.
    pub fn running_count(&self) -> (count: u64)
        ensures
            count == self@.running_count,
    {
        self.running_count
    }

    /// Number of reports emitted so far.
    pub fn reports_emitted(&self) -> (emitted: u64)
        ensures
            emitted == self@.reports_emitted,
    {
        self.reports_emitted
    }

    /// Whether the next event can be taken without a counter overflowing.
    pub fn has_headroom(&self) -> (room: bool)
        ensures
            room == has_headroom(self@),
    {
        self.running_count < u64::MAX && self.reports_emitted < u64::MAX
    }

    /// Takes one event: a match accumulates once the preamble is over, a
    /// boundary closes the open window and reports it if it holds a sample.
    pub fn on_event(&mut self, event: ClassifiedEvent) -> (report: Option<Report>)
        requires
            has_headroom(old(self)@),
        ensures
            final(self)@ == next_state(old(self)@, event),
            report_model(report) == emitted_report(old(self)@, event),
        no_unwind
    {
        proof {
            use_type_invariant(&*self);
        }
        match event {
            ClassifiedEvent::Match(measurement) => {
                match self.phase {
                    Phase::Preamble => {},
                    Phase::Ready => {
                        *self = WindowAggregator {
                            phase: Phase::Ready,
                            running_sum: self.running_sum + (measurement.current_pico_amps as i128),
                            running_count: self.running_count + 1,
                            reports_emitted: self.reports_emitted,
                        };
                    },
                }
                None
            },
            ClassifiedEvent::NoMatch => {
                let report = if self.running_count > 0 {
                    Some(Report::new(self.reports_emitted + 1, self.running_sum, self.running_count))
                } else {
                    None
                };
                *self = WindowAggregator {
                    phase: Phase::Ready,
                    running_sum: 0,
                    running_count: 0,
                    reports_emitted: if self.running_count > 0 {
                        self.reports_emitted + 1
                    } else {
                        self.reports_emitted
                    },
                };
                report
            },
        }
    }
}

/// Neither counter outruns the number of events taken.
pub proof fn lemma_counters_bounded(events: Seq<ClassifiedEvent>)
    ensures
        state_after(events).running_count <= events.len(),
        state_after(events).reports_emitted <= events.len(),
        reports_of(events).len() == state_after(events).reports_emitted,
    decreases events.len(),
{
    if events.len() > 0 {
        lemma_counters_bounded(events.drop_last());
    }
}

/// Runs a fresh aggregator over `events` and collects the reports.
pub fn aggregate(events: &[ClassifiedEvent]) -> (reports: Vec<Report>)
    ensures
        report_models(reports@) == reports_of(events@),
{
    let mut aggregator = WindowAggregator::new();
    let mut reports: Vec<Report> = Vec::new();
    let mut taken: usize = 0;
    assert(events@.take(0) =~= Seq::empty());
    while taken < events.len()
        invariant
            taken <= events.len(),
            aggregator@ == state_after(events@.take(taken as int)),
            report_models(reports@) =~= reports_of(events@.take(taken as int)),
        decreases events.len() - taken,
    {
        proof {
            lemma_counters_bounded(events@.take(taken as int));
            assert(events@.take(taken + 1).drop_last() =~= events@.take(taken as int));
        }
        let ghost before = reports@;
        match aggregator.on_event(events[taken]) {
            Some(report) => {
                reports.push(report);
                assert(report_models(reports@) =~= report_models(before).push(report@));
            },
            None => {},
        }
        taken += 1;
    }
    assert(events@.take(taken as int) =~= events@);
    reports
}

} // verus!
