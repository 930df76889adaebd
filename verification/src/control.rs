//! The control loop around the aggregator: which events it consumes and when
//! it stops listening.

use vstd::prelude::*;
use crate::aggregator::emitted_report;
use crate::aggregator::initial_state;
use crate::aggregator::lemma_counters_bounded;
use crate::aggregator::next_state;
use crate::aggregator::reports_of;
use crate::aggregator::state_after;
use crate::aggregator::AggregatorState;
use crate::aggregator::WindowAggregator;
use crate::event::ClassifiedEvent;
use crate::report::report_model;
use crate::report::report_models;
use crate::report::Report;
use crate::report::ReportModel;

verus! {

/// What one bounded wait on the measurement stream yields.
#[derive(Clone, Copy, Debug)]
pub enum StreamEvent {
    /// A classified sample arrived.
    Sample(ClassifiedEvent),
    /// Nothing arrived within the wait. This loses no data: it only lets
    /// the loop look at its stop condition again.
    TimedOut,
    /// The producer closed the stream.
    Closed,
    /// The receive failed in some other way.
    Failed,
}

/// Why the control loop stopped listening.
#[derive(Clone, Copy, Debug, PartialEq, Eq, Structural)]
pub enum Termination {
    /// The expected number of reports has been emitted.
    Completed,
    /// The producer closed the stream before that: an early end, after
    /// which the instrument is shut down as on completion.
    StreamClosed,
    /// The receive failed: the failure is passed on as an error.
    ReceiveFailed,
}

impl Termination {
    /// Whether the loop ended on a failure that is passed on as an error.
    /// Every other end is followed by the shutdown of the instrument.
    pub open spec fn is_failure(self) -> bool {
        self == Termination::ReceiveFailed
    }

    /// Whether the loop ended on a failure that is passed on as an error.
    pub fn failed(&self) -> (failure: bool)
        ensures
            failure == self.is_failure(),
    {
        match self {
            Termination::ReceiveFailed => true,
            _ => false,
        }
    }
}

/// The control loop's state as mathematical values.
pub struct LoopState {
    pub aggregator: AggregatorState,
    pub expected: nat,
    /// How the stream ended, once it has.
    pub ended: Option<Termination>,
}

/// The state of a loop that expects `expected` reports and has seen nothing.
pub open spec fn initial_loop(expected: nat) -> LoopState {
    LoopState { aggregator: initial_state(), expected, ended: None }
}

/// Whether, and why, the loop has stopped. Completion comes first: a
/// loop that has all its reports is complete whatever the stream did after.
pub open spec fn status(state: LoopState) -> Option<Termination> {
    if state.aggregator.reports_emitted >= state.expected {
        Some(Termination::Completed)
    } else {
        state.ended
    }
}

/// The state that follows `state` on `event`. A stopped loop consumes
/// nothing: the event is dropped and the state stays.
pub open spec fn loop_next(state: LoopState, event: StreamEvent) -> LoopState {
    if status(state) is Some {
        state
    } else {
        match event {
            StreamEvent::Sample(sample) => LoopState {
                aggregator: next_state(state.aggregator, sample),
                ..state
            },
            StreamEvent::TimedOut => state,
            StreamEvent::Closed => LoopState { ended: Some(Termination::StreamClosed), ..state },
            StreamEvent::Failed => LoopState { ended: Some(Termination::ReceiveFailed), ..state },
        }
    }
}

/// The report that `event` completes in `state`, if any.
pub open spec fn loop_report(state: LoopState, event: StreamEvent) -> Option<ReportModel> {
    if status(state) is Some {
        None
    } else {
        match event {
            StreamEvent::Sample(sample) => emitted_report(state.aggregator, sample),
            _ => None,
        }
    }
}

/// The state of a loop that expects `expected` reports after a whole
/// sequence of events.
pub open spec fn loop_after(expected: nat, events: Seq<StreamEvent>) -> LoopState
    decreases events.len(),
{
    if events.len() == 0 {
        initial_loop(expected)
    } else {
        loop_next(loop_after(expected, events.drop_last()), events.last())
    }
}

/// The reports that such a loop emits over a whole sequence of events.
pub open spec fn loop_reports(expected: nat, events: Seq<StreamEvent>) -> Seq<ReportModel>
    decreases events.len(),
{
    if events.len() == 0 {
        Seq::empty()
    } else {
        let before = loop_reports(expected, events.drop_last());
        match loop_report(loop_after(expected, events.drop_last()), events.last()) {
            Some(report) => before.push(report),
            None => before,
        }
    }
}

/// Whether the loop can take one more event without its sample counter
/// overflowing. A stopped loop takes any event, since it drops it.
pub open spec fn accepts(state: LoopState) -> bool {
    status(state) is Some || state.aggregator.running_count < u64::MAX
}

/// What the loop decided on one event.
#[derive(Clone, Copy, Debug)]
pub struct Decision {
    /// The report that the event completed, if any.
    pub report: Option<Report>,
    /// `None` to go on listening, else the reason to stop.
    pub halt: Option<Termination>,
}

/// The control loop: an aggregator, the number of reports to wait for, and
/// how the stream ended if it did.
#[derive(Debug)]
pub struct ControlLoop {
    aggregator: WindowAggregator,
    expected: u64,
    ended: Option<Termination>,
}

impl View for ControlLoop {
    type V = LoopState;

    closed spec fn view(&self) -> LoopState {
        LoopState {
            aggregator: self.aggregator@,
            expected: self.expected as nat,
            ended: self.ended,
        }
    }
}

impl ControlLoop {
    #[verifier::type_invariant]
    spec fn well_formed(self) -> bool {
        self.aggregator@.reports_emitted <= self.expected
    }

    /// A loop that waits for `expected` reports.
    pub fn new(expected: u64) -> (control: ControlLoop)
        ensures
            control@ == initial_loop(expected as nat),
    {
        ControlLoop { aggregator: WindowAggregator::new(), expected, ended: None }
    }

    /// The number of reports that the loop waits for.
    pub fn expected(&self) -> (expected: u64)
        ensures
            expected == self@.expected,
    {
        self.expected
    }

    /// The number of reports emitted so far: never more than expected.
    pub fn reports_emitted(&self) -> (emitted: u64)
        ensures
            emitted == self@.aggregator.reports_emitted,
            emitted <= self@.expected,
    {
        proof {
            use_type_invariant(self);
        }
        self.aggregator.reports_emitted()
    }

    /// The number of reports still owed.
    pub fn reports_missing(&self) -> (missing: u64)
        ensures
            missing == self@.expected - self@.aggregator.reports_emitted,
    {
        proof {
            use_type_invariant(self);
        }
        self.expected - self.aggregator.reports_emitted()
    }

    /// The aggregator that the loop drives.
    pub fn aggregator(&self) -> (aggregator: &WindowAggregator)
        ensures
            aggregator@ == self@.aggregator,
    {
        &self.aggregator
    }

    /// Whether, and why, the loop has stopped. To be asked before each
    /// wait: a loop that expects no report is complete before any event.
    pub fn status(&self) -> (stopped: Option<Termination>)
        ensures
            stopped == status(self@),
    {
        if self.aggregator.reports_emitted() >= self.expected {
            Some(Termination::Completed)
        } else {
            self.ended
        }
    }

    /// Whether `on_event` can be called.
    pub fn accepts(&self) -> (room: bool)
        ensures
            room == accepts(self@),
    {
        self.status().is_some() || self.aggregator.running_count() < u64::MAX
    }

    /// Takes the outcome of one wait on the stream and decides whether to
    /// go on. The decision to stop is made on the event that completes the
    /// last report, not on the one after it. A loop that has stopped drops
    /// the event unread and repeats its reason.
    pub fn on_event(&mut self, event: StreamEvent) -> (decision: Decision)
        requires
            accepts(old(self)@),
        ensures
            final(self)@ == loop_next(old(self)@, event),
            report_model(decision.report) == loop_report(old(self)@, event),
            decision.halt == status(final(self)@),
    {
        proof {
            use_type_invariant(&*self);
        }
        let mut report: Option<Report> = None;
        if self.status().is_none() {
            match event {
                StreamEvent::Sample(sample) => {
                    report = self.aggregator.on_event(sample);
                },
                StreamEvent::TimedOut => {},
                StreamEvent::Closed => {
                    self.ended = Some(Termination::StreamClosed);
                },
                StreamEvent::Failed => {
                    self.ended = Some(Termination::ReceiveFailed);
                },
            }
        }
        Decision { report, halt: self.status() }
    }
}

/// What a run of the loop over a recorded stream came to.
#[derive(Debug)]
pub struct RunSummary {
    /// The reports, in window order.
    pub reports: Vec<Report>,
    /// How many events of the stream the loop took before it stopped.
    pub consumed: usize,
    /// Why the loop stopped, or `None` if the events ran out first.
    pub termination: Option<Termination>,
}

/// The stream in which each of `samples` arrives in turn and nothing else
/// happens.
pub open spec fn sample_stream(samples: Seq<ClassifiedEvent>) -> Seq<StreamEvent> {
    samples.map_values(|sample: ClassifiedEvent| StreamEvent::Sample(sample))
}

/// The open window of a loop holds no more samples than events were taken.
proof fn lemma_loop_window_bounded(expected: nat, events: Seq<StreamEvent>)
    ensures
        loop_after(expected, events).aggregator.running_count <= events.len(),
    decreases events.len(),
{
    if events.len() > 0 {
        lemma_loop_window_bounded(expected, events.drop_last());
    }
}

/// The number of emitted reports never exceeds the expected number, and the
/// loop is complete as soon as the two are equal.
pub proof fn lemma_emitted_within_expected(expected: nat, events: Seq<StreamEvent>)
    ensures
        loop_after(expected, events).expected == expected,
        loop_after(expected, events).aggregator.reports_emitted <= expected,
        loop_after(expected, events).aggregator.reports_emitted == expected ==> status(
            loop_after(expected, events),
        ) == Some(Termination::Completed),
    decreases events.len(),
{
    if events.len() > 0 {
        lemma_emitted_within_expected(expected, events.drop_last());
    }
}

/// A loop that has stopped consumes no further event: whatever follows in
/// the stream, its state and its reports stay as they were.
pub proof fn lemma_stopped_loop_consumes_nothing(
    expected: nat,
    events: Seq<StreamEvent>,
    more: Seq<StreamEvent>,
)
    requires
        status(loop_after(expected, events)) is Some,
    ensures
        loop_after(expected, events + more) == loop_after(expected, events),
        loop_reports(expected, events + more) == loop_reports(expected, events),
    decreases more.len(),
{
    if more.len() == 0 {
        assert(events + more =~= events);
    } else {
        lemma_stopped_loop_consumes_nothing(expected, events, more.drop_last());
        assert((events + more).drop_last() =~= events + more.drop_last());
    }
}

/// On a stream of samples alone the loop emits the aggregator's reports up
/// to the expected number, and no others.
pub proof fn lemma_loop_reports_first_windows(expected: nat, samples: Seq<ClassifiedEvent>)
    ensures
        reports_of(samples).len() <= expected ==> loop_reports(expected, sample_stream(samples))
            == reports_of(samples),
        reports_of(samples).len() > expected ==> loop_reports(expected, sample_stream(samples))
            == reports_of(samples).take(expected as int),
        reports_of(samples).len() < expected ==> loop_after(expected, sample_stream(samples))
            == (LoopState { aggregator: state_after(samples), expected, ended: None }),
        reports_of(samples).len() >= expected ==> status(
            loop_after(expected, sample_stream(samples)),
        ) == Some(Termination::Completed),
    decreases samples.len(),
{
    let stream = sample_stream(samples);
    lemma_counters_bounded(samples);
    if samples.len() > 0 {
        let before = samples.drop_last();
        lemma_loop_reports_first_windows(expected, before);
        lemma_counters_bounded(before);
        assert(stream.drop_last() =~= sample_stream(before));
        assert(stream.last() == StreamEvent::Sample(samples.last()));
        let reported = reports_of(samples);
        if reports_of(before).len() >= expected {
            if reported.len() > expected {
                assert(reports_of(before).take(expected as int) =~= reported.take(expected as int));
            }
            if reports_of(before).len() == expected {
                assert(reports_of(before).take(expected as int) =~= reports_of(before));
            }
        } else {
            assert(reported.take(reported.len() as int) =~= reported);
        }
    } else {
        assert(reports_of(samples).take(0) =~= Seq::<ReportModel>::empty());
    }
}

/// Runs a fresh loop that expects `expected` reports over a recorded
/// stream. The loop asks for its status before each event and so takes
/// events up to the first one on which it stops, never one more.
pub fn drive(events: &[StreamEvent], expected: u64) -> (summary: RunSummary)
    ensures
        summary.consumed <= events.len(),
        summary.termination == status(
            loop_after(expected as nat, events@.take(summary.consumed as int)),
        ),
        report_models(summary.reports@) == loop_reports(
            expected as nat,
            events@.take(summary.consumed as int),
        ),
        forall|k: int|
            0 <= k < summary.consumed ==> status(
                #[trigger] loop_after(expected as nat, events@.take(k)),
            ) is None,
        summary.consumed < events.len() ==> summary.termination is Some,
{
    let mut control = ControlLoop::new(expected);
    let mut reports: Vec<Report> = Vec::new();
    let mut consumed: usize = 0;
    assert(events@.take(0) =~= Seq::empty());
    while consumed < events.len() && control.status().is_none()
        invariant
            consumed <= events.len(),
            control@ == loop_after(expected as nat, events@.take(consumed as int)),
            report_models(reports@) =~= loop_reports(
                expected as nat,
                events@.take(consumed as int),
            ),
            forall|k: int|
                0 <= k < consumed ==> status(
                    #[trigger] loop_after(expected as nat, events@.take(k)),
                ) is None,
        decreases events.len() - consumed,
    {
        proof {
            lemma_loop_window_bounded(expected as nat, events@.take(consumed as int));
            assert(events@.take(consumed + 1).drop_last() =~= events@.take(consumed as int));
        }
        let ghost before = reports@;
        let decision = control.on_event(events[consumed]);
        match decision.report {
            Some(report) => {
                reports.push(report);
                assert(report_models(reports@) =~= report_models(before).push(report@));
            },
            None => {},
        }
        consumed += 1;
    }
    RunSummary { reports, consumed, termination: control.status() }
}

} // verus!
