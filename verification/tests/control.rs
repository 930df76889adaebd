use powertest::aggregator::Phase;
use powertest::control::drive;
use powertest::control::ControlLoop;
use powertest::control::StreamEvent;
use powertest::control::Termination;
use powertest::event::ClassifiedEvent;
use powertest::event::Measurement;

fn matched(micro_amps: i64) -> StreamEvent {
    StreamEvent::Sample(ClassifiedEvent::Match(Measurement {
        current_pico_amps: micro_amps * 1_000_000,
        pin_states: [false; 8],
    }))
}

fn boundary() -> StreamEvent {
    StreamEvent::Sample(ClassifiedEvent::NoMatch)
}

#[test]
fn end_to_end_two_reports() {
    let events =
        [boundary(), matched(1000), matched(2000), boundary(), matched(500), boundary()];
    let summary = drive(&events, 2);
    assert_eq!(summary.termination, Some(Termination::Completed));
    assert_eq!(summary.consumed, 6);
    assert_eq!(summary.reports.len(), 2);
    assert_eq!(summary.reports[0].index(), 1);
    assert_eq!(summary.reports[0].mean_pico_amps(), 1_500_000_000);
    assert_eq!(summary.reports[0].log_line(), "Average current for report 1: 1.50000000 mA");
    assert_eq!(summary.reports[1].index(), 2);
    assert_eq!(summary.reports[1].mean_pico_amps(), 500_000_000);
    assert_eq!(summary.reports[1].log_line(), "Average current for report 2: 0.50000000 mA");
}

#[test]
fn loop_halts_on_the_completing_event() {
    let mut control = ControlLoop::new(2);
    let events =
        [boundary(), matched(1000), matched(2000), boundary(), matched(500), boundary()];
    let mut halts = Vec::new();
    for event in events {
        assert!(control.accepts());
        halts.push(control.on_event(event).halt);
    }
    assert_eq!(halts, vec![None, None, None, None, None, Some(Termination::Completed)]);
    assert_eq!(control.status(), Some(Termination::Completed));
    assert_eq!(control.reports_emitted(), 2);
    assert_eq!(control.reports_missing(), 0);
}

#[test]
fn events_after_completion_are_not_consumed() {
    let events = [
        boundary(),
        matched(1000),
        boundary(),
        matched(7),
        matched(8),
        boundary(),
        StreamEvent::Closed,
    ];
    let summary = drive(&events, 1);
    assert_eq!(summary.termination, Some(Termination::Completed));
    assert_eq!(summary.consumed, 3);
    assert_eq!(summary.reports.len(), 1);

    let mut control = ControlLoop::new(1);
    for event in &events[..3] {
        control.on_event(*event);
    }
    for event in &events[3..] {
        let decision = control.on_event(*event);
        assert!(decision.report.is_none());
        assert_eq!(decision.halt, Some(Termination::Completed));
        assert_eq!(control.reports_emitted(), 1);
        assert_eq!(control.aggregator().running_count(), 0);
        assert_eq!(control.aggregator().running_sum(), 0);
    }
}

#[test]
fn preamble_matches_yield_no_report() {
    let events = [matched(100), matched(200), boundary()];
    let summary = drive(&events, 1);
    assert!(summary.reports.is_empty());
    assert_eq!(summary.consumed, 3);
    assert_eq!(summary.termination, None);

    let mut control = ControlLoop::new(1);
    for event in events {
        let decision = control.on_event(event);
        assert!(decision.report.is_none());
        assert_eq!(decision.halt, None);
    }
    assert_eq!(control.reports_emitted(), 0);
    assert_eq!(control.reports_missing(), 1);
    assert_eq!(control.aggregator().running_count(), 0);
    assert_eq!(control.aggregator().phase(), Phase::Ready);
}

#[test]
fn expecting_nothing_is_complete_before_any_event() {
    let control = ControlLoop::new(0);
    assert_eq!(control.status(), Some(Termination::Completed));
    assert_eq!(control.expected(), 0);
    let summary = drive(&[boundary(), matched(1), boundary()], 0);
    assert_eq!(summary.termination, Some(Termination::Completed));
    assert_eq!(summary.consumed, 0);
    assert!(summary.reports.is_empty());
    let empty = drive(&[], 0);
    assert_eq!(empty.termination, Some(Termination::Completed));
    assert_eq!(empty.consumed, 0);
}

#[test]
fn expecting_nothing_drops_an_event_that_arrives_anyway() {
    for event in [boundary(), matched(5), StreamEvent::TimedOut, StreamEvent::Closed, StreamEvent::Failed] {
        let mut control = ControlLoop::new(0);
        let decision = control.on_event(event);
        assert!(decision.report.is_none());
        assert_eq!(decision.halt, Some(Termination::Completed));
        assert_eq!(control.aggregator().phase(), Phase::Preamble);
        assert_eq!(control.aggregator().running_count(), 0);
        assert_eq!(control.reports_emitted(), 0);
    }
}

#[test]
fn timeout_changes_nothing_and_goes_on() {
    let mut control = ControlLoop::new(1);
    control.on_event(boundary());
    control.on_event(matched(3));
    let decision = control.on_event(StreamEvent::TimedOut);
    assert!(decision.report.is_none());
    assert_eq!(decision.halt, None);
    assert_eq!(control.aggregator().running_count(), 1);
    assert_eq!(control.aggregator().running_sum(), 3_000_000);
    let decision = control.on_event(boundary());
    assert_eq!(decision.halt, Some(Termination::Completed));
    assert_eq!(decision.report.expect("a report is due").total_pico_amps(), 3_000_000);
}

#[test]
fn closed_stream_ends_the_loop_early() {
    let events = [boundary(), matched(1), boundary(), matched(2), StreamEvent::Closed, boundary()];
    let summary = drive(&events, 3);
    assert_eq!(summary.termination, Some(Termination::StreamClosed));
    assert_eq!(summary.consumed, 5);
    assert_eq!(summary.reports.len(), 1);

    let mut control = ControlLoop::new(3);
    for event in &events[..5] {
        control.on_event(*event);
    }
    assert_eq!(control.status(), Some(Termination::StreamClosed));
    assert_eq!(control.reports_missing(), 2);
    let decision = control.on_event(boundary());
    assert!(decision.report.is_none());
    assert_eq!(decision.halt, Some(Termination::StreamClosed));
    assert_eq!(control.reports_emitted(), 1);
}

#[test]
fn failed_receive_ends_the_loop() {
    let events = [boundary(), StreamEvent::Failed, matched(1), boundary()];
    let summary = drive(&events, 1);
    assert_eq!(summary.termination, Some(Termination::ReceiveFailed));
    assert_eq!(summary.consumed, 2);
    assert!(summary.reports.is_empty());
}

#[test]
fn events_run_out_before_completion() {
    let events = [boundary(), matched(1), boundary(), matched(2)];
    let summary = drive(&events, 2);
    assert_eq!(summary.termination, None);
    assert_eq!(summary.consumed, 4);
    assert_eq!(summary.reports.len(), 1);
}

#[test]
fn emitted_never_exceeds_expected() {
    let mut events = Vec::new();
    for round in 0..20 {
        events.push(boundary());
        events.push(matched(round));
    }
    events.push(boundary());
    for expected in 0..25u64 {
        let mut control = ControlLoop::new(expected);
        for event in &events {
            control.on_event(*event);
            assert!(control.reports_emitted() <= expected);
            assert_eq!(
                control.status() == Some(Termination::Completed),
                control.reports_emitted() == expected
            );
        }
        let summary = drive(&events, expected);
        assert_eq!(summary.reports.len() as u64, expected.min(20));
        if expected == 0 {
            assert_eq!(summary.consumed, 0);
        } else if expected <= 20 {
            assert_eq!(summary.consumed as u64, 2 * expected + 1);
        } else {
            assert_eq!(summary.consumed, events.len());
            assert_eq!(summary.termination, None);
        }
    }
}

#[test]
fn only_a_failed_receive_is_a_failure() {
    assert!(!Termination::Completed.failed());
    assert!(!Termination::StreamClosed.failed());
    assert!(Termination::ReceiveFailed.failed());
}
