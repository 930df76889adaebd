use powertest::aggregator::aggregate;
use powertest::event::ClassifiedEvent;
use powertest::event::Measurement;
use powertest::report::Report;

fn window(samples: &[i64]) -> Report {
    let mut events = vec![ClassifiedEvent::NoMatch];
    for &current_pico_amps in samples {
        events.push(ClassifiedEvent::Match(Measurement {
            current_pico_amps,
            pin_states: [false; 8],
        }));
    }
    events.push(ClassifiedEvent::NoMatch);
    let reports = aggregate(&events);
    assert_eq!(reports.len(), 1);
    reports[0]
}

#[test]
fn mean_is_exact_where_it_divides() {
    let report = window(&[10, 20, 30]);
    assert_eq!(report.total_pico_amps(), 60);
    assert_eq!(report.samples(), 3);
    assert_eq!(report.mean_pico_amps(), 20);
}

#[test]
fn mean_rounds_to_nearest() {
    assert_eq!(window(&[1, 1, 2]).mean_pico_amps(), 1);
    assert_eq!(window(&[1, 2, 2]).mean_pico_amps(), 2);
    assert_eq!(window(&[-1, -1, -2]).mean_pico_amps(), -1);
    assert_eq!(window(&[-1, -2, -2]).mean_pico_amps(), -2);
}

#[test]
fn mean_rounds_halves_away_from_zero() {
    assert_eq!(window(&[1, 2]).mean_pico_amps(), 2);
    assert_eq!(window(&[-1, -2]).mean_pico_amps(), -2);
    assert_eq!(window(&[0, 1]).mean_pico_amps(), 1);
    assert_eq!(window(&[0, -1]).mean_pico_amps(), -1);
}

#[test]
fn mean_of_opposite_samples_is_zero() {
    let report = window(&[i64::MAX, i64::MIN, 1]);
    assert_eq!(report.total_pico_amps(), 0);
    assert_eq!(report.mean_pico_amps(), 0);
    assert_eq!(report.milli_amps(), "0.00000000");
}

#[test]
fn milli_amps_have_eight_decimals() {
    assert_eq!(window(&[1_000_000_000]).milli_amps(), "1.00000000");
    assert_eq!(window(&[1_500_000_000]).milli_amps(), "1.50000000");
    assert_eq!(window(&[10]).milli_amps(), "0.00000001");
    assert_eq!(window(&[123_456_789_010]).milli_amps(), "123.45678901");
    assert_eq!(window(&[21_454]).milli_amps(), "0.00002145");
    assert_eq!(window(&[0]).milli_amps(), "0.00000000");
}

#[test]
fn milli_amps_round_the_last_decimal() {
    assert_eq!(window(&[4]).milli_amps(), "0.00000000");
    assert_eq!(window(&[5]).milli_amps(), "0.00000001");
    assert_eq!(window(&[14]).milli_amps(), "0.00000001");
    assert_eq!(window(&[15]).milli_amps(), "0.00000002");
    assert_eq!(window(&[999_999_995]).milli_amps(), "1.00000000");
    // A mean of 12.5 pA from two samples.
    assert_eq!(window(&[10, 15]).milli_amps(), "0.00000001");
    assert_eq!(window(&[10, 20]).milli_amps(), "0.00000002");
}

#[test]
fn negative_current_is_signed() {
    assert_eq!(window(&[-1_500_000_000]).milli_amps(), "-1.50000000");
    assert_eq!(window(&[-10]).milli_amps(), "-0.00000001");
    assert_eq!(window(&[-5]).milli_amps(), "-0.00000001");
    // Rounds to zero: no sign.
    assert_eq!(window(&[-4]).milli_amps(), "0.00000000");
    assert_eq!(
        window(&[-2_000_000]).log_line(),
        "Average current for report 1: -0.00200000 mA"
    );
}

#[test]
fn largest_currents_print() {
    assert_eq!(window(&[i64::MAX]).milli_amps(), "9223372036.85477581");
    assert_eq!(window(&[i64::MIN]).milli_amps(), "-9223372036.85477581");
    assert_eq!(window(&[i64::MAX, i64::MAX]).mean_pico_amps(), i64::MAX);
    assert_eq!(window(&[i64::MIN, i64::MIN]).mean_pico_amps(), i64::MIN);
}

#[test]
fn log_line_names_the_report() {
    let events = [
        ClassifiedEvent::NoMatch,
        ClassifiedEvent::Match(Measurement { current_pico_amps: 3_000_000, pin_states: [false; 8] }),
        ClassifiedEvent::NoMatch,
    ];
    let mut all = Vec::new();
    for _ in 0..12 {
        all.extend_from_slice(&events);
    }
    let reports = aggregate(&all);
    assert_eq!(reports.len(), 12);
    assert_eq!(reports[0].log_line(), "Average current for report 1: 0.00300000 mA");
    assert_eq!(reports[9].log_line(), "Average current for report 10: 0.00300000 mA");
    assert_eq!(reports[11].log_line(), "Average current for report 12: 0.00300000 mA");
}
