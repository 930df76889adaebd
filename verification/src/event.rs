//! The values that the measurement source hands to the aggregator.

use vstd::prelude::*;

verus! {

/// Number of channels of the instrument's digital port.
pub const PIN_COUNT: usize = 8;

/// Channel that the firmware under test drives: high between tests, low
/// while a test runs.
pub const TEST_SIGNAL_PIN: usize = 0;

/// Desired level of one channel of the digital port.
#[derive(Clone, Copy, Debug, PartialEq, Eq, Structural)]
pub enum PinLevel {
    Low,
    High,
    Either,
}

/// One desired level per channel. The measurement source classifies each
/// sample by whether the observed port state fits the pattern.
#[derive(Clone, Copy, Debug)]
pub struct PinPattern {
    pub levels: [PinLevel; 8],
}

impl PinPattern {
    /// The pattern that marks a running test: the test signal pin reads
    /// low, every other channel is indifferent.
    pub fn test_running() -> (pattern: PinPattern)
        ensures
            pattern.levels@.len() == PIN_COUNT,
            forall|pin: int|
                0 <= pin < PIN_COUNT ==> #[trigger] pattern.levels@[pin] == (if pin
                    == TEST_SIGNAL_PIN {
                    PinLevel::Low
                } else {
                    PinLevel::Either
                }),
    {
        PinPattern {
            levels: [
                PinLevel::Low,
                PinLevel::Either,
                PinLevel::Either,
                PinLevel::Either,
                PinLevel::Either,
                PinLevel::Either,
                PinLevel::Either,
                PinLevel::Either,
            ],
        }
    }
}

/// One sample of the instrument.
#[derive(Clone, Copy, Debug)]
pub struct Measurement {
    /// Instantaneous current in picoamperes. Negative readings occur near
    /// zero, where the instrument's calibration offsets dominate.
    pub current_pico_amps: i64,
    /// Observed level of each channel of the digital port: `true` is high.
    pub pin_states: [bool; 8],
}

/// A sample as classified by the measurement source against a pin pattern.
#[derive(Clone, Copy, Debug)]
pub enum ClassifiedEvent {
    /// The port state fitted the pattern: the sample belongs to a test.
    Match(Measurement),
    /// The port state did not fit: the target is idle between tests.
    NoMatch,
}

impl ClassifiedEvent {
    /// The current that the event contributes to a window: the sample's
    /// current for a match, nothing for a boundary.
    pub open spec fn current(self) -> int {
        match self {
            ClassifiedEvent::Match(m) => m.current_pico_amps as int,
            ClassifiedEvent::NoMatch => 0,
        }
    }
}

} // verus!
