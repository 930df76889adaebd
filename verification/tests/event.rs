use powertest::event::PinLevel;
use powertest::event::PinPattern;
use powertest::event::PIN_COUNT;
use powertest::event::TEST_SIGNAL_PIN;

#[test]
fn test_pattern_wants_the_signal_pin_low() {
    let pattern = PinPattern::test_running();
    assert_eq!(PIN_COUNT, 8);
    assert_eq!(TEST_SIGNAL_PIN, 0);
    assert_eq!(pattern.levels.len(), PIN_COUNT);
    assert_eq!(pattern.levels[TEST_SIGNAL_PIN], PinLevel::Low);
    for pin in 1..PIN_COUNT {
        assert_eq!(pattern.levels[pin], PinLevel::Either);
    }
}
