//! Streaming correlation of a power profiler's current samples with a test
//! signal pin: one mean-current report per test window, the loop that decides
//! when to stop listening, and the exactly-once shutdown of the instrument.

pub mod aggregator;
pub mod control;
pub mod event;
pub mod image;
pub mod probe;
pub mod report;
pub mod shutdown;
pub mod test_count;
pub mod windows;
