//! Time: the clock that playback is measured by.
pub mod raw_clock;

pub use raw_clock::{Clock, DefaultClock};
