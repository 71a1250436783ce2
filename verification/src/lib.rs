//! Synchronized playback: the realtime handoff between a source queue and an
//! output device, and the clock that both sides agree on.
pub mod audio;
pub mod sync;
