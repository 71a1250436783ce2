//! The realtime player: one non-realtime owner of the source, one preparation
//! worker, and one device callback that never waits for either.
pub mod allocation;
pub mod budget;
pub mod callback;
pub mod construction;
pub mod device;
pub mod handoff_probe;
pub mod ingress;
pub mod keeping;
pub mod operations;
pub mod playback;
pub mod player;
pub mod preparation;
pub mod queue;
pub mod reader;
pub mod requests;
pub mod revision;
pub mod ring;
pub mod runtime;
pub mod shared;
pub mod source;
pub mod taking;
pub mod transport;
pub mod upkeep;
pub mod windows;
pub mod worker;
