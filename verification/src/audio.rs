//! Playback state, its outcomes, and the realtime player.
pub mod accounting;
pub mod buffer;
pub mod outcome;
pub mod owner;
pub mod service;
pub mod sync_correction;
pub mod synced_player;

pub use buffer::{AudioBuffer, AudioFormat, Codec};
pub use outcome::{ScheduledArmOutcome, ScheduledStartOutcome, StartState};
pub use owner::{
    EnqueueOutcome, PlayerScope, PreStartAbortOutcome, RendererFault, RendererOperationOutcome,
    RendererOwner, RendererQueueLimits, RendererTerminal, TerminalOutcome, TerminalState,
    TerminalWinner,
};
