//! Candidate parts of the handoff, each measured against the player's own.
pub mod admission;
pub mod bounded;
pub mod credits;
pub mod ledger;
pub mod sources;
pub mod start;
pub mod terminal;
pub mod timeline;
