//! A verified core for a small command-line habit tracker.
//!
//! Habits are named records with a streak count and a last-completion
//! timestamp. The library holds the rules that give those words meaning:
//! how a streak grows on completion, when it decays on load, and how the
//! collection is written to and read back from its JSON backing file.
//! File and console I/O live outside the library.

pub mod clock;
pub mod codec;
pub mod command;
pub mod date;
pub mod habit;
pub mod laws;
pub mod listing;
pub mod ops;
pub mod store;
