//! Decisions of a watcher that keeps a machine awake while Herdr agents work.
//!
//! Everything here is a function of plain values: what a snapshot of the
//! agents says, what the clock reads, what a file or a socket held. Reading
//! and writing those is left to the program around this library.

pub mod agents;
pub mod child;
pub mod clock;
pub mod json;
pub mod opts;
pub mod persist;
pub mod state;
pub mod text;
pub mod time;
pub mod watch;
pub mod wire;
