//! Engine of a local audio-file browser and player.
//!
//! The crate holds the decisions of the player: which files of a directory are
//! listed and in what order, how a play request proceeds step by step, when a
//! watcher may report that its track has finished, and how the favorites list
//! changes. Reading directories and files, probing their containers, sleeping
//! and driving the audio device are left to the caller, which performs the
//! steps that the crate hands out and reports back what happened.

pub mod catalog;
pub mod error;
pub mod favorites;
pub mod names;
pub mod player;
pub mod probe;
pub mod session;
