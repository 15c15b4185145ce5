//! Core logic of an osu!taiko style rhythm game: timed hit objects, the
//! scrolling FIFO queue of upcoming notes, hit-window judgment, and the
//! beatmap text format.
//!
//! All times are integer milliseconds on the song timeline.

pub mod components;
pub mod parse;
pub mod resources;
pub mod systems;
pub mod utils;
