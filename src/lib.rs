//! Tracks, for a set of named events, when each last happened, and says in
//! words how long ago that was.
pub mod timestamp;
pub mod store;
pub mod clock;
pub mod json;
pub mod humanize;
