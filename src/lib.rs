//! Resource-usage tracking, barrier planning, recording-session lifecycle
//! and command-stream storage for a GPU command encoder.
//!
//! - `storage`: identity-keyed tables.
//! - `track`: per-category usage trackers and their two merges.
//! - `command`: recording sessions, barrier insertion, finish and debug markers.
//! - `pass`: recorded command streams, borrowed and owned.
//! - `push_constant`: chunked zeroing of push constants.
pub mod command;
pub mod pass;
pub mod push_constant;
pub mod storage;
pub mod track;
