//! Turns a time-aligned word transcript into display-ready subtitle blocks.
//!
//! The pipeline has three stages: a token aligner that reconciles a
//! language-aware segmentation of an utterance with its per-word timestamps,
//! a line splitter that partitions the word stream into subtitle lines under
//! length, duration and punctuation constraints, and a block merger that
//! coalesces adjacent short blocks. Timestamps are integer milliseconds and
//! text is a sequence of characters, so every stage is specified over plain
//! mathematical values.
use vstd::prelude::*;

pub mod align;
pub mod laws;
pub mod merge;
pub mod split;
pub mod subtitle;
pub mod text;
pub mod time_format;
pub mod tokenizer;

verus! {

/// A line at or above this many characters should be broken.
pub const LINE_MAX_WORD_LENGTH: usize = 16;

/// A line at or above this many characters may be broken at punctuation.
pub const LINE_MIN_WORD_LENGTH: usize = 10;

/// A line longer than this many milliseconds should be broken.
pub const LINE_MAX_DURATION_MS: u64 = 10000;

/// A block shorter than this many milliseconds wants to be merged into a
/// neighbor, and two blocks further apart than this are never merged.
pub const MERGE_THRESHOLD_MS: u64 = 1000;

} // verus!
