//! Conversion of an exported chat archive into a plain-text training corpus.
//!
//! The library holds the verified core: repair of the archive's malformed
//! unicode escape sequences, normalization of decoded records into messages,
//! segmentation of a chronological message stream into sessions, a train/test
//! split that respects session boundaries, and rendering of sessions to text.

use vstd::prelude::*;

pub mod calendar;
pub mod format;
pub mod msg;
pub mod names;
pub mod numfmt;
pub mod records;
pub mod repair;
pub mod split;
pub mod strutil;
pub mod timeline;

verus! {

/// Inactivity gap, in seconds, beyond which two consecutive messages belong
/// to different sessions.
pub const CONVERSATION_TIMEOUT: i64 = 600;

/// Days that must have passed since the current split segment began before
/// the splitter may draw a fresh train/test decision.
pub const TRAIN_TEST_TIMEOUT: i64 = 1;

} // verus!
