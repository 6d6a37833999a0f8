//! Helpers for matching literal grapheme cluster sequences against spans.
pub mod tag;

pub use tag::{SegmentContents, Tag};
