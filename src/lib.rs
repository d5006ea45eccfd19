//! Unicode line-break offsets for UTF-8 text.
//!
//! The Unicode line-breaking rules are evaluated by ICU4X's `LineSegmenter`;
//! this library turns the segmenter's breakpoints into the offsets it
//! reports and proves what holds of them for every text.

pub mod offsets;
pub mod segment;

pub use offsets::offsets_from_breakpoints;
pub use segment::line_break_points;
