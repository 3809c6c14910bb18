//! Unicode-aware text alignment and table formatting for fixed-width
//! terminal output.
//!
//! The [`align`] module lays single texts and sequences of fragments out
//! over an exact display width; the [`table`] module renders rows of
//! cells into such lines, dropping the least important columns when the
//! width budget is too small.

pub mod align;
pub mod table;
