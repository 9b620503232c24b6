//! Offset-addressed, bounds-checked reads over a borrowed byte buffer:
//! big-endian integers, zero-terminated text and nested sub-views.
//!
//! Two accessors share one read contract. [`debug::FancySlice`] keeps the
//! whole buffer and a window into it, so that every view can still name
//! absolute offsets and search the buffer. [`simple::FancySlice`] keeps
//! only the window, and is the one that the crate root names `FancySlice`.

pub mod bounds;
pub mod debug;
pub mod decode;
pub mod scan;
pub mod simple;
pub mod text;

pub use bounds::{bound, lower_bound, Bound};
pub use simple::FancySlice;
