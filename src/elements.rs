//! Renderable values built from cells.

pub mod nine_slice;
