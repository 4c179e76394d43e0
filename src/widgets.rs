//! Ready-made renderable values.

pub mod border;
