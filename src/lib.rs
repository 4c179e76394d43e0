//! A terminal rendering engine: styled cell buffers with wide-glyph aware
//! placement, a minimal frame diff, a grid layout solver and the decision
//! logic of a terminal window session.

pub mod buffer;
pub mod cell;
pub mod elements;
pub mod input;
pub mod layout;
pub mod math;
pub mod render;
pub mod widgets;
pub mod window;
