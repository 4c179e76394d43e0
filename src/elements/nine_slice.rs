use crate::buffer::Buffer;
use crate::cell::Cell;
use crate::math::{vec2, Vec2};
use crate::render::Render;
use vstd::prelude::*;

verus! {

/// A box drawn from nine cells: four corners, four edges repeated along the
/// sides, and a centre repeated over the inside. The cells are given row by
/// row, top-left first.
#[derive(Clone, Debug)]
pub struct NineSlice {
    cells: [Cell; 9],
    width: u16,
    height: u16,
}

impl NineSlice {
    /// A nine-slice box of the given size (at least 1 x 1).
    pub fn new(cells: [Cell; 9], size: Vec2) -> (r: NineSlice)
        requires
            size.x >= 1,
            size.y >= 1,
    {
        NineSlice { cells, width: size.x - 1, height: size.y - 1 }
    }

    fn put(&self, i: usize, x: u32, y: u32, buffer: &mut Buffer)
        requires
            i < 9,
        ensures
            final(buffer)@.size == old(buffer)@.size,
    {
        if x <= 0xffff && y <= 0xffff {
            buffer.set(vec2(x as u16, y as u16), self.cells[i].clone());
        }
    }
}

impl Render for NineSlice {
    fn render(&self, loc: Vec2, buffer: &mut Buffer) -> (r: Vec2) {
        let left = loc.x as u32;
        let top = loc.y as u32;
        let right = left + self.width as u32;
        let bottom = top + self.height as u32;
        // Top and bottom edges, with the centre between them.
        let mut x = left + 1;
        while x < right
            invariant
                buffer@.size == old(buffer)@.size,
                right <= 0x1fffe,
                bottom <= 0x1fffe,
                top <= 0xffff,
            decreases right - x,
        {
            self.put(1, x, top, buffer);
            self.put(7, x, bottom, buffer);
            let mut y = top + 1;
            while y < bottom
                invariant
                    buffer@.size == old(buffer)@.size,
                    bottom <= 0x1fffe,
                decreases bottom - y,
            {
                self.put(4, x, y, buffer);
                y = y + 1;
            }
            x = x + 1;
        }
        // Left and right edges.
        let mut y = top + 1;
        while y < bottom
            invariant
                buffer@.size == old(buffer)@.size,
                bottom <= 0x1fffe,
            decreases bottom - y,
        {
            self.put(3, left, y, buffer);
            self.put(5, right, y, buffer);
            y = y + 1;
        }
        // Corners.
        self.put(0, left, top, buffer);
        self.put(2, right, top, buffer);
        self.put(6, left, bottom, buffer);
        self.put(8, right, bottom, buffer);
        loc
    }
}

} // verus!
