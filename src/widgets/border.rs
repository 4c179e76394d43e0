use crate::buffer::{
    cell_at, filled_view, grid_ok, is_last_shown_column, is_last_shown_row, kept_outside,
    lemma_last_column_unique, lemma_last_row_unique, lemma_set_in_rect, set_view, shows_at, Buffer,
    BufferView,
};
use crate::cell::{cell_of, empty_cell, is_blank, is_white_space, Cell, CellView};
use crate::math::{vec2, Vec2};
use crate::render::Render;
use crossterm::style::ContentStyle;
use vstd::prelude::*;

verus! {

/// A box drawn with line glyphs, with an optional title on its top edge.
/// Rendering it fills its inside with spaces and returns the first inside
/// position, for the content to go there. A border smaller than 3 x 3 draws
/// nothing.
pub struct Border {
    pub size: Vec2,
    pub horizontal: &'static str,
    pub vertical: &'static str,
    pub top_left: &'static str,
    pub top_right: &'static str,
    pub bottom_left: &'static str,
    pub bottom_right: &'static str,
    pub title: Option<Buffer>,
    /// `None` draws with the terminal's own style.
    pub style: Option<ContentStyle>,
}

impl Border {
    fn with_glyphs(
        width: u16,
        height: u16,
        horizontal: &'static str,
        vertical: &'static str,
        top_left: &'static str,
        top_right: &'static str,
        bottom_left: &'static str,
        bottom_right: &'static str,
    ) -> (r: Border)
        ensures
            r.size == (Vec2 { x: width, y: height }),
            r.horizontal == horizontal,
            r.vertical == vertical,
            r.top_left == top_left,
            r.top_right == top_right,
            r.bottom_left == bottom_left,
            r.bottom_right == bottom_right,
            r.title is None,
            r.style is None,
    {
        Border {
            size: vec2(width, height),
            horizontal,
            vertical,
            top_left,
            top_right,
            bottom_left,
            bottom_right,
            title: None,
            style: None,
        }
    }

    /// A border with square corners.
    pub fn square(width: u16, height: u16) -> (r: Border)
        ensures
            r.size == (Vec2 { x: width, y: height }),
            r.horizontal == "─" && r.vertical == "│",
            r.top_left == "┌" && r.top_right == "┐",
            r.bottom_left == "└" && r.bottom_right == "┘",
            r.title is None && r.style is None,
            !is_blank(r.top_right@) && !is_blank(r.bottom_left@),
    {
        proof {
            reveal_strlit("┐");
            reveal_strlit("└");
            assert(!is_white_space("┐"@[0]));
            assert(!is_white_space("└"@[0]));
        }
        Border::with_glyphs(width, height, "─", "│", "┌", "┐", "└", "┘")
    }

    /// A border with rounded corners.
    pub fn rounded(width: u16, height: u16) -> (r: Border)
        ensures
            r.size == (Vec2 { x: width, y: height }),
            r.horizontal == "─" && r.vertical == "│",
            r.top_left == "╭" && r.top_right == "╮",
            r.bottom_left == "╰" && r.bottom_right == "╯",
            r.title is None && r.style is None,
            !is_blank(r.top_right@) && !is_blank(r.bottom_left@),
    {
        proof {
            reveal_strlit("╮");
            reveal_strlit("╰");
            assert(!is_white_space("╮"@[0]));
            assert(!is_white_space("╰"@[0]));
        }
        Border::with_glyphs(width, height, "─", "│", "╭", "╮", "╰", "╯")
    }

    /// A border drawn with thick lines.
    pub fn thick(width: u16, height: u16) -> (r: Border)
        ensures
            r.size == (Vec2 { x: width, y: height }),
            r.horizontal == "━" && r.vertical == "┃",
            r.top_left == "┏" && r.top_right == "┓",
            r.bottom_left == "┗" && r.bottom_right == "┛",
            r.title is None && r.style is None,
            !is_blank(r.top_right@) && !is_blank(r.bottom_left@),
    {
        proof {
            reveal_strlit("┓");
            reveal_strlit("┗");
            assert(!is_white_space("┓"@[0]));
            assert(!is_white_space("┗"@[0]));
        }
        Border::with_glyphs(width, height, "━", "┃", "┏", "┓", "┗", "┛")
    }

    /// A border drawn with double lines.
    pub fn double(width: u16, height: u16) -> (r: Border)
        ensures
            r.size == (Vec2 { x: width, y: height }),
            r.horizontal == "═" && r.vertical == "║",
            r.top_left == "╔" && r.top_right == "╗",
            r.bottom_left == "╚" && r.bottom_right == "╝",
            r.title is None && r.style is None,
            !is_blank(r.top_right@) && !is_blank(r.bottom_left@),
    {
        proof {
            reveal_strlit("╗");
            reveal_strlit("╚");
            assert(!is_white_space("╗"@[0]));
            assert(!is_white_space("╚"@[0]));
        }
        Border::with_glyphs(width, height, "═", "║", "╔", "╗", "╚", "╝")
    }

    /// Puts a title on the top edge: the value is rendered once into a
    /// buffer of its own size, which is drawn clipped to the edge.
    pub fn with_title<R: Render>(self, title: R) -> (r: Border)
        ensures
            r.size == self.size,
            r.horizontal == self.horizontal,
            r.vertical == self.vertical,
            r.top_left == self.top_left,
            r.top_right == self.top_right,
            r.bottom_left == self.bottom_left,
            r.bottom_right == self.bottom_right,
            r.style == self.style,
            r.title is Some,
    {
        Border { title: Some(Buffer::sized_element(title)), ..self }
    }

    fn glyph(&self, glyph: &str, x: u32, y: u32, buffer: &mut Buffer)
        ensures
            x <= 0xffff && y <= 0xffff ==> final(buffer)@ == set_view(
                old(buffer)@,
                Vec2 { x: x as u16, y: y as u16 },
                cell_of(glyph@, self.style),
            ),
            !(x <= 0xffff && y <= 0xffff) ==> final(buffer)@ == old(buffer)@,
    {
        if x <= 0xffff && y <= 0xffff {
            let cell = match self.style {
                Some(s) => Cell::new(glyph, s),
                None => Cell::string(glyph),
            };
            buffer.set(vec2(x as u16, y as u16), cell);
        }
    }

    proof fn lemma_glyph_in_box(
        &self,
        a: BufferView,
        b: BufferView,
        glyph: Seq<char>,
        x: int,
        y: int,
        loc: Vec2,
        n: BufferView,
    )
        requires
            grid_ok(b),
            kept_outside(a, b, loc, self.size),
            loc.x <= x < loc.x + self.size.x,
            loc.y <= y < loc.y + self.size.y,
            (x <= 0xffff && y <= 0xffff ==> n == set_view(
                b,
                Vec2 { x: x as u16, y: y as u16 },
                cell_of(glyph, self.style),
            )),
            (!(x <= 0xffff && y <= 0xffff) ==> n == b),
        ensures
            kept_outside(a, n, loc, self.size),
            grid_ok(n),
    {
        if x <= 0xffff && y <= 0xffff {
            lemma_set_in_rect(a, b, Vec2 { x: x as u16, y: y as u16 }, cell_of(glyph, self.style), loc, self.size);
        }
    }
}

proof fn lemma_set_keeps(b: BufferView, loc: Vec2, c: CellView, x: int, y: int)
    requires
        grid_ok(b),
        0 <= x < b.size.x,
        0 <= y < b.size.y,
        (x, y) != (loc.x as int, loc.y as int),
        !(y == loc.y && x == loc.x + 1),
    ensures
        cell_at(set_view(b, loc, c), x, y) == cell_at(b, x, y),
{
}

/// The column of the right edge of a border drawn at `loc`.
pub open spec fn right_edge(b: &Border, loc: Vec2) -> int {
    loc.x + b.size.x - 1
}

/// The row of the bottom edge of a border drawn at `loc`.
pub open spec fn bottom_edge(b: &Border, loc: Vec2) -> int {
    loc.y + b.size.y - 1
}

impl Render for Border {
    fn render(&self, loc: Vec2, buffer: &mut Buffer) -> (r: Vec2)
        ensures
            (self.size.x < 3 || self.size.y < 3) ==> final(buffer)@ == old(buffer)@ && r == loc,
            kept_outside(old(buffer)@, final(buffer)@, loc, self.size),
            (self.size.x >= 3 && self.size.y >= 3 && right_edge(self, loc) < old(buffer)@.size.x
                && bottom_edge(self, loc) < old(buffer)@.size.y) ==> cell_at(
                final(buffer)@,
                right_edge(self, loc),
                loc.y as int,
            ) == cell_of(self.top_right@, self.style) && cell_at(
                final(buffer)@,
                loc.x as int,
                bottom_edge(self, loc),
            ) == cell_of(self.bottom_left@, self.style),
    {
        let ghost start = buffer@;
        proof {
            buffer.lemma_grid();
        }
        if self.size.x < 3 || self.size.y < 3 {
            return loc;
        }
        let left = loc.x as u32;
        let top = loc.y as u32;
        let right = left + self.size.x as u32 - 1;
        let bottom = top + self.size.y as u32 - 1;
        // The inside, blank, and the left and right edges.
        let mut y = top + 1;
        while y < bottom
            invariant
                buffer@.size == old(buffer)@.size,
                kept_outside(start, buffer@, loc, self.size),
                start == old(buffer)@,
                self.size.x >= 3 && self.size.y >= 3,
                right == loc.x + self.size.x - 1,
                bottom == loc.y + self.size.y - 1,
                left == loc.x,
                top == loc.y,
                top < y,
            decreases bottom - y,
        {
            let mut x = left + 1;
            while x < right
                invariant
                    buffer@.size == old(buffer)@.size,
                    kept_outside(start, buffer@, loc, self.size),
                    self.size.x >= 3 && self.size.y >= 3,
                right == loc.x + self.size.x - 1,
                    bottom == loc.y + self.size.y - 1,
                    left == loc.x,
                    top == loc.y,
                    top < y < bottom,
                    left < x,
                decreases right - x,
            {
                let ghost b0 = buffer@;
                proof { buffer.lemma_grid(); }
                self.glyph(" ", x, y, buffer);
                proof { self.lemma_glyph_in_box(start, b0, " "@, x as int, y as int, loc, buffer@); }
                x = x + 1;
            }
            let ghost b1 = buffer@;
            proof { buffer.lemma_grid(); }
            self.glyph(self.vertical, left, y, buffer);
            proof { self.lemma_glyph_in_box(start, b1, self.vertical@, left as int, y as int, loc, buffer@); }
            let ghost b2 = buffer@;
            proof { buffer.lemma_grid(); }
            self.glyph(self.vertical, right, y, buffer);
            proof { self.lemma_glyph_in_box(start, b2, self.vertical@, right as int, y as int, loc, buffer@); }
            y = y + 1;
        }
        // The top and bottom edges.
        let ghost b3 = buffer@;
        proof { buffer.lemma_grid(); }
        self.glyph(self.top_left, left, top, buffer);
        proof { self.lemma_glyph_in_box(start, b3, self.top_left@, left as int, top as int, loc, buffer@); }
        let ghost b4 = buffer@;
        proof { buffer.lemma_grid(); }
        self.glyph(self.bottom_left, left, bottom, buffer);
        proof { self.lemma_glyph_in_box(start, b4, self.bottom_left@, left as int, bottom as int, loc, buffer@); }
        let ghost corner_ok = right < buffer@.size.x && bottom < buffer@.size.y;
        let mut x = left + 1;
        while x < right
            invariant
                buffer@.size == old(buffer)@.size,
                kept_outside(start, buffer@, loc, self.size),
                self.size.x >= 3 && self.size.y >= 3,
                right == loc.x + self.size.x - 1,
                bottom == loc.y + self.size.y - 1,
                left == loc.x,
                top == loc.y,
                top < bottom,
                left < x,
                corner_ok == (right < buffer@.size.x && bottom < buffer@.size.y),
                corner_ok ==> cell_at(buffer@, left as int, bottom as int) == cell_of(
                    self.bottom_left@,
                    self.style,
                ),
            decreases right - x,
        {
            let ghost b5 = buffer@;
            proof { buffer.lemma_grid(); }
            self.glyph(self.horizontal, x, top, buffer);
            proof {
                self.lemma_glyph_in_box(start, b5, self.horizontal@, x as int, top as int, loc, buffer@);
                if corner_ok {
                    lemma_set_keeps(b5, Vec2 { x: x as u16, y: top as u16 }, cell_of(self.horizontal@, self.style), left as int, bottom as int);
                }
            }
            let ghost b6 = buffer@;
            proof { buffer.lemma_grid(); }
            self.glyph(self.horizontal, x, bottom, buffer);
            proof {
                self.lemma_glyph_in_box(start, b6, self.horizontal@, x as int, bottom as int, loc, buffer@);
                if corner_ok {
                    lemma_set_keeps(b6, Vec2 { x: x as u16, y: bottom as u16 }, cell_of(self.horizontal@, self.style), left as int, bottom as int);
                }
            }
            x = x + 1;
        }
        let ghost b7 = buffer@;
        proof { buffer.lemma_grid(); }
        self.glyph(self.top_right, right, top, buffer);
        proof {
            self.lemma_glyph_in_box(start, b7, self.top_right@, right as int, top as int, loc, buffer@);
            if corner_ok {
                lemma_set_keeps(b7, Vec2 { x: right as u16, y: top as u16 }, cell_of(self.top_right@, self.style), left as int, bottom as int);
            }
        }
        let ghost b8 = buffer@;
        proof { buffer.lemma_grid(); }
        self.glyph(self.bottom_right, right, bottom, buffer);
        proof {
            self.lemma_glyph_in_box(start, b8, self.bottom_right@, right as int, bottom as int, loc, buffer@);
            if corner_ok {
                lemma_set_keeps(b8, Vec2 { x: right as u16, y: bottom as u16 }, cell_of(self.bottom_right@, self.style), left as int, bottom as int);
                lemma_set_keeps(b8, Vec2 { x: right as u16, y: bottom as u16 }, cell_of(self.bottom_right@, self.style), right as int, top as int);
            }
        }
        // The title, clipped to the top edge between the corners.
        if let Some(title) = &self.title {
            if loc.x < 0xffff {
                let ghost b9 = buffer@;
                title.render_clipped(vec2(loc.x + 1, loc.y), vec2(self.size.x - 2, 1), buffer);
                proof {
                    let cur = buffer@;
                    assert forall|xx: int, yy: int|
                        0 <= xx < start.size.x && 0 <= yy < start.size.y && !(loc.x <= xx < loc.x + self.size.x && loc.y <= yy < loc.y
                            + self.size.y) implies #[trigger] cell_at(cur, xx, yy) == cell_at(start, xx, yy) || (xx == loc.x + self.size.x
                            && loc.y <= yy < loc.y + self.size.y && cell_at(cur, xx, yy) == empty_cell()) by {
                        assert(cell_at(cur, xx, yy) == cell_at(b9, xx, yy));
                    }
                    if corner_ok {
                        assert(cell_at(cur, right as int, top as int) == cell_at(b9, right as int, top as int));
                        assert(cell_at(cur, left as int, bottom as int) == cell_at(b9, left as int, bottom as int));
                    }
                }
            }
        }
        vec2(loc.x.saturating_add(1), loc.y.saturating_add(1))
    }

    fn size(&self) -> (r: Vec2) {
        self.size
    }
}

} // verus!

verus! {

/// A border of at least 3 x 3 whose top-right and bottom-left glyphs show
/// something, drawn at the origin of an empty grid that can hold it, leaves
/// exactly its own extent: its right edge is the last column and its bottom
/// edge the last row that show something, so shrinking gives its size.
pub proof fn lemma_border_extent(border: &Border, size: Vec2, after: BufferView)
    requires
        border.size.x >= 3,
        border.size.y >= 3,
        border.size.x <= size.x,
        border.size.y <= size.y,
        !is_blank(border.top_right@),
        !is_blank(border.bottom_left@),
        kept_outside(filled_view(size, empty_cell()), after, Vec2 { x: 0, y: 0 }, border.size),
        cell_at(after, border.size.x - 1, 0) == cell_of(border.top_right@, border.style),
        cell_at(after, 0, border.size.y - 1) == cell_of(border.bottom_left@, border.style),
    ensures
        forall|m: int| is_last_shown_column(after, m) <==> m == border.size.x - 1,
        forall|m: int| is_last_shown_row(after, m) <==> m == border.size.y - 1,
{
    let bx = border.size.x - 1;
    let by = border.size.y - 1;
    assert(is_white_space(' '));
    assert(is_blank(empty_cell().text));
    assert(shows_at(after, bx, 0));
    assert(shows_at(after, 0, by));
    assert forall|x: int, y: int|
        0 <= x < after.size.x && 0 <= y < after.size.y && #[trigger] shows_at(after, x, y) implies x
            <= bx && y <= by by {
        if !(0 <= x < border.size.x && 0 <= y < border.size.y) {
            assert(cell_at(filled_view(size, empty_cell()), x, y) == empty_cell());
        }
    }
    assert(is_last_shown_column(after, bx));
    assert(is_last_shown_row(after, by));
    assert forall|m: int| is_last_shown_column(after, m) <==> m == bx by {
        if is_last_shown_column(after, m) {
            lemma_last_column_unique(after, m, bx);
        }
    }
    assert forall|m: int| is_last_shown_row(after, m) <==> m == by by {
        if is_last_shown_row(after, m) {
            lemma_last_row_unique(after, m, by);
        }
    }
}

} // verus!
