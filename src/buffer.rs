use crate::cell::{empty_cell, is_blank, Cell, CellView};
use crate::render::Render;
use crate::math::{vec2, Vec2};
use vstd::prelude::*;

verus! {

/// The mathematical content of a buffer: its size and its grid of cells,
/// `rows[y][x]` being the cell in column `x` of row `y`.
pub struct BufferView {
    pub size: Vec2,
    pub rows: Seq<Seq<CellView>>,
}

/// The grid has `size.y` rows of `size.x` cells each.
pub open spec fn grid_ok(b: BufferView) -> bool {
    &&& b.rows.len() == b.size.y
    &&& forall|y: int| 0 <= y < b.size.y ==> (#[trigger] b.rows[y]).len() == b.size.x
}

/// Whether `loc` names a cell of a grid of the given size.
pub open spec fn in_bounds(size: Vec2, loc: Vec2) -> bool {
    loc.x < size.x && loc.y < size.y
}

/// The cell at column `x` of row `y`.
pub open spec fn cell_at(b: BufferView, x: int, y: int) -> CellView {
    b.rows[y][x]
}

/// A grid of the given size whose every cell is `c`.
pub open spec fn filled_view(size: Vec2, c: CellView) -> BufferView {
    BufferView {
        size,
        rows: Seq::new(size.y as nat, |y: int| Seq::new(size.x as nat, |x: int| c)),
    }
}

/// The grid with one cell replaced.
pub open spec fn put(b: BufferView, x: int, y: int, c: CellView) -> BufferView {
    BufferView { size: b.size, rows: b.rows.update(y, b.rows[y].update(x, c)) }
}

/// What `set` makes of a grid: out of bounds nothing changes; otherwise the
/// cell is replaced and, for a cell wider than one column, the next column
/// (where there is one) becomes an empty continuation placeholder.
pub open spec fn set_view(b: BufferView, loc: Vec2, c: CellView) -> BufferView {
    if !in_bounds(b.size, loc) {
        b
    } else {
        let b1 = if c.width > 1 && loc.x + 1 < b.size.x {
            put(b, loc.x + 1, loc.y as int, empty_cell())
        } else {
            b
        };
        put(b1, loc.x as int, loc.y as int, c)
    }
}

/// The grid after a resize: cells inside both sizes are kept, new ones are empty.
pub open spec fn resized_view(b: BufferView, size: Vec2) -> BufferView {
    BufferView {
        size,
        rows: Seq::new(
            size.y as nat,
            |y: int|
                Seq::new(
                    size.x as nat,
                    |x: int|
                        if x < b.size.x && y < b.size.y {
                            cell_at(b, x, y)
                        } else {
                            empty_cell()
                        },
                ),
        ),
    }
}

/// A grid of the given size holding the cells of `b` that lie in both sizes
/// and come before row `y`, column `x` in row-major order; the rest is empty.
pub open spec fn copied_view(b: BufferView, size: Vec2, y: int, x: int) -> BufferView {
    BufferView {
        size,
        rows: Seq::new(
            size.y as nat,
            |yy: int|
                Seq::new(
                    size.x as nat,
                    |xx: int|
                        if xx < b.size.x && yy < b.size.y && (yy < y || (yy == y && xx < x)) {
                            cell_at(b, xx, yy)
                        } else {
                            empty_cell()
                        },
                ),
        ),
    }
}

/// `loc` moved by `d`, each coordinate stopping at the largest value.
pub open spec fn vec2_sat(loc: Vec2, d: Vec2) -> Vec2 {
    Vec2 {
        x: if loc.x + d.x > 0xffff {
            0xffff
        } else {
            (loc.x + d.x) as u16
        },
        y: if loc.y + d.y > 0xffff {
            0xffff
        } else {
            (loc.y + d.y) as u16
        },
    }
}

/// Whether the cell at column `x` of row `y` shows something.
pub open spec fn shows_at(b: BufferView, x: int, y: int) -> bool {
    !is_blank(cell_at(b, x, y).text)
}

/// `m` is the last column that shows something (0 where none does).
pub open spec fn is_last_shown_column(b: BufferView, m: int) -> bool {
    &&& 0 <= m
    &&& forall|x: int, y: int|
        0 <= x < b.size.x && 0 <= y < b.size.y && #[trigger] shows_at(b, x, y) ==> x <= m
    &&& (m == 0 || exists|y: int| 0 <= y < b.size.y && #[trigger] shows_at(b, m, y))
    &&& (m == 0 || m < b.size.x)
}

/// `m` is the last row that shows something (0 where none does).
pub open spec fn is_last_shown_row(b: BufferView, m: int) -> bool {
    &&& 0 <= m
    &&& forall|x: int, y: int|
        0 <= x < b.size.x && 0 <= y < b.size.y && #[trigger] shows_at(b, x, y) ==> y <= m
    &&& (m == 0 || exists|x: int| 0 <= x < b.size.x && #[trigger] shows_at(b, x, m))
    &&& (m == 0 || m < b.size.y)
}

/// The columns that the walk of a diff passes over after writing `c`:
/// a wide cell covers its continuation columns.
pub open spec fn skip_after(c: CellView) -> int {
    if c.width > 0 {
        c.width - 1
    } else {
        0
    }
}

/// The writes that a diff of row `y` makes from column `x` on, while the
/// next `skip` columns are covered by a wide cell written before. With `all`
/// every position counts as changed (a full repaint of `b`).
pub open spec fn diff_row(a: BufferView, b: BufferView, y: int, x: int, skip: int, all: bool) -> Seq<
    (Vec2, CellView),
>
    decreases b.size.x - x,
{
    if x < 0 || x >= b.size.x {
        Seq::empty()
    } else if skip > 0 {
        diff_row(a, b, y, x + 1, skip - 1, all)
    } else if all || cell_at(a, x, y) != cell_at(b, x, y) {
        seq![(Vec2 { x: x as u16, y: y as u16 }, cell_at(b, x, y))] + diff_row(
            a,
            b,
            y,
            x + 1,
            skip_after(cell_at(b, x, y)),
            all,
        )
    } else {
        diff_row(a, b, y, x + 1, 0, all)
    }
}

/// The writes that a diff makes in the rows before row `y`, in row-major order.
pub open spec fn diff_rows(a: BufferView, b: BufferView, y: int, all: bool) -> Seq<(Vec2, CellView)>
    decreases y,
{
    if y <= 0 {
        Seq::empty()
    } else {
        diff_rows(a, b, y - 1, all) + diff_row(a, b, y - 1, 0, 0, all)
    }
}

/// The writes that bring a screen showing `a` to show `b`: every position
/// where the two differ, in row-major order, except the columns covered by
/// a wide cell that was just written.
pub open spec fn diff_view(a: BufferView, b: BufferView) -> Seq<(Vec2, CellView)> {
    diff_rows(a, b, b.size.y as int, false)
}

/// The writes that paint all of `b` on a screen whose content is unknown:
/// every cell in row-major order, passing over the columns a wide cell covers.
pub open spec fn repaint_view(b: BufferView) -> Seq<(Vec2, CellView)> {
    diff_rows(b, b, b.size.y as int, true)
}

/// Every cell outside the rectangle at `at` of size `clip` is the same in
/// both grids, and so is the size.
pub open spec fn unchanged_outside(a: BufferView, b: BufferView, at: Vec2, clip: Vec2) -> bool {
    &&& a.size == b.size
    &&& forall|x: int, y: int|
        0 <= x < a.size.x && 0 <= y < a.size.y && !(at.x <= x < at.x + clip.x && at.y <= y < at.y
            + clip.y) ==> #[trigger] cell_at(b, x, y) == cell_at(a, x, y)
}

pub(crate) proof fn lemma_set_inside(b: BufferView, loc: Vec2, c: crate::cell::CellView, at: Vec2, clip: Vec2)
    requires
        grid_ok(b),
        at.x <= loc.x,
        at.y <= loc.y,
        loc.y < at.y + clip.y,
        loc.x + (if c.width > 1 {
            c.width as int
        } else {
            1
        }) <= at.x + clip.x,
    ensures
        unchanged_outside(b, set_view(b, loc, c), at, clip),
{
}

/// Outside the rectangle at `at` of size `size`, every cell of `b` is as in
/// `a`, but for the column just right of the rectangle, where a wide cell at
/// its right edge may have left an empty continuation placeholder.
pub open spec fn kept_outside(a: BufferView, b: BufferView, at: Vec2, size: Vec2) -> bool {
    &&& a.size == b.size
    &&& forall|x: int, y: int|
        0 <= x < a.size.x && 0 <= y < a.size.y && !(at.x <= x < at.x + size.x && at.y <= y < at.y
            + size.y) ==> #[trigger] cell_at(b, x, y) == cell_at(a, x, y) || (x == at.x + size.x
            && at.y <= y < at.y + size.y && cell_at(b, x, y) == empty_cell())
}

pub(crate) proof fn lemma_set_in_rect(a: BufferView, b: BufferView, loc: Vec2, c: CellView, at: Vec2, size: Vec2)
    requires
        grid_ok(b),
        kept_outside(a, b, at, size),
        at.x <= loc.x < at.x + size.x,
        at.y <= loc.y < at.y + size.y,
    ensures
        kept_outside(a, set_view(b, loc, c), at, size),
{
    let n = set_view(b, loc, c);
    assert forall|x: int, y: int|
        0 <= x < a.size.x && 0 <= y < a.size.y && !(at.x <= x < at.x + size.x && at.y <= y < at.y
            + size.y) implies #[trigger] cell_at(n, x, y) == cell_at(a, x, y) || (x == at.x + size.x
            && at.y <= y < at.y + size.y && cell_at(n, x, y) == empty_cell()) by {
        assert(cell_at(b, x, y) == cell_at(a, x, y) || (x == at.x + size.x && at.y <= y < at.y
            + size.y && cell_at(b, x, y) == empty_cell()));
    }
}

/// `after` is `before` with `src` pasted at `at`: every cell of `src` whose
/// place lies inside `before` is there, and the size is kept.
pub open spec fn pasted(before: BufferView, after: BufferView, src: BufferView, at: Vec2) -> bool {
    &&& after.size == before.size
    &&& forall|x: int, y: int|
        0 <= x < src.size.x && 0 <= y < src.size.y && at.x + x < after.size.x && at.y + y
            < after.size.y ==> #[trigger] cell_at(src, x, y) == cell_at(after, at.x + x, at.y + y)
}

/// Column `x` of row `y` of `src`, drawn at `at` clipped to `clip`, lies in
/// `dst` and fits the clip whole (a wide cell with all its columns).
pub open spec fn fits_in_clip(dst: Vec2, src: BufferView, at: Vec2, clip: Vec2, x: int, y: int) -> bool {
    &&& 0 <= x < src.size.x
    &&& 0 <= y < src.size.y
    &&& y < clip.y
    &&& at.x + x < dst.x
    &&& at.y + y < dst.y
    &&& x + span(cell_at(src, x, y)) <= clip.x
}

/// Every cell of `src` that fits the clip whole is in `dst` at its place.
pub open spec fn clipped_pasted(dst: BufferView, src: BufferView, at: Vec2, clip: Vec2) -> bool {
    forall|x: int, y: int|
        #[trigger] fits_in_clip(dst.size, src, at, clip, x, y) ==> cell_at(dst, at.x + x, at.y + y)
            == cell_at(src, x, y)
}

/// The flat index of a cell in a row-major store.
pub open spec fn flat_index(width: int, x: int, y: int) -> int {
    y * width + x
}

proof fn lemma_index_bounds(w: int, h: int, x: int, y: int)
    requires
        0 <= x < w,
        0 <= y < h,
    ensures
        0 <= flat_index(w, x, y) < w * h,
        flat_index(w, x, y) + 1 <= (y + 1) * w,
        y * w <= flat_index(w, x, y),
{
    assert(0 <= y * w) by (nonlinear_arith)
        requires
            0 <= y,
            0 <= w,
    ;
    assert((y + 1) * w <= h * w) by (nonlinear_arith)
        requires
            y + 1 <= h,
            0 <= w,
    ;
    assert((y + 1) * w == y * w + w) by (nonlinear_arith);
    assert(h * w == w * h) by (nonlinear_arith);
}

proof fn lemma_index_distinct(w: int, h: int, x1: int, y1: int, x2: int, y2: int)
    requires
        0 <= x1 < w,
        0 <= y1 < h,
        0 <= x2 < w,
        0 <= y2 < h,
        (x1, y1) != (x2, y2),
    ensures
        flat_index(w, x1, y1) != flat_index(w, x2, y2),
{
    lemma_index_bounds(w, h, x1, y1);
    lemma_index_bounds(w, h, x2, y2);
    if y1 < y2 {
        assert((y1 + 1) * w <= y2 * w) by (nonlinear_arith)
            requires
                y1 + 1 <= y2,
                0 <= w,
        ;
    } else if y2 < y1 {
        assert((y2 + 1) * w <= y1 * w) by (nonlinear_arith)
            requires
                y2 + 1 <= y1,
                0 <= w,
        ;
    }
}

/// A screen buffer: a grid of cells of a fixed size, stored row by row.
#[derive(Debug)]
pub struct Buffer {
    size: Vec2,
    cells: Vec<Cell>,
}

impl View for Buffer {
    type V = BufferView;

    closed spec fn view(&self) -> BufferView {
        store_view(self.size, self.cells@)
    }
}

/// The grid that a row-major store of cells holds.
spec fn store_view(size: Vec2, cells: Seq<Cell>) -> BufferView {
    BufferView {
        size,
        rows: Seq::new(
            size.y as nat,
            |y: int| Seq::new(size.x as nat, |x: int| cells[flat_index(size.x as int, x, y)]@),
        ),
    }
}

proof fn lemma_store_put(size: Vec2, cells: Seq<Cell>, x: int, y: int, c: Cell)
    requires
        cells.len() == size.x * size.y,
        0 <= x < size.x,
        0 <= y < size.y,
    ensures
        store_view(size, cells.update(flat_index(size.x as int, x, y), c)) == put(
            store_view(size, cells),
            x,
            y,
            c@,
        ),
{
    let w = size.x as int;
    let h = size.y as int;
    lemma_index_bounds(w, h, x, y);
    let n = store_view(size, cells.update(flat_index(w, x, y), c));
    let expected = put(store_view(size, cells), x, y, c@);
    assert forall|y2: int| 0 <= y2 < h implies #[trigger] n.rows[y2] =~= expected.rows[y2] by {
        assert forall|x2: int| 0 <= x2 < w implies n.rows[y2][x2] == expected.rows[y2][x2] by {
            lemma_index_bounds(w, h, x2, y2);
            if (x2, y2) != (x, y) {
                lemma_index_distinct(w, h, x, y, x2, y2);
            }
        }
    }
    assert(n.rows =~= expected.rows);
}

impl Buffer {
    /// The store holds exactly one cell per grid position.
    #[verifier::type_invariant]
    pub closed spec fn wf(&self) -> bool {
        self.cells@.len() == self.size.x * self.size.y
    }

    /// The view of a buffer is always a grid of its size.
    pub proof fn lemma_grid(&self)
        ensures
            grid_ok(self@),
    {
    }

    proof fn lemma_store_update(&self, old_b: &Buffer, x: int, y: int)
        requires
            old_b.wf(),
            self.size == old_b.size,
            0 <= x < self.size.x,
            0 <= y < self.size.y,
            self.cells@ == old_b.cells@.update(
                flat_index(self.size.x as int, x, y),
                self.cells@[flat_index(self.size.x as int, x, y)],
            ),
        ensures
            self.wf(),
            self@ == put(old_b@, x, y, self.cells@[flat_index(self.size.x as int, x, y)]@),
    {
        let w = self.size.x as int;
        let h = self.size.y as int;
        lemma_index_bounds(w, h, x, y);
        let c = self.cells@[flat_index(w, x, y)]@;
        let expected = put(old_b@, x, y, c);
        assert forall|y2: int| 0 <= y2 < h implies #[trigger] self@.rows[y2] =~= expected.rows[y2] by {
            assert forall|x2: int| 0 <= x2 < w implies self@.rows[y2][x2] == expected.rows[y2][x2] by {
                lemma_index_bounds(w, h, x2, y2);
                if (x2, y2) != (x, y) {
                    lemma_index_distinct(w, h, x, y, x2, y2);
                }
            }
        }
        assert(self@.rows =~= expected.rows);
    }

    /// Creates a buffer of the given size whose every cell is empty.
    pub fn new(size: Vec2) -> (r: Buffer)
        ensures
            r@ == filled_view(size, empty_cell()),
    {
        Buffer::new_filled(size, Cell::default())
    }

    /// Creates a buffer of the given size whose every cell is `cell`.
    pub fn new_filled(size: Vec2, cell: Cell) -> (r: Buffer)
        ensures
            r@ == filled_view(size, cell@),
    {
        proof {
            assert((size.x as int) * (size.y as int) <= 0xffff * 0xffff) by (nonlinear_arith)
                requires
                    size.x <= 0xffff,
                    size.y <= 0xffff,
            ;
        }
        let n = (size.x as u32 * size.y as u32) as usize;
        let mut cells: Vec<Cell> = Vec::new();
        let mut i: usize = 0;
        while i < n
            invariant
                n == size.x * size.y,
                i <= n,
                cells@.len() == i,
                forall|j: int| 0 <= j < i ==> (#[trigger] cells@[j])@ == cell@,
            decreases n - i,
        {
            cells.push(cell.clone());
            i = i + 1;
        }
        let r = Buffer { size, cells };
        proof {
            let w = size.x as int;
            let h = size.y as int;
            assert forall|y: int| 0 <= y < h implies #[trigger] r@.rows[y] =~= filled_view(
                size,
                cell@,
            ).rows[y] by {
                assert forall|x: int| 0 <= x < w implies r@.rows[y][x] == cell@ by {
                    lemma_index_bounds(w, h, x, y);
                }
            }
            assert(r@.rows =~= filled_view(size, cell@).rows);
        }
        r
    }

    /// Returns the size of the buffer.
    pub fn size(&self) -> (r: Vec2)
        ensures
            r == self@.size,
    {
        self.size
    }

    fn index_of(&self, loc: Vec2) -> (r: Option<usize>)
        requires
            self.wf(),
        ensures
            r is Some <==> in_bounds(self@.size, loc),
            r is Some ==> r->0 == flat_index(self.size.x as int, loc.x as int, loc.y as int)
                && r->0 < self.cells@.len(),
    {
        let n = self.cells.len();
        if loc.x < self.size.x && loc.y < self.size.y {
            proof {
                lemma_index_bounds(self.size.x as int, self.size.y as int, loc.x as int, loc.y as int);
            }
            Some(loc.y as usize * self.size.x as usize + loc.x as usize)
        } else {
            None
        }
    }

    /// Sets the cell at `loc`; out of bounds it does nothing. A cell wider than
    /// one column also empties the next column, so no half glyph remains.
    pub fn set(&mut self, loc: Vec2, cell: Cell)
        ensures
            final(self)@ == set_view(old(self)@, loc, cell@),
    {
        if loc.x < self.size.x && loc.y < self.size.y {
            if cell.width() > 1 && loc.x + 1 < self.size.x {
                self.put_cell(loc.x + 1, loc.y, Cell::default());
            }
            self.put_cell(loc.x, loc.y, cell);
        }
    }

    /// Sets every cell of the buffer to `cell`.
    pub fn fill(&mut self, cell: Cell)
        ensures
            final(self)@ == filled_view(old(self)@.size, cell@),
    {
        *self = Buffer::new_filled(self.size, cell);
    }

    fn put_cell(&mut self, x: u16, y: u16, cell: Cell)
        requires
            x < old(self)@.size.x,
            y < old(self)@.size.y,
        ensures
            final(self)@ == put(old(self)@, x as int, y as int, cell@),
    {
        proof {
            use_type_invariant(&*self);
        }
        let idx = self.index_of(vec2(x, y)).unwrap();
        let mut taken = Buffer { size: vec2(0, 0), cells: Vec::new() };
        std::mem::swap(self, &mut taken);
        let ghost before = taken;
        let Buffer { size, mut cells } = taken;
        cells.set(idx, cell);
        let after = Buffer { size, cells };
        proof {
            after.lemma_store_update(&before, x as int, y as int);
        }
        *self = after;
    }

    /// Changes the size of the buffer. Cells that lie inside both the old and
    /// the new size keep their place; the other new cells are empty.
    pub fn resize(&mut self, new_size: Vec2)
        ensures
            final(self)@ == resized_view(old(self)@, new_size),
    {
        let ghost src = self@;
        let mut next = Buffer::new(new_size);
        let h = if self.size.y < new_size.y { self.size.y } else { new_size.y };
        let w = if self.size.x < new_size.x { self.size.x } else { new_size.x };
        proof {
            let b = copied_view(src, new_size, 0, 0);
            assert forall|yy: int| 0 <= yy < new_size.y implies #[trigger] next@.rows[yy] =~= b.rows[yy] by {}
            assert(next@.rows =~= b.rows);
        }
        let mut y: u16 = 0;
        while y < h
            invariant
                self@ == src,
                h <= src.size.y && h <= new_size.y,
                w <= src.size.x && w <= new_size.x,
                h == src.size.y || h == new_size.y,
                w == src.size.x || w == new_size.x,
                y <= h,
                next@ == copied_view(src, new_size, y as int, 0),
            decreases h - y,
        {
            let mut x: u16 = 0;
            while x < w
                invariant
                    self@ == src,
                    h <= src.size.y && h <= new_size.y,
                    w <= src.size.x && w <= new_size.x,
                    w == src.size.x || w == new_size.x,
                    y < h,
                    x <= w,
                    next@ == copied_view(src, new_size, y as int, x as int),
                decreases w - x,
            {
                let c = self.get(vec2(x, y)).unwrap().clone();
                next.put_cell(x, y, c);
                proof {
                    let a = put(copied_view(src, new_size, y as int, x as int), x as int, y as int, c@);
                    let b = copied_view(src, new_size, y as int, x + 1);
                    assert forall|yy: int| 0 <= yy < new_size.y implies #[trigger] a.rows[yy] =~= b.rows[yy] by {}
                    assert(a.rows =~= b.rows);
                }
                x = x + 1;
            }
            proof {
                let a = copied_view(src, new_size, y as int, w as int);
                let b = copied_view(src, new_size, y + 1, 0);
                assert forall|yy: int| 0 <= yy < new_size.y implies #[trigger] a.rows[yy] =~= b.rows[yy] by {}
                assert(a.rows =~= b.rows);
            }
            y = y + 1;
        }
        proof {
            let a = copied_view(src, new_size, h as int, 0);
            let b = resized_view(src, new_size);
            assert forall|yy: int| 0 <= yy < new_size.y implies #[trigger] a.rows[yy] =~= b.rows[yy] by {}
            assert(a.rows =~= b.rows);
        }
        *self = next;
    }

    /// Shrinks the buffer to the smallest size from the origin that still holds
    /// every cell showing something (at least 1 x 1).
    pub fn shrink(&mut self)
        ensures
            is_last_shown_column(old(self)@, final(self)@.size.x - 1),
            is_last_shown_row(old(self)@, final(self)@.size.y - 1),
            final(self)@ == resized_view(old(self)@, final(self)@.size),
    {
        let ghost b = self@;
        let mut mx: u16 = 0;
        let mut my: u16 = 0;
        let ghost mut wy: int = 0;
        let ghost mut wx: int = 0;
        let mut y: u16 = 0;
        while y < self.size.y
            invariant
                self@ == b,
                y <= b.size.y,
                forall|xx: int, yy: int|
                    0 <= xx < b.size.x && 0 <= yy < y && #[trigger] shows_at(b, xx, yy) ==> xx
                        <= mx && yy <= my,
                mx == 0 || (mx < b.size.x && 0 <= wy < b.size.y && shows_at(b, mx as int, wy)),
                my == 0 || (my < b.size.y && 0 <= wx < b.size.x && shows_at(b, wx, my as int)),
            decreases b.size.y - y,
        {
            let mut x: u16 = 0;
            while x < self.size.x
                invariant
                    self@ == b,
                    y < b.size.y,
                    x <= b.size.x,
                    forall|xx: int, yy: int|
                        0 <= xx < b.size.x && 0 <= yy < y && #[trigger] shows_at(b, xx, yy) ==> xx
                            <= mx && yy <= my,
                    forall|xx: int| 0 <= xx < x && #[trigger] shows_at(b, xx, y as int) ==> xx <= mx
                        && y <= my,
                    mx == 0 || (mx < b.size.x && 0 <= wy < b.size.y && shows_at(
                        b,
                        mx as int,
                        wy,
                    )),
                    my == 0 || (my < b.size.y && 0 <= wx < b.size.x && shows_at(
                        b,
                        wx,
                        my as int,
                    )),
                decreases b.size.x - x,
            {
                if !self.get(vec2(x, y)).unwrap().is_empty() {
                    if x > mx {
                        mx = x;
                        proof {
                            wy = y as int;
                        }
                    }
                    if y > my {
                        my = y;
                        proof {
                            wx = x as int;
                        }
                    }
                }
                x = x + 1;
            }
            y = y + 1;
        }
        proof {
            if mx != 0 {
                assert(shows_at(b, mx as int, wy));
            }
            if my != 0 {
                assert(shows_at(b, wx, my as int));
            }
        }
        self.resize(vec2(mx + 1, my + 1));
    }

    /// The positions where `other` differs from `self`, with the cells of
    /// `other`, walked row by row. After a write the columns that a wide cell
    /// covers are passed over: its continuation is never written on its own.
    pub fn diff<'a>(&self, other: &'a Buffer) -> (r: Vec<(Vec2, &'a Cell)>)
        requires
            self@.size == other@.size,
        ensures
            r@.map_values(|p: (Vec2, &Cell)| (p.0, p.1@)) == diff_view(self@, other@),
    {
        self.walk(other, false)
    }

    /// Every cell with its position, walked row by row, passing over the
    /// columns that a wide cell covers: what a full repaint writes.
    pub fn repaint(&self) -> (r: Vec<(Vec2, &Cell)>)
        ensures
            r@.map_values(|p: (Vec2, &Cell)| (p.0, p.1@)) == repaint_view(self@),
    {
        self.walk(self, true)
    }

    fn walk<'a>(&self, other: &'a Buffer, all: bool) -> (r: Vec<(Vec2, &'a Cell)>)
        requires
            self@.size == other@.size,
        ensures
            r@.map_values(|p: (Vec2, &Cell)| (p.0, p.1@)) == diff_rows(
                self@,
                other@,
                other@.size.y as int,
                all,
            ),
    {
        proof {
            use_type_invariant(self);
            use_type_invariant(other);
        }
        let ghost a = self@;
        let ghost b = other@;
        let mut res: Vec<(Vec2, &'a Cell)> = Vec::new();
        let mut y: u16 = 0;
        while y < other.size.y
            invariant
                self@ == a,
                other@ == b,
                a.size == b.size,
                y <= b.size.y,
                res@.map_values(|p: (Vec2, &Cell)| (p.0, p.1@)) == diff_rows(a, b, y as int, all),
            decreases b.size.y - y,
        {
            let mut skip: u16 = 0;
            let mut x: u16 = 0;
            while x < other.size.x
                invariant
                    self@ == a,
                    other@ == b,
                    a.size == b.size,
                    y < b.size.y,
                    x <= b.size.x,
                    diff_rows(a, b, y as int, all) + diff_row(a, b, y as int, 0, 0, all) == res@.map_values(
                        |p: (Vec2, &Cell)| (p.0, p.1@),
                    ) + diff_row(a, b, y as int, x as int, skip as int, all),
                decreases b.size.x - x,
            {
                let ghost before = res@.map_values(|p: (Vec2, &Cell)| (p.0, p.1@));
                let ghost skip0 = skip as int;
                if skip > 0 {
                    skip = skip - 1;
                } else {
                    let old_cell = self.get(vec2(x, y)).unwrap();
                    let new_cell = other.get(vec2(x, y)).unwrap();
                    if all || !old_cell.same_as(new_cell) {
                        let w = new_cell.width();
                        skip = if w > 0 { w - 1 } else { 0 };
                        res.push((vec2(x, y), new_cell));
                        proof {
                            assert(res@.map_values(|p: (Vec2, &Cell)| (p.0, p.1@)) =~= before.push(
                                (Vec2 { x, y }, new_cell@),
                            ));
                        }
                    }
                }
                proof {
                    let after = res@.map_values(|p: (Vec2, &Cell)| (p.0, p.1@));
                    let rest = diff_row(a, b, y as int, x + 1, skip as int, all);
                    let whole = diff_row(a, b, y as int, x as int, skip0, all);
                    if skip0 == 0 && (all || cell_at(a, x as int, y as int) != cell_at(b, x as int, y as int)) {
                        assert(whole == seq![(Vec2 { x, y }, cell_at(b, x as int, y as int))] + rest);
                        assert(after + rest =~= before + whole);
                    } else {
                        assert(after + rest =~= before + whole);
                    }
                }
                x = x + 1;
            }
            proof {
                assert(diff_rows(a, b, y + 1, all) == diff_rows(a, b, y as int, all) + diff_row(a, b, y as int, 0, 0, all));
                assert(diff_row(a, b, y as int, x as int, skip as int, all) =~= Seq::<(Vec2, CellView)>::empty());
                assert(res@.map_values(|p: (Vec2, &Cell)| (p.0, p.1@)) + Seq::<(Vec2, CellView)>::empty() =~= res@.map_values(|p: (Vec2, &Cell)| (p.0, p.1@)));
            }
            y = y + 1;
        }
        res
    }

    /// Copies this buffer into `buffer` with its top-left at `loc`; what
    /// falls outside `buffer` is dropped. Returns the corner past the copy.
    pub fn paint(&self, loc: Vec2, buffer: &mut Buffer) -> (r: Vec2)
        ensures
            pasted(old(buffer)@, final(buffer)@, self@, loc),
            kept_outside(old(buffer)@, final(buffer)@, loc, self@.size),
            r == vec2_sat(loc, self@.size),
    {
        let ghost src = self@;
        let mut y: u16 = 0;
        while y < self.size.y && (loc.y as u32) + (y as u32) < buffer.size.y as u32
            invariant
                self@ == src,
                buffer@.size == old(buffer)@.size,
                kept_outside(old(buffer)@, buffer@, loc, src.size),
                y <= src.size.y,
                forall|xx: int, yy: int|
                    0 <= xx < src.size.x && 0 <= yy < y && loc.x + xx < buffer@.size.x && loc.y
                        + yy < buffer@.size.y ==> #[trigger] cell_at(src, xx, yy) == cell_at(
                        buffer@,
                        loc.x + xx,
                        loc.y + yy,
                    ),
            ensures
                pasted(old(buffer)@, buffer@, src, loc),
                kept_outside(old(buffer)@, buffer@, loc, src.size),
            decreases src.size.y - y,
        {
            let mut x: u16 = 0;
            while x < self.size.x && (loc.x as u32) + (x as u32) < buffer.size.x as u32
                invariant
                    self@ == src,
                    buffer@.size == old(buffer)@.size,
                    kept_outside(old(buffer)@, buffer@, loc, src.size),
                    y < src.size.y,
                    loc.y + y < buffer@.size.y,
                    x <= src.size.x,
                    forall|xx: int, yy: int|
                        0 <= xx < src.size.x && 0 <= yy < y && loc.x + xx < buffer@.size.x && loc.y
                            + yy < buffer@.size.y ==> #[trigger] cell_at(src, xx, yy) == cell_at(
                            buffer@,
                            loc.x + xx,
                            loc.y + yy,
                        ),
                    forall|xx: int|
                        0 <= xx < x && loc.x + xx < buffer@.size.x ==> #[trigger] cell_at(
                            src,
                            xx,
                            y as int,
                        ) == cell_at(buffer@, loc.x + xx, loc.y + y),
                ensures
                    forall|xx: int|
                        0 <= xx < src.size.x && loc.x + xx < buffer@.size.x ==> #[trigger] cell_at(
                            src,
                            xx,
                            y as int,
                        ) == cell_at(buffer@, loc.x + xx, loc.y + y),
                    forall|xx: int, yy: int|
                        0 <= xx < src.size.x && 0 <= yy < y && loc.x + xx < buffer@.size.x && loc.y
                            + yy < buffer@.size.y ==> #[trigger] cell_at(src, xx, yy) == cell_at(
                            buffer@,
                            loc.x + xx,
                            loc.y + yy,
                        ),
                    buffer@.size == old(buffer)@.size,
                    kept_outside(old(buffer)@, buffer@, loc, src.size),
                decreases src.size.x - x,
            {
                let c = self.get(vec2(x, y)).unwrap().clone();
                proof {
                    buffer.lemma_grid();
                    lemma_set_in_rect(
                        old(buffer)@,
                        buffer@,
                        Vec2 { x: (loc.x + x) as u16, y: (loc.y + y) as u16 },
                        c@,
                        loc,
                        src.size,
                    );
                }
                buffer.set(vec2(loc.x + x, loc.y + y), c);
                x = x + 1;
            }
            y = y + 1;
        }
        vec2(loc.x.saturating_add(self.size.x), loc.y.saturating_add(self.size.y))
    }

    /// Copies this buffer into `buffer` at `loc` as `paint` does, but only
    /// within the rectangle at `loc` of size `clip_size`: a cell that does not
    /// fit there whole is left out.
    pub fn paint_clipped(&self, loc: Vec2, clip_size: Vec2, buffer: &mut Buffer) -> (r: Vec2)
        ensures
            unchanged_outside(old(buffer)@, final(buffer)@, loc, clip_size),
            clipped_pasted(final(buffer)@, self@, loc, clip_size),
            loc.x <= r.x,
            loc.y <= r.y,
    {
        let ghost src = self@;
        let mut y: u16 = 0;
        while y < self.size.y && y < clip_size.y && (loc.y as u32) + (y as u32) < buffer.size.y as u32
            invariant
                self@ == src,
                unchanged_outside(old(buffer)@, buffer@, loc, clip_size),
                forall|xx: int, yy: int|
                    0 <= yy < y && #[trigger] fits_in_clip(buffer@.size, src, loc, clip_size, xx, yy)
                        ==> cell_at(buffer@, loc.x + xx, loc.y + yy) == cell_at(src, xx, yy),
            ensures
                unchanged_outside(old(buffer)@, buffer@, loc, clip_size),
                clipped_pasted(buffer@, src, loc, clip_size),
            decreases self@.size.y - y,
        {
            let mut x: u16 = 0;
            while x < self.size.x && x < clip_size.x && (loc.x as u32) + (x as u32)
                < buffer.size.x as u32
                invariant
                    self@ == src,
                    y < self@.size.y,
                    unchanged_outside(old(buffer)@, buffer@, loc, clip_size),
                    y < clip_size.y,
                    loc.y + y < buffer@.size.y,
                    forall|xx: int, yy: int|
                        0 <= yy < y && #[trigger] fits_in_clip(buffer@.size, src, loc, clip_size, xx, yy)
                            ==> cell_at(buffer@, loc.x + xx, loc.y + yy) == cell_at(src, xx, yy),
                    forall|xx: int|
                        0 <= xx < x && #[trigger] fits_in_clip(buffer@.size, src, loc, clip_size, xx, y as int)
                            ==> cell_at(buffer@, loc.x + xx, loc.y + y) == cell_at(src, xx, y as int),
                ensures
                    unchanged_outside(old(buffer)@, buffer@, loc, clip_size),
                    forall|xx: int, yy: int|
                        0 <= yy <= y && #[trigger] fits_in_clip(buffer@.size, src, loc, clip_size, xx, yy)
                            ==> cell_at(buffer@, loc.x + xx, loc.y + yy) == cell_at(src, xx, yy),
                decreases self@.size.x - x,
            {
                let c = self.get(vec2(x, y)).unwrap();
                let w = c.width();
                let need: u32 = if w > 1 {
                    w as u32
                } else {
                    1
                };
                let ghost before = buffer@;
                if (x as u32) + need <= clip_size.x as u32 {
                    proof {
                        buffer.lemma_grid();
                        lemma_set_inside(
                            buffer@,
                            Vec2 { x: (loc.x + x) as u16, y: (loc.y + y) as u16 },
                            c@,
                            loc,
                            clip_size,
                        );
                    }
                    buffer.set(vec2(loc.x + x, loc.y + y), c.clone());
                    proof {
                        let cur = buffer@;
                        assert forall|xx: int, yy: int|
                            0 <= yy < y && #[trigger] fits_in_clip(cur.size, src, loc, clip_size, xx, yy)
                                implies cell_at(cur, loc.x + xx, loc.y + yy) == cell_at(src, xx, yy) by {
                            assert(cell_at(before, loc.x + xx, loc.y + yy) == cell_at(src, xx, yy));
                        }
                        assert forall|xx: int|
                            0 <= xx <= x && #[trigger] fits_in_clip(cur.size, src, loc, clip_size, xx, y as int)
                                implies cell_at(cur, loc.x + xx, loc.y + y) == cell_at(src, xx, y as int) by {
                            if xx < x {
                                assert(cell_at(before, loc.x + xx, loc.y + y) == cell_at(src, xx, y as int));
                            }
                        }
                    }
                } else {
                    proof {
                        assert(!fits_in_clip(buffer@.size, src, loc, clip_size, x as int, y as int));
                    }
                }
                x = x + 1;
            }
            y = y + 1;
        }
        vec2(
            loc.x.saturating_add(if self.size.x < clip_size.x { self.size.x } else { clip_size.x }),
            loc.y.saturating_add(if self.size.y < clip_size.y { self.size.y } else { clip_size.y }),
        )
    }

    /// Renders a value into a scratch buffer and shrinks it to what the value
    /// covers, which measures it without a terminal.
    pub fn sized_element<R: Render>(item: R) -> (r: Buffer)
        ensures
            exists|s: BufferView|
                #![trigger resized_view(s, r@.size)]
                s.size == (Vec2 { x: crate::render::SCRATCH_SIDE, y: crate::render::SCRATCH_SIDE })
                    && is_last_shown_column(s, r@.size.x - 1) && is_last_shown_row(s, r@.size.y - 1)
                    && r@ == resized_view(s, r@.size),
    {
        let mut buff = Buffer::new(vec2(crate::render::SCRATCH_SIDE, crate::render::SCRATCH_SIDE));
        item.render(vec2(0, 0), &mut buff);
        let ghost s = buff@;
        buff.shrink();
        proof {
            assert(s.size == (Vec2 { x: crate::render::SCRATCH_SIDE, y: crate::render::SCRATCH_SIDE }));
            assert(buff@ == resized_view(s, buff@.size));
        }
        buff
    }

    /// Returns the cell at `loc`, or `None` outside the buffer.
    pub fn get(&self, loc: Vec2) -> (r: Option<&Cell>)
        ensures
            r is Some <==> in_bounds(self@.size, loc),
            r is Some ==> r->0@ == cell_at(self@, loc.x as int, loc.y as int),
    {
        proof {
            use_type_invariant(self);
        }
        match self.index_of(loc) {
            None => None,
            Some(idx) => Some(&self.cells[idx]),
        }
    }

    /// The cell at `loc`, to change it in place, or `None` outside the buffer.
    pub fn get_mut(&mut self, loc: Vec2) -> (r: Option<&mut Cell>)
        ensures
            r is Some <==> in_bounds(old(self)@.size, loc),
            r is Some ==> (*r->0)@ == cell_at(old(self)@, loc.x as int, loc.y as int)
                && final(self)@ == put(old(self)@, loc.x as int, loc.y as int, (*final(r->0))@),
            r is None ==> final(self)@ == old(self)@,
    {
        proof {
            use_type_invariant(&*self);
        }
        match self.index_of(loc) {
            None => None,
            Some(idx) => {
                proof {
                    assert forall|c: Cell|
                        #![trigger store_view(self.size, self.cells@.update(idx as int, c))]
                        store_view(self.size, self.cells@.update(idx as int, c)) == put(
                            self@,
                            loc.x as int,
                            loc.y as int,
                            c@,
                        ) by {
                        lemma_store_put(self.size, self.cells@, loc.x as int, loc.y as int, c);
                    }
                }
                Some(&mut self.cells[idx])
            },
        }
    }

    /// Empties every cell, keeping the size.
    pub fn clear(&mut self)
        ensures
            final(self)@ == filled_view(old(self)@.size, empty_cell()),
    {
        *self = Buffer::new(self.size);
    }
}

} // verus!

verus! {

/// Whether a list of writes writes at column `x` of row `y`.
pub open spec fn reports(d: Seq<(Vec2, CellView)>, x: int, y: int) -> bool {
    exists|k: int| 0 <= k < d.len() && (#[trigger] d[k]).0.x == x && d[k].0.y == y
}

/// Whether column `x` of row `y` lies under a wide cell that a write in `d`
/// put further left in the same row.
pub open spec fn covers(d: Seq<(Vec2, CellView)>, x: int, y: int) -> bool {
    exists|k: int|
        0 <= k < d.len() && (#[trigger] d[k]).0.y == y && d[k].0.x < x < d[k].0.x + d[k].1.width
}

/// The columns a write takes up: its cell's width, and at least one.
pub open spec fn span(c: CellView) -> int {
    if c.width > 1 {
        c.width as int
    } else {
        1
    }
}

/// Each write of `d` is at a position of `b` where `a` differs, and writes
/// the cell of `b` there.
pub open spec fn writes_changes(a: BufferView, b: BufferView, d: Seq<(Vec2, CellView)>) -> bool {
    forall|k: int|
        0 <= k < d.len() ==> {
            let (p, c) = #[trigger] d[k];
            &&& in_bounds(b.size, p)
            &&& cell_at(a, p.x as int, p.y as int) != cell_at(b, p.x as int, p.y as int)
            &&& c == cell_at(b, p.x as int, p.y as int)
        }
}

/// The writes of `d` go row by row, and within a row each one starts past
/// the columns the one before it took up.
pub open spec fn ordered_with_skips(d: Seq<(Vec2, CellView)>) -> bool {
    forall|i: int, j: int|
        0 <= i < j < d.len() ==> (#[trigger] d[i]).0.y < (#[trigger] d[j]).0.y || (d[i].0.y
            == d[j].0.y && d[j].0.x >= d[i].0.x + span(d[i].1))
}

proof fn lemma_row_facts(a: BufferView, b: BufferView, y: int, x: int, skip: int)
    requires
        a.size == b.size,
        grid_ok(a),
        grid_ok(b),
        0 <= y < b.size.y,
        0 <= x,
        0 <= skip,
    ensures
        ({
            let d = diff_row(a, b, y, x, skip, false);
            &&& writes_changes(a, b, d)
            &&& ordered_with_skips(d)
            &&& forall|k: int|
                0 <= k < d.len() ==> (#[trigger] d[k]).0.y == y && d[k].0.x >= x + skip
            &&& forall|xx: int|
                x + skip <= xx < b.size.x && cell_at(a, xx, y) != cell_at(b, xx, y) ==> reports(
                    d,
                    xx,
                    y,
                ) || covers(d, xx, y)
        }),
    decreases b.size.x - x,
{
    let d = diff_row(a, b, y, x, skip, false);
    if x >= b.size.x {
    } else if skip > 0 {
        lemma_row_facts(a, b, y, x + 1, skip - 1);
    } else if cell_at(a, x, y) != cell_at(b, x, y) {
        let c = cell_at(b, x, y);
        let rest = diff_row(a, b, y, x + 1, skip_after(c), false);
        lemma_row_facts(a, b, y, x + 1, skip_after(c));
        let head = (Vec2 { x: x as u16, y: y as u16 }, c);
        assert(d == seq![head] + rest);
        assert(d[0] == head);
        assert forall|k: int| 0 < k < d.len() implies d[k] == rest[k - 1] by {}
        assert forall|xx: int|
            x + skip <= xx < b.size.x && cell_at(a, xx, y) != cell_at(b, xx, y) implies reports(
                d,
                xx,
                y,
            ) || covers(d, xx, y) by {
            if xx == x {
                assert(d[0].0.x == x && d[0].0.y == y);
            } else if xx < x + 1 + skip_after(c) {
                assert(d[0].0.y == y && d[0].0.x < xx < d[0].0.x + d[0].1.width);
            } else {
                if reports(rest, xx, y) {
                    let k = choose|k: int|
                        0 <= k < rest.len() && (#[trigger] rest[k]).0.x == xx && rest[k].0.y == y;
                    assert(d[k + 1] == rest[k]);
                } else {
                    let k = choose|k: int|
                        0 <= k < rest.len() && (#[trigger] rest[k]).0.y == y && rest[k].0.x < xx
                            < rest[k].0.x + rest[k].1.width;
                    assert(d[k + 1] == rest[k]);
                }
            }
        }
        assert forall|i: int, j: int| 0 <= i < j < d.len() implies (#[trigger] d[i]).0.y < (
        #[trigger] d[j]).0.y || (d[i].0.y == d[j].0.y && d[j].0.x >= d[i].0.x + span(d[i].1)) by {
            if i == 0 {
                assert(d[j] == rest[j - 1]);
            } else {
                assert(d[i] == rest[i - 1]);
                assert(d[j] == rest[j - 1]);
            }
        }
    } else {
        lemma_row_facts(a, b, y, x + 1, 0);
    }
}

proof fn lemma_rows_facts(a: BufferView, b: BufferView, y: int)
    requires
        a.size == b.size,
        grid_ok(a),
        grid_ok(b),
        0 <= y <= b.size.y,
    ensures
        ({
            let d = diff_rows(a, b, y, false);
            &&& writes_changes(a, b, d)
            &&& ordered_with_skips(d)
            &&& forall|k: int| 0 <= k < d.len() ==> (#[trigger] d[k]).0.y < y
            &&& forall|xx: int, yy: int|
                0 <= xx < b.size.x && 0 <= yy < y && cell_at(a, xx, yy) != cell_at(b, xx, yy)
                    ==> reports(d, xx, yy) || covers(d, xx, yy)
        }),
    decreases y,
{
    if y > 0 {
        lemma_rows_facts(a, b, y - 1);
        lemma_row_facts(a, b, y - 1, 0, 0);
        let p = diff_rows(a, b, y - 1, false);
        let r = diff_row(a, b, y - 1, 0, 0, false);
        let d = diff_rows(a, b, y, false);
        assert(d == p + r);
        assert forall|k: int| 0 <= k < d.len() implies d[k] == (if k < p.len() {
            p[k]
        } else {
            r[k - p.len()]
        }) by {}
        assert forall|xx: int, yy: int|
            0 <= xx < b.size.x && 0 <= yy < y && cell_at(a, xx, yy) != cell_at(b, xx, yy) implies reports(
            d,
            xx,
            yy,
        ) || covers(d, xx, yy) by {
            if yy < y - 1 {
                if reports(p, xx, yy) {
                    let k = choose|k: int| 0 <= k < p.len() && (#[trigger] p[k]).0.x == xx && p[k].0.y == yy;
                    assert(d[k] == p[k]);
                } else {
                    let k = choose|k: int|
                        0 <= k < p.len() && (#[trigger] p[k]).0.y == yy && p[k].0.x < xx < p[k].0.x
                            + p[k].1.width;
                    assert(d[k] == p[k]);
                }
            } else {
                if reports(r, xx, yy) {
                    let k = choose|k: int| 0 <= k < r.len() && (#[trigger] r[k]).0.x == xx && r[k].0.y == yy;
                    assert(d[k + p.len()] == r[k]);
                } else {
                    let k = choose|k: int|
                        0 <= k < r.len() && (#[trigger] r[k]).0.y == yy && r[k].0.x < xx < r[k].0.x
                            + r[k].1.width;
                    assert(d[k + p.len()] == r[k]);
                }
            }
        }
    }
}

/// The diff of two buffers of one size writes exactly what changed: each
/// write is at a position where the buffers differ and carries the new cell;
/// every position where they differ is written or lies under a wide cell
/// written just left of it; and the writes go row by row, each past the
/// columns the one before it took up, so a continuation column is never
/// written on its own.
pub proof fn lemma_diff_exact(a: BufferView, b: BufferView)
    requires
        a.size == b.size,
        grid_ok(a),
        grid_ok(b),
    ensures
        writes_changes(a, b, diff_view(a, b)),
        ordered_with_skips(diff_view(a, b)),
        forall|x: int, y: int|
            0 <= x < b.size.x && 0 <= y < b.size.y && cell_at(a, x, y) != cell_at(b, x, y) ==> reports(
                diff_view(a, b),
                x,
                y,
            ) || covers(diff_view(a, b), x, y),
{
    lemma_rows_facts(a, b, b.size.y as int);
}

} // verus!

verus! {

/// Resizing to another size and back keeps every cell that lies inside both
/// sizes; the others come back empty.
pub proof fn lemma_resize_round_trip(b: BufferView, size: Vec2)
    requires
        grid_ok(b),
    ensures
        resized_view(resized_view(b, size), b.size).size == b.size,
        forall|x: int, y: int|
            0 <= x < b.size.x && 0 <= y < b.size.y ==> #[trigger] cell_at(
                resized_view(resized_view(b, size), b.size),
                x,
                y,
            ) == if x < size.x && y < size.y {
                cell_at(b, x, y)
            } else {
                empty_cell()
            },
{
}

pub(crate) proof fn lemma_last_column_unique(b: BufferView, m1: int, m2: int)
    requires
        is_last_shown_column(b, m1),
        is_last_shown_column(b, m2),
    ensures
        m1 == m2,
{
    if m1 < m2 {
        let y = choose|y: int| 0 <= y < b.size.y && #[trigger] shows_at(b, m2, y);
        assert(shows_at(b, m2, y));
    } else if m2 < m1 {
        let y = choose|y: int| 0 <= y < b.size.y && #[trigger] shows_at(b, m1, y);
        assert(shows_at(b, m1, y));
    }
}

pub(crate) proof fn lemma_last_row_unique(b: BufferView, m1: int, m2: int)
    requires
        is_last_shown_row(b, m1),
        is_last_shown_row(b, m2),
    ensures
        m1 == m2,
{
    if m1 < m2 {
        let x = choose|x: int| 0 <= x < b.size.x && #[trigger] shows_at(b, x, m2);
        assert(shows_at(b, x, m2));
    } else if m2 < m1 {
        let x = choose|x: int| 0 <= x < b.size.x && #[trigger] shows_at(b, x, m1);
        assert(shows_at(b, x, m1));
    }
}

/// A buffer whose content lies in its top-left 3 x 2 corner, reaching its
/// third column and its second row, shrinks to exactly 3 x 2, whatever its
/// size.
pub proof fn lemma_shrink_to_corner(b: BufferView, shrunk: Vec2)
    requires
        is_last_shown_column(b, shrunk.x - 1),
        is_last_shown_row(b, shrunk.y - 1),
        b.size.x >= 3,
        b.size.y >= 2,
        forall|x: int, y: int|
            0 <= x < b.size.x && 0 <= y < b.size.y && #[trigger] shows_at(b, x, y) ==> x < 3 && y
                < 2,
        exists|y: int| 0 <= y < 2 && #[trigger] shows_at(b, 2, y),
        exists|x: int| 0 <= x < 3 && #[trigger] shows_at(b, x, 1),
    ensures
        shrunk == (Vec2 { x: 3, y: 2 }),
{
    assert(is_last_shown_column(b, 2));
    assert(is_last_shown_row(b, 1));
    lemma_last_column_unique(b, shrunk.x - 1, 2);
    lemma_last_row_unique(b, shrunk.y - 1, 1);
}

/// Pasting a buffer at the origin of a buffer of the same size reproduces it
/// exactly, whatever was there before.
pub proof fn lemma_paste_whole(before: BufferView, after: BufferView, src: BufferView)
    requires
        grid_ok(src),
        grid_ok(after),
        before.size == src.size,
        pasted(before, after, src, Vec2 { x: 0, y: 0 }),
    ensures
        after == src,
{
    assert forall|y: int| 0 <= y < src.size.y implies #[trigger] after.rows[y] =~= src.rows[y] by {
        assert forall|x: int| 0 <= x < src.size.x implies after.rows[y][x] == src.rows[y][x] by {
            assert(cell_at(src, x, y) == cell_at(after, 0 + x, 0 + y));
        }
    }
    assert(after.rows =~= src.rows);
}

/// Setting a cell two or more columns wide leaves an empty continuation
/// placeholder in the next column (where there is one); and a diff that
/// writes such a cell never writes the column after it on its own.
pub proof fn lemma_wide_cell(b: BufferView, loc: Vec2, c: CellView, other: BufferView)
    requires
        grid_ok(b),
        grid_ok(other),
        other.size == b.size,
        in_bounds(b.size, loc),
        c.width >= 2,
        loc.x + 1 < b.size.x,
    ensures
        cell_at(set_view(b, loc, c), loc.x as int, loc.y as int) == c,
        cell_at(set_view(b, loc, c), loc.x + 1, loc.y as int) == empty_cell(),
        forall|i: int, j: int|
            0 <= i < diff_view(other, set_view(b, loc, c)).len() && 0 <= j < diff_view(
                other,
                set_view(b, loc, c),
            ).len() && (#[trigger] diff_view(other, set_view(b, loc, c))[i]).0 == loc
                && diff_view(other, set_view(b, loc, c))[i].1.width >= 2 ==> (#[trigger] diff_view(
                other,
                set_view(b, loc, c),
            )[j]).0 != (Vec2 { x: (loc.x + 1) as u16, y: loc.y }),
{
    let n = set_view(b, loc, c);
    lemma_diff_exact(other, n);
    let d = diff_view(other, n);
    assert forall|i: int, j: int|
        0 <= i < d.len() && 0 <= j < d.len() && (#[trigger] d[i]).0 == loc && d[i].1.width
            >= 2 implies (#[trigger] d[j]).0 != (Vec2 { x: (loc.x + 1) as u16, y: loc.y }) by {
        if j > i {
            assert(d[j].0.y > d[i].0.y || d[j].0.x >= d[i].0.x + span(d[i].1));
        } else if j < i {
            assert(d[i].0.y > d[j].0.y || d[i].0.x >= d[j].0.x + span(d[j].1));
        }
    }
}

/// A diff between a buffer and itself writes nothing.
pub proof fn lemma_diff_same_empty(b: BufferView)
    requires
        grid_ok(b),
    ensures
        diff_view(b, b) == Seq::<(Vec2, CellView)>::empty(),
{
    lemma_diff_exact(b, b);
    let d = diff_view(b, b);
    if d.len() > 0 {
        assert(writes_changes(b, b, d));
        let (p, c) = d[0];
        assert(cell_at(b, p.x as int, p.y as int) != cell_at(b, p.x as int, p.y as int));
    }
}

} // verus!
