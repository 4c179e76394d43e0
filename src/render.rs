use crate::buffer::{
    clipped_pasted, kept_outside, lemma_set_inside, pasted, set_view, unchanged_outside, vec2_sat, Buffer,
    BufferView,
};
use crate::cell::{cell_of, Cell};
use crate::math::{vec2, Vec2};
use crossterm::style::{ContentStyle, StyledContent};
use std::marker::PhantomData;
use vstd::prelude::*;

verus! {

/// The side of the square scratch buffer in which a value is rendered to
/// measure it.
pub const SCRATCH_SIDE: u16 = 100;

/// A value that can paint itself into a buffer.
pub trait Render {
    /// Paints the value with its top-left at `loc` and returns where the
    /// painting ended, for the next value to go on from there.
    fn render(&self, loc: Vec2, buffer: &mut Buffer) -> (r: Vec2)
        ensures
            final(buffer)@.size == old(buffer)@.size,
    ;

    /// The size the value covers when painted: by default measured by
    /// painting it into a scratch buffer and shrinking that.
    fn size(&self) -> (r: Vec2) {
        let mut buf = Buffer::new(vec2(SCRATCH_SIDE, SCRATCH_SIDE));
        self.render(vec2(0, 0), &mut buf);
        buf.shrink();
        buf.size()
    }

    /// Paints the value at `loc` but leaves every cell outside the rectangle
    /// of size `clip_size` there untouched. Returns where the painting ended,
    /// never left of or above `loc`.
    fn render_clipped(&self, loc: Vec2, clip_size: Vec2, buffer: &mut Buffer) -> (r: Vec2)
        ensures
            unchanged_outside(old(buffer)@, final(buffer)@, loc, clip_size),
            loc.x <= r.x,
            loc.y <= r.y,
    {
        let mut buf = Buffer::new(vec2(SCRATCH_SIDE, SCRATCH_SIDE));
        self.render(vec2(0, 0), &mut buf);
        buf.shrink();
        buf.paint_clipped(loc, clip_size, buffer)
    }
}

/// The number of columns a character advances the cursor by (one for a
/// control character).
pub open spec fn advance_of(c: char) -> int {
    match char_width(c) {
        Some(w) => w as int,
        None => 1,
    }
}

/// The display width of a single character; `None` for a control character.
pub uninterp spec fn char_width(c: char) -> Option<usize>;

/// Relies on unicode_width's `UnicodeWidthChar::width`: a function of the
/// character; `None` below U+0020 and from U+007F to U+009F, one column for
/// the printable ASCII characters.
#[verifier::external_body]
fn measure_char(c: char) -> (r: Option<usize>)
    ensures
        r == char_width(c),
        (c as u32) < 0x20 ==> r is None,
        (0x7f <= (c as u32) && (c as u32) < 0xa0) ==> r is None,
        (0x20 <= (c as u32) && (c as u32) < 0x7f) ==> r == Some(1usize),
{
    unicode_width::UnicodeWidthChar::width(c)
}

/// Relies on std's `str::chars`: the characters of the text, in order.
#[verifier::external_body]
pub(crate) fn chars_of(s: &str) -> (r: Vec<char>)
    ensures
        r@ == s@,
{
    s.chars().collect()
}

fn advance(c: char) -> (r: u16)
    ensures
        r == (if advance_of(c) > 0xffff {
            0xffff
        } else {
            advance_of(c)
        }),
{
    match measure_char(c) {
        Some(w) => if w > 0xffff {
            0xffff
        } else {
            w as u16
        },
        None => 1,
    }
}

fn styled_cell(c: char, style: Option<ContentStyle>) -> (r: Cell)
    ensures
        r@ == cell_of(seq![c], style),
{
    match style {
        Some(s) => Cell::new(crate::cell::char_text(c).as_str(), s),
        None => Cell::chr(c),
    }
}

/// `v + d`, stopping at the largest value.
pub open spec fn add_sat(v: u16, d: int) -> u16 {
    if v + d > 0xffff {
        0xffff
    } else {
        (v + d) as u16
    }
}

/// `v - 1`, or 0 for 0.
pub open spec fn sat_sub1(v: int) -> int {
    if v > 0 {
        v - 1
    } else {
        0
    }
}

/// How many columns a character advances the cursor by, as a `u16`.
pub open spec fn advance_u16(c: char) -> int {
    if advance_of(c) > 0xffff {
        0xffff
    } else {
        advance_of(c)
    }
}

/// The grid and the pen position after painting the characters `cs` from
/// column `x` of row `y`, lines starting at column `base`: a line break moves
/// to column `base` one row down, any other character is set in a cell (with
/// the style) and moves the pen right by its width.
pub open spec fn painted_text(
    b: BufferView,
    cs: Seq<char>,
    style: Option<ContentStyle>,
    base: u16,
    x: u16,
    y: u16,
) -> (BufferView, u16, u16)
    decreases cs.len(),
{
    if cs.len() == 0 {
        (b, x, y)
    } else if cs[0] == '\n' {
        painted_text(b, cs.skip(1), style, base, base, add_sat(y, 1))
    } else {
        painted_text(
            set_view(b, Vec2 { x, y }, cell_of(seq![cs[0]], style)),
            cs.skip(1),
            style,
            base,
            add_sat(x, advance_u16(cs[0])),
            y,
        )
    }
}

/// Paints a text line by line from `loc`: each character goes into one cell
/// (with the style), the column advances by the character's width, and a line
/// break goes back to the starting column one row down. Returns the position
/// after the last character, on the last line.
pub fn render_text(text: &str, style: Option<ContentStyle>, loc: Vec2, buffer: &mut Buffer) -> (r:
    Vec2)
    ensures
        (final(buffer)@, r.x, r.y) == painted_text(old(buffer)@, text@, style, loc.x, loc.x, loc.y),
        final(buffer)@.size == old(buffer)@.size,
        loc.x <= r.x,
        loc.y <= r.y,
{
    let chars = chars_of(text);
    let ghost whole = painted_text(buffer@, text@, style, loc.x, loc.x, loc.y);
    let mut x = loc.x;
    let mut y = loc.y;
    let mut i: usize = 0;
    proof {
        assert(chars@.skip(0) =~= chars@);
    }
    while i < chars.len()
        invariant
            chars@ == text@,
            buffer@.size == old(buffer)@.size,
            i <= chars@.len(),
            loc.x <= x,
            loc.y <= y,
            painted_text(buffer@, chars@.skip(i as int), style, loc.x, x, y) == whole,
        decreases chars@.len() - i,
    {
        let c = chars[i];
        proof {
            assert(chars@.skip(i as int)[0] == c);
            assert(chars@.skip(i as int).skip(1) =~= chars@.skip(i + 1));
        }
        if c == '\n' {
            x = loc.x;
            y = y.saturating_add(1);
        } else {
            buffer.set(vec2(x, y), styled_cell(c, style));
            x = x.saturating_add(advance(c));
        }
        i = i + 1;
    }
    proof {
        assert(chars@.skip(i as int) =~= Seq::<char>::empty());
    }
    vec2(x, y)
}

/// The columns a character needs to be drawn whole: its advance or its
/// cell's width, and at least one.
pub open spec fn needed_columns(c: char, style: Option<ContentStyle>) -> int {
    let w = advance_u16(c);
    let cw = cell_of(seq![c], style).width as int;
    let wider = if cw > w {
        cw
    } else {
        w
    };
    if wider > 1 {
        wider
    } else {
        1
    }
}

/// The grid and pen position after painting `cs` clipped to the rectangle
/// at `loc` of size `clip`: `used` columns of the current line and `lines`
/// line breaks are already spent, and `full` tells that the current line
/// stopped at a character that did not fit. A line break past the last row
/// of the clip ends the painting.
pub open spec fn painted_clipped(
    b: BufferView,
    cs: Seq<char>,
    style: Option<ContentStyle>,
    loc: Vec2,
    clip: Vec2,
    x: u16,
    y: u16,
    used: int,
    lines: int,
    full: bool,
) -> (BufferView, u16, u16)
    decreases cs.len(),
{
    if cs.len() == 0 {
        (b, x, y)
    } else if cs[0] == '\n' {
        if lines + 1 >= clip.y || y == 0xffff {
            (b, x, y)
        } else {
            painted_clipped(b, cs.skip(1), style, loc, clip, loc.x, (y + 1) as u16, 0, lines + 1, false)
        }
    } else if full {
        painted_clipped(b, cs.skip(1), style, loc, clip, x, y, used, lines, full)
    } else {
        let need = needed_columns(cs[0], style);
        if need <= clip.x - used && x + need <= 0xffff {
            painted_clipped(
                set_view(b, Vec2 { x, y }, cell_of(seq![cs[0]], style)),
                cs.skip(1),
                style,
                loc,
                clip,
                (x + advance_u16(cs[0])) as u16,
                y,
                used + advance_u16(cs[0]),
                lines,
                false,
            )
        } else {
            painted_clipped(b, cs.skip(1), style, loc, clip, x, y, used, lines, true)
        }
    }
}

/// Paints a text as `render_text` does, but only within the rectangle at
/// `loc` of size `clip_size`: lines below it are dropped, and a line stops at
/// the first character that would not fit in its width.
pub fn render_text_clipped(
    text: &str,
    style: Option<ContentStyle>,
    loc: Vec2,
    clip_size: Vec2,
    buffer: &mut Buffer,
) -> (r: Vec2)
    ensures
        unchanged_outside(old(buffer)@, final(buffer)@, loc, clip_size),
        loc.x <= r.x,
        loc.y <= r.y,
        clip_size.y == 0 ==> final(buffer)@ == old(buffer)@ && r == loc,
        clip_size.y > 0 ==> (final(buffer)@, r.x, r.y) == painted_clipped(
            old(buffer)@,
            text@,
            style,
            loc,
            clip_size,
            loc.x,
            loc.y,
            0,
            0,
            false,
        ),
{
    let chars = chars_of(text);
    let mut x = loc.x;
    let mut y = loc.y;
    // Columns used on the current line, and lines begun, within the clip.
    let mut used: u16 = 0;
    let mut lines: u16 = 0;
    let mut line_full = false;
    let mut i: usize = 0;
    if clip_size.y == 0 {
        return loc;
    }
    let ghost whole = painted_clipped(
        buffer@,
        text@,
        style,
        loc,
        clip_size,
        loc.x,
        loc.y,
        0,
        0,
        false,
    );
    proof {
        assert(chars@.skip(0) =~= chars@);
    }
    while i < chars.len()
        invariant
            chars@ == text@,
            unchanged_outside(old(buffer)@, buffer@, loc, clip_size),
            i <= chars@.len(),
            loc.x <= x,
            loc.y <= y,
            lines < clip_size.y,
            y == loc.y + lines,
            x == loc.x + used,
            used <= clip_size.x,
            painted_clipped(
                buffer@,
                chars@.skip(i as int),
                style,
                loc,
                clip_size,
                x,
                y,
                used as int,
                lines as int,
                line_full,
            ) == whole,
        ensures
            unchanged_outside(old(buffer)@, buffer@, loc, clip_size),
            loc.x <= x,
            loc.y <= y,
            (buffer@, x, y) == whole,
        decreases chars@.len() - i,
    {
        let c = chars[i];
        proof {
            assert(chars@.skip(i as int)[0] == c);
            assert(chars@.skip(i as int).skip(1) =~= chars@.skip(i + 1));
        }
        if c == '\n' {
            if lines + 1 >= clip_size.y || y == 0xffff {
                break ;
            }
            lines = lines + 1;
            y = y + 1;
            x = loc.x;
            used = 0;
            line_full = false;
        } else if !line_full {
            proof {
                assert(needed_columns(c, style) == needed_columns(chars@.skip(i as int)[0], style));
            }
            let cell = styled_cell(c, style);
            let w = advance(c);
            let cw = cell.width();
            let wider = if cw > w {
                cw
            } else {
                w
            };
            let need = if wider > 1 {
                wider
            } else {
                1
            };
            if need <= clip_size.x - used && (x as u32) + (need as u32) <= 0xffff {
                let ghost before = buffer@;
                proof {
                    buffer.lemma_grid();
                    lemma_set_inside(before, Vec2 { x, y }, cell@, loc, clip_size);
                }
                buffer.set(vec2(x, y), cell);
                x = x + w;
                used = used + w;
            } else {
                line_full = true;
            }
        }
        i = i + 1;
    }
    proof {
        if i == chars@.len() {
            assert(chars@.skip(i as int) =~= Seq::<char>::empty());
        }
    }
    vec2(x, y)
}

impl Render for Cell {
    fn render(&self, loc: Vec2, buffer: &mut Buffer) -> (r: Vec2)
        ensures
            final(buffer)@ == set_view(old(buffer)@, loc, self@),
            r == loc,
    {
        buffer.set(loc, self.clone());
        loc
    }
}

impl Render for char {
    fn render(&self, loc: Vec2, buffer: &mut Buffer) -> (r: Vec2)
        ensures
            final(buffer)@ == set_view(old(buffer)@, loc, cell_of(seq![*self], None)),
            r == (Vec2 { x: add_sat(loc.x, sat_sub1(advance_u16(*self))), y: loc.y }),
    {
        buffer.set(loc, Cell::chr(*self));
        vec2(loc.x.saturating_add(advance(*self).saturating_sub(1)), loc.y)
    }

    fn size(&self) -> (r: Vec2) {
        vec2(advance(*self), 1)
    }

    fn render_clipped(&self, loc: Vec2, clip_size: Vec2, buffer: &mut Buffer) -> (r: Vec2)
        ensures
            clip_size.y == 0 ==> final(buffer)@ == old(buffer)@ && r == loc,
            clip_size.y > 0 ==> (final(buffer)@, r.x, r.y) == painted_clipped(
                old(buffer)@,
                seq![*self],
                None,
                loc,
                clip_size,
                loc.x,
                loc.y,
                0,
                0,
                false,
            ),
    {
        render_text_clipped(crate::cell::char_text(*self).as_str(), None, loc, clip_size, buffer)
    }
}

impl Render for &str {
    fn render(&self, loc: Vec2, buffer: &mut Buffer) -> (r: Vec2)
        ensures
            (final(buffer)@, r.x, r.y) == painted_text(old(buffer)@, self@, None, loc.x, loc.x, loc.y),
    {
        render_text(self, None, loc, buffer)
    }

    fn render_clipped(&self, loc: Vec2, clip_size: Vec2, buffer: &mut Buffer) -> (r: Vec2)
        ensures
            clip_size.y == 0 ==> final(buffer)@ == old(buffer)@ && r == loc,
            clip_size.y > 0 ==> (final(buffer)@, r.x, r.y) == painted_clipped(
                old(buffer)@,
                self@,
                None,
                loc,
                clip_size,
                loc.x,
                loc.y,
                0,
                0,
                false,
            ),
    {
        render_text_clipped(self, None, loc, clip_size, buffer)
    }
}

impl Render for String {
    fn render(&self, loc: Vec2, buffer: &mut Buffer) -> (r: Vec2)
        ensures
            (final(buffer)@, r.x, r.y) == painted_text(old(buffer)@, self@, None, loc.x, loc.x, loc.y),
    {
        render_text(self.as_str(), None, loc, buffer)
    }

    fn render_clipped(&self, loc: Vec2, clip_size: Vec2, buffer: &mut Buffer) -> (r: Vec2)
        ensures
            clip_size.y == 0 ==> final(buffer)@ == old(buffer)@ && r == loc,
            clip_size.y > 0 ==> (final(buffer)@, r.x, r.y) == painted_clipped(
                old(buffer)@,
                self@,
                None,
                loc,
                clip_size,
                loc.x,
                loc.y,
                0,
                0,
                false,
            ),
    {
        render_text_clipped(self.as_str(), None, loc, clip_size, buffer)
    }
}

impl<D: std::fmt::Display> Render for StyledContent<D> {
    fn render(&self, loc: Vec2, buffer: &mut Buffer) -> (r: Vec2) {
        let (text, style) = crate::cell::styled_parts(self);
        render_text(text.as_str(), Some(style), loc, buffer)
    }

    fn render_clipped(&self, loc: Vec2, clip_size: Vec2, buffer: &mut Buffer) -> (r: Vec2) {
        let (text, style) = crate::cell::styled_parts(self);
        render_text_clipped(text.as_str(), Some(style), loc, clip_size, buffer)
    }
}

impl<R: Render> Render for Vec<R> {
    fn render(&self, loc: Vec2, buffer: &mut Buffer) -> (r: Vec2) {
        let mut at = loc;
        let mut i: usize = 0;
        while i < self.len()
            invariant
                    buffer@.size == old(buffer)@.size,
                i <= self@.len(),
            decreases self@.len() - i,
        {
            at = self[i].render(at, buffer);
            i = i + 1;
        }
        at
    }

    fn render_clipped(&self, loc: Vec2, clip_size: Vec2, buffer: &mut Buffer) -> (r: Vec2) {
        let mut at = loc;
        let mut i: usize = 0;
        while i < self.len()
            invariant
                    unchanged_outside(old(buffer)@, buffer@, loc, clip_size),
                i <= self@.len(),
                loc.x <= at.x,
                loc.y <= at.y,
            decreases self@.len() - i,
        {
            let used_x = at.x - loc.x;
            let used_y = at.y - loc.y;
            if used_y >= clip_size.y || used_x >= clip_size.x {
                break ;
            }
            let remaining = vec2(clip_size.x - used_x, clip_size.y - used_y);
            let ghost before = buffer@;
            at = self[i].render_clipped(at, remaining, buffer);
            i = i + 1;
        }
        at
    }
}

/// A value drawn as one cell, however many characters it holds: for
/// glyphs made of several characters, such as some emoji.
pub struct CharString<D: std::fmt::Display, F: Into<StyledContent<D>> + Clone> {
    pub text: F,
    marker: PhantomData<D>,
}

impl<D: std::fmt::Display, F: Into<StyledContent<D>> + Clone> CharString<D, F> {
    /// Wraps the value.
    pub fn new(text: F) -> CharString<D, F> {
        CharString { text, marker: PhantomData }
    }

    fn cell(&self) -> (r: Cell)
        ensures
            r@ == cell_of(r@.text, r@.style),
    {
        Cell::styled(to_styled(&self.text))
    }
}

/// Relies on the value's own conversion into crossterm's `StyledContent`;
/// nothing is known of what it gives.
#[verifier::external_body]
fn to_styled<D: std::fmt::Display, F: Into<StyledContent<D>> + Clone>(text: &F) -> StyledContent<D> {
    text.clone().into()
}

impl<D: std::fmt::Display, F: Into<StyledContent<D>> + Clone> Render for CharString<D, F> {
    fn render(&self, loc: Vec2, buffer: &mut Buffer) -> (r: Vec2) {
        buffer.set(loc, self.cell());
        loc
    }

    fn render_clipped(&self, loc: Vec2, clip_size: Vec2, buffer: &mut Buffer) -> (r: Vec2) {
        let cell = self.cell();
        let w = cell.width();
        let need = if w > 1 {
            w
        } else {
            1
        };
        if clip_size.x >= need && clip_size.y >= 1 && (loc.x as u32) + (w as u32) <= 0xffff {
            proof {
                buffer.lemma_grid();
                lemma_set_inside(buffer@, loc, cell@, loc, clip_size);
            }
            buffer.set(loc, cell);
            vec2(loc.x + w, loc.y)
        } else {
            loc
        }
    }
}

impl Render for Buffer {
    fn render(&self, loc: Vec2, buffer: &mut Buffer) -> (r: Vec2)
        ensures
            pasted(old(buffer)@, final(buffer)@, self@, loc),
            kept_outside(old(buffer)@, final(buffer)@, loc, self@.size),
            r == vec2_sat(loc, self@.size),
    {
        proof {
            use_type_invariant(self);
        }
        self.paint(loc, buffer)
    }

    fn render_clipped(&self, loc: Vec2, clip_size: Vec2, buffer: &mut Buffer) -> (r: Vec2)
        ensures
            clipped_pasted(final(buffer)@, self@, loc, clip_size),
    {
        proof {
            use_type_invariant(self);
        }
        self.paint_clipped(loc, clip_size, buffer)
    }
}

} // verus!
