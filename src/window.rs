use crate::buffer::{diff_view, filled_view, grid_ok, lemma_diff_same_empty, repaint_view, Buffer, BufferView};
use crate::cell::{empty_cell, Cell, CellView};
use crate::math::{vec2, Vec2};
use crossterm::cursor::SetCursorStyle;
use crossterm::event::Event;
use vstd::prelude::*;

verus! {

#[verifier::external_type_specification]
pub struct ExSetCursorStyle(SetCursorStyle);

/// Relies on crossterm's `SetCursorStyle` equality, derived over an enum of
/// unit variants and so the same as equality of values.
#[verifier::external_body]
fn same_cursor_style(a: &SetCursorStyle, b: &SetCursorStyle) -> (r: bool)
    ensures
        r == (*a == *b),
{
    *a == *b
}

/// What the window state reads of an input event.
#[derive(Debug, Clone, Copy, PartialEq, Eq, Structural)]
pub enum EventKind {
    /// The terminal now has this many columns and rows.
    Resize(u16, u16),
    /// The mouse is at this column and row.
    Mouse(u16, u16),
    /// Anything else: keys, focus changes, pastes.
    Other,
}

/// What an event means to the window.
pub open spec fn kind_of(event: Event) -> EventKind {
    match event {
        Event::Resize(w, h) => EventKind::Resize(w, h),
        Event::Mouse(m) => EventKind::Mouse(m.column, m.row),
        _ => EventKind::Other,
    }
}

fn classify(event: &Event) -> (r: EventKind)
    ensures
        r == kind_of(*event),
{
    match event {
        Event::Resize(w, h) => EventKind::Resize(*w, *h),
        Event::Mouse(m) => EventKind::Mouse(m.column, m.row),
        _ => EventKind::Other,
    }
}

/// The state of inline rendering: whether the band of rows was reserved yet,
/// whether the keyboard protocol is to be enabled with it, and the terminal
/// row just below the band.
#[derive(Debug, Default, Clone, Copy, PartialEq, Eq, Structural)]
pub struct Inline {
    pub active: bool,
    pub kitty: bool,
    pub start: u16,
}

/// What the terminal cursor needs after a frame.
#[derive(Debug, Clone, Copy, PartialEq, Eq)]
pub enum CursorAction {
    /// Nothing changed since the last frame.
    Keep,
    /// Hide the cursor.
    Hide,
    /// Move the cursor to this terminal position, give it this style, show it.
    Show { pos: Vec2, style: SetCursorStyle },
}

/// The mathematical content of a window session.
pub struct WindowView {
    pub buffers: (BufferView, BufferView),
    pub active: usize,
    pub events: Seq<Event>,
    pub last_cursor: (bool, Vec2, SetCursorStyle),
    pub cursor_visible: bool,
    pub cursor: Vec2,
    pub cursor_style: SetCursorStyle,
    pub mouse_pos: Vec2,
    pub inline: Option<Inline>,
    pub just_resized: bool,
}

/// The buffer being drawn into this frame.
pub open spec fn active_view(w: WindowView) -> BufferView {
    if w.active == 0 {
        w.buffers.0
    } else {
        w.buffers.1
    }
}

/// The buffer of the previous frame.
pub open spec fn previous_view(w: WindowView) -> BufferView {
    if w.active == 0 {
        w.buffers.1
    } else {
        w.buffers.0
    }
}

/// The index of the other buffer.
pub open spec fn other_index(active: usize) -> usize {
    if active == 0 {
        1
    } else {
        0
    }
}

/// `a - b`, or 0 where `b` is larger.
pub open spec fn sat_sub(a: int, b: int) -> int {
    if a > b {
        a - b
    } else {
        0
    }
}

/// The terminal row of a buffer row: full screen it is the same; inline the
/// band of `height` rows ends just above row `start`.
pub open spec fn screen_row(inline: Option<Inline>, height: u16, y: u16) -> u16 {
    match inline {
        Some(i) => (sat_sub(i.start as int, height as int) + y) as u16,
        None => y,
    }
}

/// The writes that show the frame being drawn: a full repaint after a resize
/// (or where the two buffers differ in size), else the diff against the
/// previous frame; placed on terminal rows.
pub open spec fn frame_writes(w: WindowView) -> Seq<(Vec2, CellView)> {
    let cur = active_view(w);
    let writes = if w.just_resized || previous_view(w).size != cur.size {
        repaint_view(cur)
    } else {
        diff_view(previous_view(w), cur)
    };
    writes.map_values(
        |p: (Vec2, CellView)|
            (Vec2 { x: p.0.x, y: screen_row(w.inline, cur.size.y, p.0.y) }, p.1),
    )
}

/// The window state after an event: a resize (full screen only) replaces both
/// buffers by empty ones of the new size and asks for a full repaint; a mouse
/// event records the mouse position.
pub open spec fn after_event(w: WindowView, kind: EventKind) -> WindowView {
    match kind {
        EventKind::Resize(cols, rows) => if w.inline is None {
            WindowView {
                buffers: (
                    filled_view(vec2_spec(cols, rows), empty_cell()),
                    filled_view(vec2_spec(cols, rows), empty_cell()),
                ),
                just_resized: true,
                ..w
            }
        } else {
            w
        },
        EventKind::Mouse(col, row) => WindowView { mouse_pos: vec2_spec(col, row), ..w },
        EventKind::Other => w,
    }
}

/// The pair `(x, y)`.
pub open spec fn vec2_spec(x: u16, y: u16) -> Vec2 {
    Vec2 { x, y }
}

/// `v` clamped to at most `size - 1` (0 for an empty extent).
pub open spec fn clamp_to(v: int, size: u16) -> u16 {
    let last = sat_sub(size as int, 1);
    if v < 0 {
        0
    } else if v > last {
        last as u16
    } else {
        v as u16
    }
}

/// The main window behind an application: two buffers drawn into in turn,
/// the events of the frame, the cursor, and the inline band if any. The
/// terminal itself is driven by whoever owns the window; this type decides
/// what to write.
pub struct Window {
    buffers: (Buffer, Buffer),
    active_buffer: usize,
    events: Vec<Event>,
    last_cursor: (bool, Vec2, SetCursorStyle),
    cursor_visible: bool,
    cursor: Vec2,
    cursor_style: SetCursorStyle,
    mouse_pos: Vec2,
    inline: Option<Inline>,
    just_resized: bool,
}

impl View for Window {
    type V = WindowView;

    closed spec fn view(&self) -> WindowView {
        WindowView {
            buffers: (self.buffers.0@, self.buffers.1@),
            active: self.active_buffer,
            events: self.events@,
            last_cursor: self.last_cursor,
            cursor_visible: self.cursor_visible,
            cursor: self.cursor,
            cursor_style: self.cursor_style,
            mouse_pos: self.mouse_pos,
            inline: self.inline,
            just_resized: self.just_resized,
        }
    }
}

/// The state of a fresh window whose buffers have the given size.
pub open spec fn fresh_view(size: Vec2, inline: Option<Inline>) -> WindowView {
    WindowView {
        buffers: (filled_view(size, empty_cell()), filled_view(size, empty_cell())),
        active: 0,
        events: Seq::empty(),
        last_cursor: (false, Vec2 { x: 0, y: 0 }, SetCursorStyle::SteadyBlock),
        cursor_visible: false,
        cursor: Vec2 { x: 0, y: 0 },
        cursor_style: SetCursorStyle::SteadyBlock,
        mouse_pos: Vec2 { x: 0, y: 0 },
        inline,
        just_resized: false,
    }
}

impl Window {
    /// A full-screen window on a terminal of the given size.
    pub fn new(size: Vec2) -> (r: Window)
        ensures
            r@ == fresh_view(size, None),
    {
        Window::with_inline(size, None)
    }

    /// An inline window: a band of `height` rows across a terminal `width`
    /// columns wide, reserved when the first frame is drawn.
    pub fn new_inline(width: u16, height: u16) -> (r: Window)
        ensures
            r@ == fresh_view(
                Vec2 { x: width, y: height },
                Some(Inline { active: false, kitty: false, start: 0 }),
            ),
    {
        Window::with_inline(vec2(width, height), Some(Inline { active: false, kitty: false, start: 0 }))
    }

    fn with_inline(size: Vec2, inline: Option<Inline>) -> (r: Window)
        ensures
            r@ == fresh_view(size, inline),
    {
        Window {
            buffers: (Buffer::new(size), Buffer::new(size)),
            active_buffer: 0,
            events: Vec::new(),
            last_cursor: (false, vec2(0, 0), SetCursorStyle::SteadyBlock),
            cursor_visible: false,
            cursor: vec2(0, 0),
            cursor_style: SetCursorStyle::SteadyBlock,
            mouse_pos: vec2(0, 0),
            inline,
            just_resized: false,
        }
    }

    /// The buffer being drawn into.
    pub fn buffer(&self) -> (r: &Buffer)
        ensures
            r@ == active_view(self@),
    {
        if self.active_buffer == 0 {
            &self.buffers.0
        } else {
            &self.buffers.1
        }
    }

    /// The buffer being drawn into, to draw into it.
    pub fn buffer_mut(&mut self) -> (r: &mut Buffer)
        ensures
            r@ == active_view(old(self)@),
            final(self)@ == (if old(self)@.active == 0 {
                WindowView { buffers: (final(r)@, old(self)@.buffers.1), ..old(self)@ }
            } else {
                WindowView { buffers: (old(self)@.buffers.0, final(r)@), ..old(self)@ }
            }),
    {
        if self.active_buffer == 0 {
            &mut self.buffers.0
        } else {
            &mut self.buffers.1
        }
    }

    /// Makes the other buffer the one drawn into, and empties it.
    pub fn swap_buffers(&mut self)
        ensures
            final(self)@.active == other_index(old(self)@.active),
            previous_view(final(self)@) == active_view(old(self)@),
            active_view(final(self)@) == filled_view(previous_view(old(self)@).size, empty_cell()),
            final(self)@ == (WindowView {
                buffers: final(self)@.buffers,
                active: final(self)@.active,
                ..old(self)@
            }),
    {
        if self.active_buffer == 0 {
            self.active_buffer = 1;
            self.buffers.1.clear();
        } else {
            self.active_buffer = 0;
            self.buffers.0.clear();
        }
    }

    /// The size of the buffer being drawn into.
    pub fn size(&self) -> (r: Vec2)
        ensures
            r == active_view(self@).size,
    {
        self.buffer().size()
    }

    /// Whether the cursor is to be shown.
    pub fn cursor_visible(&self) -> (r: bool)
        ensures
            r == self@.cursor_visible,
    {
        self.cursor_visible
    }

    /// The cursor position, in buffer coordinates.
    pub fn cursor(&self) -> (r: Vec2)
        ensures
            r == self@.cursor,
    {
        self.cursor
    }

    /// The cursor style.
    pub fn cursor_style(&self) -> (r: SetCursorStyle)
        ensures
            r == self@.cursor_style,
    {
        self.cursor_style
    }

    /// Shows or hides the cursor from the next frame on.
    pub fn set_cursor_visible(&mut self, visible: bool)
        ensures
            final(self)@ == (WindowView { cursor_visible: visible, ..old(self)@ }),
    {
        self.cursor_visible = visible;
    }

    /// Places the cursor, clamped into the buffer.
    pub fn set_cursor(&mut self, pos: Vec2)
        ensures
            final(self)@ == (WindowView {
                cursor: Vec2 {
                    x: clamp_to(pos.x as int, active_view(old(self)@).size.x),
                    y: clamp_to(pos.y as int, active_view(old(self)@).size.y),
                },
                ..old(self)@
            }),
    {
        let size = self.size();
        self.cursor = vec2(clamp(pos.x as i32, size.x), clamp(pos.y as i32, size.y));
    }

    /// Sets the cursor style.
    pub fn set_cursor_style(&mut self, style: SetCursorStyle)
        ensures
            final(self)@ == (WindowView { cursor_style: style, ..old(self)@ }),
    {
        self.cursor_style = style;
    }

    /// Moves the cursor by a signed distance, clamped into the buffer.
    pub fn move_cursor(&mut self, x: i16, y: i16)
        ensures
            final(self)@ == (WindowView {
                cursor: Vec2 {
                    x: clamp_to(old(self)@.cursor.x + x, active_view(old(self)@).size.x),
                    y: clamp_to(old(self)@.cursor.y + y, active_view(old(self)@).size.y),
                },
                ..old(self)@
            }),
    {
        let size = self.size();
        self.cursor = vec2(
            clamp(self.cursor.x as i32 + x as i32, size.x),
            clamp(self.cursor.y as i32 + y as i32, size.y),
        );
    }

    /// The last known mouse position.
    pub fn mouse_pos(&self) -> (r: Vec2)
        ensures
            r == self@.mouse_pos,
    {
        self.mouse_pos
    }

    /// Applies what an event means to the window: see `after_event`.
    pub fn apply_event(&mut self, kind: EventKind)
        ensures
            final(self)@ == after_event(old(self)@, kind),
    {
        match kind {
            EventKind::Resize(cols, rows) => {
                if self.inline.is_none() {
                    self.buffers = (Buffer::new(vec2(cols, rows)), Buffer::new(vec2(cols, rows)));
                    self.just_resized = true;
                }
            },
            EventKind::Mouse(col, row) => {
                self.mouse_pos = vec2(col, row);
            },
            EventKind::Other => {},
        }
    }

    /// Records an event of this frame and applies what it means to the window.
    pub fn insert_event(&mut self, event: Event)
        ensures
            final(self)@ == (WindowView {
                events: old(self)@.events.push(event),
                ..after_event(old(self)@, kind_of(event))
            }),
    {
        let kind = classify(&event);
        self.apply_event(kind);
        self.events.push(event);
    }

    /// Forgets the events of the frame.
    pub fn clear_events(&mut self)
        ensures
            final(self)@ == (WindowView { events: Seq::empty(), ..old(self)@ }),
    {
        self.events = Vec::new();
    }

    /// The events of the frame.
    pub fn events(&self) -> (r: &Vec<Event>)
        ensures
            r@ == self@.events,
    {
        &self.events
    }

    /// Whether the mouse lies in the rectangle at `loc` of size `size`, edges
    /// included.
    pub fn hover(&self, loc: Vec2, size: Vec2) -> (r: bool)
        ensures
            r == (loc.x <= self@.mouse_pos.x <= loc.x + size.x && loc.y <= self@.mouse_pos.y
                <= loc.y + size.y),
    {
        let pos = self.mouse_pos;
        (pos.x as u32) <= (loc.x as u32) + (size.x as u32) && pos.x >= loc.x && (pos.y as u32) <= (
        loc.y as u32) + (size.y as u32) && pos.y >= loc.y
    }

    /// Whether the window is inline and its band is not reserved yet: the
    /// terminal must be prepared before the first frame.
    pub fn inline_pending(&self) -> (r: bool)
        ensures
            r == (self@.inline matches Some(i) && !i.active),
    {
        match self.inline {
            Some(i) => !i.active,
            None => false,
        }
    }

    /// Whether the keyboard protocol waits for the inline band to be reserved.
    pub fn inline_kitty(&self) -> (r: bool)
        ensures
            r == (self@.inline matches Some(i) && i.kitty),
    {
        match self.inline {
            Some(i) => i.kitty,
            None => false,
        }
    }

    /// Records that the inline band was reserved, ending just above terminal
    /// row `start`. A full-screen window is left as it is.
    pub fn start_inline(&mut self, start: u16)
        ensures
            final(self)@ == (match old(self)@.inline {
                Some(i) => WindowView {
                    inline: Some(Inline { active: true, start, ..i }),
                    ..old(self)@
                },
                None => old(self)@,
            }),
    {
        if let Some(i) = self.inline {
            self.inline = Some(Inline { active: true, start, kitty: i.kitty });
        }
    }

    /// Asks for the keyboard protocol. Returns whether it must be enabled
    /// now (full screen); an inline window defers it until its band is
    /// reserved.
    pub fn request_keyboard(&mut self) -> (r: bool)
        ensures
            r == (old(self)@.inline is None),
            final(self)@ == (match old(self)@.inline {
                Some(i) => WindowView { inline: Some(Inline { kitty: true, ..i }), ..old(self)@ },
                None => old(self)@,
            }),
    {
        match self.inline {
            Some(i) => {
                self.inline = Some(Inline { kitty: true, ..i });
                false
            },
            None => true,
        }
    }

    /// Whether the window renders inline.
    pub fn is_inline(&self) -> (r: bool)
        ensures
            r == (self@.inline is Some),
    {
        self.inline.is_some()
    }

    /// The line breaks to print when an inline window is given back: the
    /// height of the band, unless the terminal (`terminal_rows` high) already
    /// ends just below it; none for a full-screen window.
    pub fn restore_newlines(&self, terminal_rows: u16) -> (r: u16)
        ensures
            r == (match self@.inline {
                Some(i) => if terminal_rows as int != i.start + 1 {
                    active_view(self@).size.y
                } else {
                    0
                },
                None => 0,
            }),
    {
        match self.inline {
            Some(i) => if terminal_rows as u32 != i.start as u32 + 1 {
                self.size().y
            } else {
                0
            },
            None => 0,
        }
    }
}

impl Window {
    /// The writes that show the frame being drawn (see `frame_writes`), with
    /// terminal positions; a pending full repaint is done with them.
    pub fn render(&mut self) -> (r: Vec<(Vec2, Cell)>)
        ensures
            r@.map_values(|p: (Vec2, Cell)| (p.0, p.1@)) == frame_writes(old(self)@),
            final(self)@ == (WindowView { just_resized: false, ..old(self)@ }),
    {
        let ghost w = self@;
        let (cur, prev) = if self.active_buffer == 0 {
            (&self.buffers.0, &self.buffers.1)
        } else {
            (&self.buffers.1, &self.buffers.0)
        };
        let size = cur.size();
        let raw = if self.just_resized || prev.size() != size {
            cur.repaint()
        } else {
            prev.diff(cur)
        };
        let ghost raw_view = raw@.map_values(|p: (Vec2, &Cell)| (p.0, p.1@));
        let mut out: Vec<(Vec2, Cell)> = Vec::new();
        let mut i: usize = 0;
        while i < raw.len()
            invariant
                i <= raw@.len(),
                raw_view == raw@.map_values(|p: (Vec2, &Cell)| (p.0, p.1@)),
                size == active_view(w).size,
                self@ == w,
                out@.map_values(|p: (Vec2, Cell)| (p.0, p.1@)) =~= raw_view.take(i as int).map_values(
                    |p: (Vec2, CellView)|
                        (Vec2 { x: p.0.x, y: screen_row(w.inline, size.y, p.0.y) }, p.1),
                ),
            decreases raw@.len() - i,
        {
            let (loc, cell) = raw[i];
            let row = match self.inline {
                Some(inl) => ((inl.start.saturating_sub(size.y) as u32) + (loc.y as u32)) as u16,
                None => loc.y,
            };
            let ghost before = out@.map_values(|p: (Vec2, Cell)| (p.0, p.1@));
            out.push((vec2(loc.x, row), cell.clone()));
            proof {
                assert(raw_view.take(i + 1) =~= raw_view.take(i as int).push(raw_view[i as int]));
                assert(out@.map_values(|p: (Vec2, Cell)| (p.0, p.1@)) =~= before.push(
                    (Vec2 { x: loc.x, y: row }, cell@),
                ));
            }
            i = i + 1;
        }
        proof {
            assert(raw_view.take(raw@.len() as int) =~= raw_view);
        }
        self.just_resized = false;
        out
    }

    /// One frame: the writes that show it (as `render`), then the buffers
    /// swap so that drawing starts anew in the other, emptied, buffer.
    pub fn frame(&mut self) -> (r: Vec<(Vec2, Cell)>)
        ensures
            r@.map_values(|p: (Vec2, Cell)| (p.0, p.1@)) == frame_writes(old(self)@),
            final(self)@.active == other_index(old(self)@.active),
            previous_view(final(self)@) == active_view(old(self)@),
            active_view(final(self)@) == filled_view(previous_view(old(self)@).size, empty_cell()),
            !final(self)@.just_resized,
            final(self)@.events == old(self)@.events,
    {
        let writes = self.render();
        self.swap_buffers();
        writes
    }

    /// Decides what the terminal cursor needs, given where the terminal
    /// reports it: nothing if the visibility, position and style are as in
    /// the last frame and the terminal cursor is in place; else hide it, or
    /// show it at its terminal position with its style. Remembers the state.
    pub fn render_cursor(&mut self, terminal_cursor: Vec2) -> (r: CursorAction)
        ensures
            r == cursor_action(old(self)@, terminal_cursor),
            final(self)@ == (WindowView {
                last_cursor: (old(self)@.cursor_visible, old(self)@.cursor, old(self)@.cursor_style),
                ..old(self)@
            }),
    {
        let changed = !same_cursor_style(&self.cursor_style, &self.last_cursor.2)
            || self.cursor != terminal_cursor || self.cursor != self.last_cursor.1
            || self.cursor_visible != self.last_cursor.0;
        let action = if !changed {
            CursorAction::Keep
        } else if self.cursor_visible {
            let h = self.size().y;
            let row = match self.inline {
                Some(inl) => ((inl.start.saturating_sub(h) as u32) + (self.cursor.y as u32)) as u16,
                None => self.cursor.y,
            };
            CursorAction::Show { pos: vec2(self.cursor.x, row), style: self.cursor_style }
        } else {
            CursorAction::Hide
        };
        self.last_cursor = (self.cursor_visible, self.cursor, self.cursor_style);
        action
    }
}

/// What `render_cursor` decides for a window state and the terminal cursor.
pub open spec fn cursor_action(w: WindowView, terminal_cursor: Vec2) -> CursorAction {
    let changed = w.cursor_style != w.last_cursor.2 || w.cursor != terminal_cursor || w.cursor
        != w.last_cursor.1 || w.cursor_visible != w.last_cursor.0;
    if !changed {
        CursorAction::Keep
    } else if w.cursor_visible {
        CursorAction::Show {
            pos: Vec2 {
                x: w.cursor.x,
                y: screen_row(w.inline, active_view(w).size.y, w.cursor.y),
            },
            style: w.cursor_style,
        }
    } else {
        CursorAction::Hide
    }
}

/// `v` clamped into `0 ..= size - 1` (0 for an empty extent).
fn clamp(v: i32, size: u16) -> (r: u16)
    ensures
        r == clamp_to(v as int, size),
{
    let last: i32 = if size > 0 {
        size as i32 - 1
    } else {
        0
    };
    if v < 0 {
        0
    } else if v > last {
        last as u16
    } else {
        v as u16
    }
}

} // verus!

verus! {

/// A frame of a full-screen window with no repaint pending writes exactly the
/// diff between the previous frame and the one drawn (so nothing when they
/// are the same), and `frame` swaps the buffers once.
pub proof fn lemma_frame_is_diff(w: WindowView)
    requires
        w.inline is None,
        !w.just_resized,
        previous_view(w).size == active_view(w).size,
        grid_ok(previous_view(w)),
        grid_ok(active_view(w)),
    ensures
        frame_writes(w) == diff_view(previous_view(w), active_view(w)),
        previous_view(w) == active_view(w) ==> frame_writes(w) == Seq::<(Vec2, CellView)>::empty(),
{
    let d = diff_view(previous_view(w), active_view(w));
    assert(frame_writes(w) =~= d);
    if previous_view(w) == active_view(w) {
        lemma_diff_same_empty(active_view(w));
    }
}

} // verus!

verus! {

/// The first two frames of a fresh full-screen window into which the same
/// grid `f` is drawn each time: the first frame writes the diff of `f`
/// against the empty screen (every cell of `f` that shows something other
/// than an empty cell); the second, after the swap, writes nothing.
pub proof fn lemma_first_frames(size: Vec2, f: BufferView, first: WindowView, second: WindowView)
    requires
        grid_ok(f),
        f.size == size,
        first == (WindowView { buffers: (f, filled_view(size, empty_cell())), ..fresh_view(size, None) }),
        second.inline is None,
        !second.just_resized,
        second.active == other_index(first.active),
        previous_view(second) == active_view(first),
        active_view(second) == f,
    ensures
        frame_writes(first) == diff_view(filled_view(size, empty_cell()), f),
        frame_writes(second) == Seq::<(Vec2, CellView)>::empty(),
{
    assert(grid_ok(filled_view(size, empty_cell())));
    lemma_frame_is_diff(first);
    lemma_frame_is_diff(second);
}

} // verus!
