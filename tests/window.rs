use ascii_forge::cell::Cell;
use ascii_forge::math::vec2;
use ascii_forge::window::{CursorAction, EventKind, Window};
use crossterm::cursor::SetCursorStyle;
use crossterm::event::{Event, MouseEvent, MouseEventKind, KeyModifiers};

#[test]
fn first_frame_of_a_full_paint_changes_everything_once() {
    let mut window = Window::new(vec2(80, 24));
    for y in 0..24 {
        for x in 0..80 {
            window.buffer_mut().set(vec2(x, y), Cell::chr('x'));
        }
    }
    let writes = window.frame();
    assert_eq!(writes.len(), 80 * 24);
    // The buffers swapped: drawing starts in an empty buffer.
    assert_eq!(window.buffer().get(vec2(5, 5)).unwrap().text(), " ");
    for y in 0..24 {
        for x in 0..80 {
            window.buffer_mut().set(vec2(x, y), Cell::chr('x'));
        }
    }
    assert!(window.frame().is_empty());
}

#[test]
fn frame_without_drawing_writes_nothing() {
    let mut window = Window::new(vec2(80, 24));
    assert!(window.frame().is_empty());
    assert_eq!(window.size(), vec2(80, 24));
}

#[test]
fn resize_asks_for_a_full_repaint() {
    let mut window = Window::new(vec2(4, 2));
    window.apply_event(EventKind::Resize(3, 2));
    assert_eq!(window.size(), vec2(3, 2));
    let writes = window.render();
    assert_eq!(writes.len(), 6);
    assert!(window.render().is_empty());
}

#[test]
fn inline_window_ignores_resize_and_offsets_rows() {
    let mut window = Window::new_inline(10, 3);
    assert!(window.inline_pending());
    window.apply_event(EventKind::Resize(40, 40));
    assert_eq!(window.size(), vec2(10, 3));
    window.start_inline(20);
    assert!(!window.inline_pending());
    window.buffer_mut().set(vec2(1, 2), Cell::chr('a'));
    let writes = window.render();
    assert_eq!(writes.len(), 1);
    assert_eq!(writes[0].0, vec2(1, 19));
    assert_eq!(window.restore_newlines(21), 0);
    assert_eq!(window.restore_newlines(30), 3);
}

#[test]
fn mouse_events_move_the_mouse() {
    let mut window = Window::new(vec2(10, 10));
    window.insert_event(Event::Mouse(MouseEvent {
        kind: MouseEventKind::Moved,
        column: 4,
        row: 6,
        modifiers: KeyModifiers::NONE,
    }));
    assert_eq!(window.mouse_pos(), vec2(4, 6));
    assert_eq!(window.events().len(), 1);
    assert!(window.hover(vec2(3, 5), vec2(1, 1)));
    assert!(!window.hover(vec2(5, 5), vec2(1, 1)));
    window.clear_events();
    assert!(window.events().is_empty());
}

#[test]
fn cursor_is_clamped_and_only_sent_on_change() {
    let mut window = Window::new(vec2(10, 5));
    window.set_cursor(vec2(30, 2));
    assert_eq!(window.cursor(), vec2(9, 2));
    window.move_cursor(-20, 1);
    assert_eq!(window.cursor(), vec2(0, 3));
    window.set_cursor_visible(true);
    window.set_cursor_style(SetCursorStyle::BlinkingBar);
    assert!(window.cursor_visible());
    let action = window.render_cursor(vec2(0, 0));
    assert_eq!(
        action,
        CursorAction::Show {
            pos: vec2(0, 3),
            style: SetCursorStyle::BlinkingBar
        }
    );
    assert_eq!(window.render_cursor(vec2(0, 3)), CursorAction::Keep);
    window.set_cursor_visible(false);
    assert_eq!(window.render_cursor(vec2(0, 3)), CursorAction::Hide);
}

#[test]
fn keyboard_request_waits_for_inline_band() {
    let mut full = Window::new(vec2(5, 5));
    assert!(full.request_keyboard());
    let mut inline = Window::new_inline(5, 2);
    assert!(!inline.request_keyboard());
    assert!(inline.inline_kitty());
    assert!(inline.is_inline());
    assert!(!full.is_inline());
}
