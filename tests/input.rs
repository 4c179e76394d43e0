use ascii_forge::input::{Input, InputTrait, KittyInput};
use crossterm::event::{
    Event, KeyCode, KeyEvent, KeyEventKind, KeyModifiers, MouseButton, MouseEvent,
    MouseEventKind,
};

fn mouse(kind: MouseEventKind) -> MouseEvent {
    MouseEvent {
        kind,
        column: 0,
        row: 0,
        modifiers: KeyModifiers::NONE,
    }
}

fn key(code: KeyCode, kind: KeyEventKind) -> KeyEvent {
    KeyEvent::new_with_kind(code, KeyModifiers::NONE, kind)
}

#[test]
fn input_records_keys_for_one_frame() {
    let mut input = Input::default();
    input.register_event(Event::Key(KeyEvent::new(KeyCode::Char('q'), KeyModifiers::NONE)));
    assert!(input.code(KeyCode::Char('q')));
    assert!(!input.code(KeyCode::Char('w')));
    assert!(input.pressed(KeyEvent::new(KeyCode::Char('q'), KeyModifiers::NONE)));
    // crossterm folds an upper-case character into the shift modifier.
    input.register_key(KeyEvent::new(KeyCode::Char('A'), KeyModifiers::NONE));
    assert!(input.pressed(KeyEvent::new(KeyCode::Char('a'), KeyModifiers::SHIFT)));
    input.update();
    assert!(!input.code(KeyCode::Char('q')));
}

#[test]
fn input_tracks_mouse_buttons() {
    let mut input = Input::default();
    input.register_mouse(mouse(MouseEventKind::Down(MouseButton::Left)));
    assert!(input.mouse_just_pressed(&MouseButton::Left));
    assert!(input.mouse_pressed(&MouseButton::Left));
    input.update();
    assert!(!input.mouse_just_pressed(&MouseButton::Left));
    assert!(input.mouse_pressed(&MouseButton::Left));
    input.register_mouse(mouse(MouseEventKind::Up(MouseButton::Left)));
    assert!(input.mouse_just_released(&MouseButton::Left));
    assert!(!input.mouse_pressed(&MouseButton::Left));
    // Scrolling up from zero stays at zero rather than failing.
    input.register_mouse(mouse(MouseEventKind::ScrollUp));
    input.register_mouse(mouse(MouseEventKind::ScrollDown));
}

#[test]
fn kitty_input_tracks_presses_and_releases() {
    let mut input = KittyInput::default();
    input.register_key(key(KeyCode::Char('a'), KeyEventKind::Press));
    assert!(input.just_pressed(KeyCode::Char('a')));
    assert!(input.just_pressed_mod(KeyCode::Char('a'), KeyModifiers::NONE));
    assert!(!input.just_pressed_mod(KeyCode::Char('a'), KeyModifiers::CONTROL));
    assert!(input.pressed(KeyCode::Char('a')));
    assert!(input.pressed_mod(KeyCode::Char('a'), KeyModifiers::NONE));
    input.update();
    assert!(!input.just_pressed(KeyCode::Char('a')));
    assert!(input.pressed(KeyCode::Char('a')));
    input.register_key(key(KeyCode::Char('a'), KeyEventKind::Release));
    assert!(input.just_released(KeyCode::Char('a')));
    assert!(input.just_released_mod(KeyCode::Char('a'), KeyModifiers::NONE));
    assert!(!input.pressed(KeyCode::Char('a')));
    input.register_event(Event::Mouse(mouse(MouseEventKind::Down(MouseButton::Right))));
    assert!(input.mouse_just_pressed(&MouseButton::Right));
    assert!(input.mouse_pressed(&MouseButton::Right));
    assert!(!input.mouse_just_released(&MouseButton::Right));
}
