use crossterm::event::{
    Event, KeyCode, KeyEvent, KeyEventKind, KeyEventState, KeyModifiers, MediaKeyCode,
    ModifierKeyCode, MouseButton, MouseEvent, MouseEventKind,
};
use vstd::prelude::*;

verus! {

#[verifier::external_type_specification]
#[verifier::external_body]
pub struct ExKeyModifiers(KeyModifiers);

#[verifier::external_type_specification]
#[verifier::external_body]
pub struct ExKeyEventState(KeyEventState);

#[verifier::external_type_specification]
pub struct ExMediaKeyCode(MediaKeyCode);

#[verifier::external_type_specification]
pub struct ExModifierKeyCode(ModifierKeyCode);

#[verifier::external_type_specification]
pub struct ExKeyCode(KeyCode);

#[verifier::external_type_specification]
pub struct ExKeyEventKind(KeyEventKind);

#[verifier::external_type_specification]
pub struct ExKeyEvent(KeyEvent);

#[verifier::external_type_specification]
pub struct ExMouseButton(MouseButton);

#[verifier::external_type_specification]
pub struct ExMouseEventKind(MouseEventKind);

#[verifier::external_type_specification]
pub struct ExMouseEvent(MouseEvent);

#[verifier::external_type_specification]
pub struct ExEvent(Event);

/// Whether crossterm counts two key events as the same: it compares them
/// after folding the case of a character key into the shift modifier.
pub uninterp spec fn same_key_event(a: KeyEvent, b: KeyEvent) -> bool;

/// Relies on crossterm's `KeyEvent` equality (`impl PartialEq for KeyEvent`),
/// which compares events after folding the case of a character into the
/// shift modifier; the result depends on the two events alone.
#[verifier::external_body]
fn key_events_equal(a: &KeyEvent, b: &KeyEvent) -> (r: bool)
    ensures
        r == same_key_event(*a, *b),
{
    *a == *b
}

/// Relies on crossterm's `KeyCode` equality, derived over its variants and
/// their plain payloads, so the same as equality of values.
#[verifier::external_body]
fn key_codes_equal(a: &KeyCode, b: &KeyCode) -> (r: bool)
    ensures
        r == (*a == *b),
{
    *a == *b
}

/// Relies on crossterm's `KeyModifiers` equality, derived over its bits, so
/// the same as equality of values.
#[verifier::external_body]
fn modifiers_equal(a: &KeyModifiers, b: &KeyModifiers) -> (r: bool)
    ensures
        r == (*a == *b),
{
    *a == *b
}

fn buttons_equal(a: MouseButton, b: MouseButton) -> (r: bool)
    ensures
        r == (a == b),
{
    match (a, b) {
        (MouseButton::Left, MouseButton::Left) => true,
        (MouseButton::Right, MouseButton::Right) => true,
        (MouseButton::Middle, MouseButton::Middle) => true,
        _ => false,
    }
}

/// `s` without the items equal to `b`, in order.
fn without_button(s: &Vec<MouseButton>, b: MouseButton) -> (r: Vec<MouseButton>)
    ensures
        r@ == s@.filter(|x: MouseButton| x != b),
{
    let mut out: Vec<MouseButton> = Vec::new();
    let mut i: usize = 0;
    while i < s.len()
        invariant
            i <= s@.len(),
            out@ == s@.take(i as int).filter(|x: MouseButton| x != b),
        decreases s@.len() - i,
    {
        proof {
            reveal(Seq::filter);
            assert(s@.take(i + 1).drop_last() =~= s@.take(i as int));
        }
        if !buttons_equal(s[i], b) {
            out.push(s[i]);
        }
        i = i + 1;
    }
    proof {
        assert(s@.take(s@.len() as int) =~= s@);
    }
    out
}

/// `s` without the key entries whose code is `code`, in order.
fn without_code(s: &Vec<(KeyCode, KeyModifiers)>, code: KeyCode) -> (r: Vec<(KeyCode, KeyModifiers)>)
    ensures
        r@ == s@.filter(|x: (KeyCode, KeyModifiers)| x.0 != code),
{
    let mut out: Vec<(KeyCode, KeyModifiers)> = Vec::new();
    let mut i: usize = 0;
    while i < s.len()
        invariant
            i <= s@.len(),
            out@ == s@.take(i as int).filter(|x: (KeyCode, KeyModifiers)| x.0 != code),
        decreases s@.len() - i,
    {
        proof {
            reveal(Seq::filter);
            assert(s@.take(i + 1).drop_last() =~= s@.take(i as int));
        }
        if !key_codes_equal(&s[i].0, &code) {
            out.push(s[i]);
        }
        i = i + 1;
    }
    proof {
        assert(s@.take(s@.len() as int) =~= s@);
    }
    out
}

fn has_button(s: &Vec<MouseButton>, b: &MouseButton) -> (r: bool)
    ensures
        r == s@.contains(*b),
{
    let mut i: usize = 0;
    while i < s.len()
        invariant
            i <= s@.len(),
            forall|j: int| 0 <= j < i ==> s@[j] != *b,
        decreases s@.len() - i,
    {
        if buttons_equal(s[i], *b) {
            return true;
        }
        i = i + 1;
    }
    false
}

fn has_code(s: &Vec<(KeyCode, KeyModifiers)>, code: &KeyCode) -> (r: bool)
    ensures
        r == (exists|j: int| 0 <= j < s@.len() && (#[trigger] s@[j]).0 == *code),
{
    let mut i: usize = 0;
    while i < s.len()
        invariant
            i <= s@.len(),
            forall|j: int| 0 <= j < i ==> (#[trigger] s@[j]).0 != *code,
        decreases s@.len() - i,
    {
        if key_codes_equal(&s[i].0, code) {
            return true;
        }
        i = i + 1;
    }
    false
}

fn has_key(s: &Vec<(KeyCode, KeyModifiers)>, code: &KeyCode, modifier: &KeyModifiers) -> (r: bool)
    ensures
        r == s@.contains((*code, *modifier)),
{
    let mut i: usize = 0;
    while i < s.len()
        invariant
            i <= s@.len(),
            forall|j: int| 0 <= j < i ==> s@[j] != (*code, *modifier),
        decreases s@.len() - i,
    {
        if key_codes_equal(&s[i].0, code) && modifiers_equal(&s[i].1, modifier) {
            assert(s@[i as int] == (*code, *modifier));
            return true;
        }
        i = i + 1;
    }
    false
}

/// The buttons held, pressed or released this frame, and the scroll count,
/// after a mouse event: a press adds the button to the pressed and held
/// lists, a release to the released list and drops it from the held one,
/// and a scroll moves the count by one (stopping at its bounds).
pub open spec fn after_mouse(
    pressed: Seq<MouseButton>,
    held: Seq<MouseButton>,
    released: Seq<MouseButton>,
    scroll: u16,
    kind: MouseEventKind,
) -> (Seq<MouseButton>, Seq<MouseButton>, Seq<MouseButton>, u16) {
    match kind {
        MouseEventKind::Down(b) => (pressed.push(b), held.push(b), released, scroll),
        MouseEventKind::Up(b) => (pressed, held.filter(|x: MouseButton| x != b), released.push(b), scroll),
        MouseEventKind::ScrollDown => (pressed, held, released, if scroll < 0xffff {
            (scroll + 1) as u16
        } else {
            scroll
        }),
        MouseEventKind::ScrollUp => (pressed, held, released, if scroll > 0 {
            (scroll - 1) as u16
        } else {
            scroll
        }),
        _ => (pressed, held, released, scroll),
    }
}

/// The mouse part of an input state.
pub struct MouseState {
    just_pressed: Vec<MouseButton>,
    held: Vec<MouseButton>,
    just_released: Vec<MouseButton>,
    scroll: u16,
}

impl View for MouseState {
    type V = (Seq<MouseButton>, Seq<MouseButton>, Seq<MouseButton>, u16);

    closed spec fn view(&self) -> (Seq<MouseButton>, Seq<MouseButton>, Seq<MouseButton>, u16) {
        (self.just_pressed@, self.held@, self.just_released@, self.scroll)
    }
}

impl MouseState {
    fn new() -> (r: MouseState)
        ensures
            r@ == (Seq::<MouseButton>::empty(), Seq::<MouseButton>::empty(), Seq::<
                MouseButton,
            >::empty(), 0u16),
    {
        MouseState { just_pressed: Vec::new(), held: Vec::new(), just_released: Vec::new(), scroll: 0 }
    }

    fn register(&mut self, mouse_event: MouseEvent)
        ensures
            final(self)@ == after_mouse(
                old(self)@.0,
                old(self)@.1,
                old(self)@.2,
                old(self)@.3,
                mouse_event.kind,
            ),
    {
        match mouse_event.kind {
            MouseEventKind::Down(button) => {
                self.just_pressed.push(button);
                self.held.push(button);
            },
            MouseEventKind::Up(button) => {
                self.just_released.push(button);
                self.held = without_button(&self.held, button);
            },
            MouseEventKind::ScrollDown => {
                self.scroll = self.scroll.saturating_add(1);
            },
            MouseEventKind::ScrollUp => {
                self.scroll = self.scroll.saturating_sub(1);
            },
            _ => {},
        }
    }

    fn new_frame(&mut self)
        ensures
            final(self)@ == (Seq::<MouseButton>::empty(), old(self)@.1, Seq::<MouseButton>::empty(), old(self)@.3),
    {
        self.just_pressed = Vec::new();
        self.just_released = Vec::new();
    }
}

/// The hooks by which an input state follows the terminal's events.
pub trait InputTrait {
    /// Starts a new frame: forgets what happened during the last one.
    fn update(&mut self);

    /// Takes in an event of the terminal.
    fn register_event(&mut self, event: Event);

    /// Takes in a key event.
    fn register_key(&mut self, key_event: KeyEvent);

    /// Takes in a mouse event.
    fn register_mouse(&mut self, mouse_event: MouseEvent);
}

/// The input state of an ordinary terminal: the key events of this frame
/// and the mouse buttons.
pub struct Input {
    keys: Vec<KeyEvent>,
    mouse: MouseState,
}

/// The mathematical content of an `Input`.
pub struct InputView {
    pub keys: Seq<KeyEvent>,
    pub just_pressed_mouse: Seq<MouseButton>,
    pub mouse: Seq<MouseButton>,
    pub just_released_mouse: Seq<MouseButton>,
    pub scroll: u16,
}

impl View for Input {
    type V = InputView;

    closed spec fn view(&self) -> InputView {
        InputView {
            keys: self.keys@,
            just_pressed_mouse: self.mouse@.0,
            mouse: self.mouse@.1,
            just_released_mouse: self.mouse@.2,
            scroll: self.mouse@.3,
        }
    }
}

/// The mouse lists of a view with a mouse event applied.
pub open spec fn input_after_mouse(v: InputView, kind: MouseEventKind) -> InputView {
    let (p, h, r, s) = after_mouse(v.just_pressed_mouse, v.mouse, v.just_released_mouse, v.scroll, kind);
    InputView { just_pressed_mouse: p, mouse: h, just_released_mouse: r, scroll: s, ..v }
}

impl Default for Input {
    fn default() -> (r: Input)
        ensures
            r@.keys.len() == 0 && r@.just_pressed_mouse.len() == 0 && r@.mouse.len() == 0
                && r@.just_released_mouse.len() == 0 && r@.scroll == 0,
    {
        Input { keys: Vec::new(), mouse: MouseState::new() }
    }
}

impl Input {
    /// Starts a new frame: forgets this frame's keys and button presses and
    /// releases; held buttons stay held.
    pub fn new_frame(&mut self)
        ensures
            final(self)@ == (InputView {
                keys: Seq::empty(),
                just_pressed_mouse: Seq::empty(),
                just_released_mouse: Seq::empty(),
                ..old(self)@
            }),
    {
        self.keys = Vec::new();
        self.mouse.new_frame();
    }

    /// Takes in an event: keys and mouse events are recorded, others ignored.
    pub fn take_event(&mut self, event: Event)
        ensures
            final(self)@ == (match event {
                Event::Key(k) => InputView { keys: old(self)@.keys.push(k), ..old(self)@ },
                Event::Mouse(m) => input_after_mouse(old(self)@, m.kind),
                _ => old(self)@,
            }),
    {
        match event {
            Event::Key(k) => self.take_key(k),
            Event::Mouse(m) => self.take_mouse(m),
            _ => {},
        }
    }

    /// Records a key event of this frame.
    pub fn take_key(&mut self, key_event: KeyEvent)
        ensures
            final(self)@ == (InputView { keys: old(self)@.keys.push(key_event), ..old(self)@ }),
    {
        self.keys.push(key_event);
    }

    /// Records a mouse event (see `after_mouse`).
    pub fn take_mouse(&mut self, mouse_event: MouseEvent)
        ensures
            final(self)@ == input_after_mouse(old(self)@, mouse_event.kind),
    {
        self.mouse.register(mouse_event);
    }

    /// Whether a key with this code was pressed this frame.
    pub fn code(&self, code: KeyCode) -> (r: bool)
        ensures
            r == (exists|j: int| 0 <= j < self@.keys.len() && (#[trigger] self@.keys[j]).code == code),
    {
        let mut i: usize = 0;
        while i < self.keys.len()
            invariant
                i <= self@.keys.len(),
                forall|j: int| 0 <= j < i ==> (#[trigger] self@.keys[j]).code != code,
            decreases self@.keys.len() - i,
        {
            if key_codes_equal(&self.keys[i].code, &code) {
                return true;
            }
            i = i + 1;
        }
        false
    }

    /// Whether this key event happened this frame (as crossterm compares
    /// key events).
    pub fn pressed(&self, key_event: KeyEvent) -> (r: bool)
        ensures
            r == (exists|j: int|
                0 <= j < self@.keys.len() && same_key_event(#[trigger] self@.keys[j], key_event)),
    {
        let mut i: usize = 0;
        while i < self.keys.len()
            invariant
                i <= self@.keys.len(),
                forall|j: int| 0 <= j < i ==> !same_key_event(#[trigger] self@.keys[j], key_event),
            decreases self@.keys.len() - i,
        {
            if key_events_equal(&self.keys[i], &key_event) {
                return true;
            }
            i = i + 1;
        }
        false
    }

    /// Whether the button was pressed this frame.
    pub fn mouse_just_pressed(&self, button: &MouseButton) -> (r: bool)
        ensures
            r == self@.just_pressed_mouse.contains(*button),
    {
        has_button(&self.mouse.just_pressed, button)
    }

    /// Whether the button is held down.
    pub fn mouse_pressed(&self, button: &MouseButton) -> (r: bool)
        ensures
            r == self@.mouse.contains(*button),
    {
        has_button(&self.mouse.held, button)
    }

    /// Whether the button was released this frame.
    pub fn mouse_just_released(&self, button: &MouseButton) -> (r: bool)
        ensures
            r == self@.just_released_mouse.contains(*button),
    {
        has_button(&self.mouse.just_released, button)
    }
}

impl InputTrait for Input {
    fn update(&mut self) {
        self.new_frame();
    }

    fn register_event(&mut self, event: Event) {
        self.take_event(event);
    }

    fn register_key(&mut self, key_event: KeyEvent) {
        self.take_key(key_event);
    }

    fn register_mouse(&mut self, mouse_event: MouseEvent) {
        self.take_mouse(mouse_event);
    }
}

/// The input state of a terminal with the kitty keyboard protocol, which
/// reports releases: keys pressed and released this frame, keys held, and
/// the mouse buttons.
pub struct KittyInput {
    just_pressed: Vec<(KeyCode, KeyModifiers)>,
    keys: Vec<(KeyCode, KeyModifiers)>,
    just_released: Vec<(KeyCode, KeyModifiers)>,
    mouse: MouseState,
}

/// The mathematical content of a `KittyInput`.
pub struct KittyInputView {
    pub just_pressed: Seq<(KeyCode, KeyModifiers)>,
    pub keys: Seq<(KeyCode, KeyModifiers)>,
    pub just_released: Seq<(KeyCode, KeyModifiers)>,
    pub just_pressed_mouse: Seq<MouseButton>,
    pub mouse: Seq<MouseButton>,
    pub just_released_mouse: Seq<MouseButton>,
    pub scroll: u16,
}

impl View for KittyInput {
    type V = KittyInputView;

    closed spec fn view(&self) -> KittyInputView {
        KittyInputView {
            just_pressed: self.just_pressed@,
            keys: self.keys@,
            just_released: self.just_released@,
            just_pressed_mouse: self.mouse@.0,
            mouse: self.mouse@.1,
            just_released_mouse: self.mouse@.2,
            scroll: self.mouse@.3,
        }
    }
}

/// The state after a key event: a press is added to the pressed and held
/// keys, a release to the released keys and every held key with its code is
/// dropped; repeats change nothing.
pub open spec fn kitty_after_key(v: KittyInputView, k: KeyEvent) -> KittyInputView {
    match k.kind {
        KeyEventKind::Press => KittyInputView {
            just_pressed: v.just_pressed.push((k.code, k.modifiers)),
            keys: v.keys.push((k.code, k.modifiers)),
            ..v
        },
        KeyEventKind::Release => KittyInputView {
            just_released: v.just_released.push((k.code, k.modifiers)),
            keys: v.keys.filter(|x: (KeyCode, KeyModifiers)| x.0 != k.code),
            ..v
        },
        _ => v,
    }
}

/// The state with a mouse event applied.
pub open spec fn kitty_after_mouse(v: KittyInputView, kind: MouseEventKind) -> KittyInputView {
    let (p, h, r, s) = after_mouse(v.just_pressed_mouse, v.mouse, v.just_released_mouse, v.scroll, kind);
    KittyInputView { just_pressed_mouse: p, mouse: h, just_released_mouse: r, scroll: s, ..v }
}

impl Default for KittyInput {
    fn default() -> (r: KittyInput)
        ensures
            r@.just_pressed.len() == 0 && r@.keys.len() == 0 && r@.just_released.len() == 0
                && r@.just_pressed_mouse.len() == 0 && r@.mouse.len() == 0
                && r@.just_released_mouse.len() == 0 && r@.scroll == 0,
    {
        KittyInput {
            just_pressed: Vec::new(),
            keys: Vec::new(),
            just_released: Vec::new(),
            mouse: MouseState::new(),
        }
    }
}

impl KittyInput {
    /// Starts a new frame: forgets this frame's presses and releases; held
    /// keys and buttons stay held.
    pub fn new_frame(&mut self)
        ensures
            final(self)@ == (KittyInputView {
                just_pressed: Seq::empty(),
                just_released: Seq::empty(),
                just_pressed_mouse: Seq::empty(),
                just_released_mouse: Seq::empty(),
                ..old(self)@
            }),
    {
        self.just_pressed = Vec::new();
        self.just_released = Vec::new();
        self.mouse.new_frame();
    }

    /// Takes in an event: keys and mouse events are recorded, others ignored.
    pub fn take_event(&mut self, event: Event)
        ensures
            final(self)@ == (match event {
                Event::Key(k) => kitty_after_key(old(self)@, k),
                Event::Mouse(m) => kitty_after_mouse(old(self)@, m.kind),
                _ => old(self)@,
            }),
    {
        match event {
            Event::Key(k) => self.take_key(k),
            Event::Mouse(m) => self.take_mouse(m),
            _ => {},
        }
    }

    /// Records a key event (see `kitty_after_key`).
    pub fn take_key(&mut self, key_event: KeyEvent)
        ensures
            final(self)@ == kitty_after_key(old(self)@, key_event),
    {
        match key_event.kind {
            KeyEventKind::Press => {
                self.just_pressed.push((key_event.code, key_event.modifiers));
                self.keys.push((key_event.code, key_event.modifiers));
            },
            KeyEventKind::Release => {
                self.just_released.push((key_event.code, key_event.modifiers));
                self.keys = without_code(&self.keys, key_event.code);
            },
            _ => {},
        }
    }

    /// Records a mouse event (see `after_mouse`).
    pub fn take_mouse(&mut self, mouse_event: MouseEvent)
        ensures
            final(self)@ == kitty_after_mouse(old(self)@, mouse_event.kind),
    {
        self.mouse.register(mouse_event);
    }

    /// Whether this key with exactly these modifiers was pressed this frame.
    pub fn just_pressed_mod(&self, code: KeyCode, modifier: KeyModifiers) -> (r: bool)
        ensures
            r == self@.just_pressed.contains((code, modifier)),
    {
        has_key(&self.just_pressed, &code, &modifier)
    }

    /// Whether this key was pressed this frame, with any modifiers.
    pub fn just_pressed(&self, code: KeyCode) -> (r: bool)
        ensures
            r == (exists|j: int| 0 <= j < self@.just_pressed.len() && (#[trigger] self@.just_pressed[j]).0 == code),
    {
        has_code(&self.just_pressed, &code)
    }

    /// Whether this key with exactly these modifiers is held.
    pub fn pressed_mod(&self, code: KeyCode, modifier: KeyModifiers) -> (r: bool)
        ensures
            r == self@.keys.contains((code, modifier)),
    {
        has_key(&self.keys, &code, &modifier)
    }

    /// Whether this key is held, with any modifiers.
    pub fn pressed(&self, code: KeyCode) -> (r: bool)
        ensures
            r == (exists|j: int| 0 <= j < self@.keys.len() && (#[trigger] self@.keys[j]).0 == code),
    {
        has_code(&self.keys, &code)
    }

    /// Whether this key was released this frame, with any modifiers.
    pub fn just_released(&self, code: KeyCode) -> (r: bool)
        ensures
            r == (exists|j: int| 0 <= j < self@.just_released.len() && (#[trigger] self@.just_released[j]).0 == code),
    {
        has_code(&self.just_released, &code)
    }

    /// Whether this key with exactly these modifiers was released this frame.
    pub fn just_released_mod(&self, code: KeyCode, modifier: KeyModifiers) -> (r: bool)
        ensures
            r == self@.just_released.contains((code, modifier)),
    {
        has_key(&self.just_released, &code, &modifier)
    }

    /// Whether the button was pressed this frame.
    pub fn mouse_just_pressed(&self, button: &MouseButton) -> (r: bool)
        ensures
            r == self@.just_pressed_mouse.contains(*button),
    {
        has_button(&self.mouse.just_pressed, button)
    }

    /// Whether the button is held down.
    pub fn mouse_pressed(&self, button: &MouseButton) -> (r: bool)
        ensures
            r == self@.mouse.contains(*button),
    {
        has_button(&self.mouse.held, button)
    }

    /// Whether the button was released this frame.
    pub fn mouse_just_released(&self, button: &MouseButton) -> (r: bool)
        ensures
            r == self@.just_released_mouse.contains(*button),
    {
        has_button(&self.mouse.just_released, button)
    }
}

impl InputTrait for KittyInput {
    fn update(&mut self) {
        self.new_frame();
    }

    fn register_event(&mut self, event: Event) {
        self.take_event(event);
    }

    fn register_key(&mut self, key_event: KeyEvent) {
        self.take_key(key_event);
    }

    fn register_mouse(&mut self, mouse_event: MouseEvent) {
        self.take_mouse(mouse_event);
    }
}

} // verus!
